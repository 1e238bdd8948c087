//! Base62 short codes: a bijection between `u64` identifiers and compact
//! alphanumeric strings.
use vstd::prelude::*;

verus! {

/// The symbol for a digit value in `0..62`: digits, then upper case, then
/// lower case letters.
pub open spec fn digit_char(d: int) -> char {
    if d < 10 {
        ((d + 48) as u32) as char
    } else if d < 36 {
        ((d - 10 + 65) as u32) as char
    } else {
        ((d - 36 + 97) as u32) as char
    }
}

/// Whether `c` belongs to the 62-symbol alphabet.
pub open spec fn is_digit_char(c: char) -> bool {
    ('0' <= c && c <= '9') || ('A' <= c && c <= 'Z') || ('a' <= c && c <= 'z')
}

/// The digit value of a symbol of the alphabet.
pub open spec fn char_digit(c: char) -> int {
    if c <= '9' {
        c as int - 48
    } else if c <= 'Z' {
        c as int - 65 + 10
    } else {
        c as int - 97 + 36
    }
}

/// Every character of `s` is a symbol of the alphabet.
pub open spec fn all_digit_chars(s: Seq<char>) -> bool {
    forall|i: int| 0 <= i < s.len() ==> #[trigger] is_digit_char(s[i])
}

/// The base62 encoding of `n`: most significant digit first, no padding,
/// and `"0"` for zero.
pub open spec fn base62_of(n: nat) -> Seq<char>
    decreases n,
{
    if n < 62 {
        seq![digit_char(n as int)]
    } else {
        base62_of(n / 62).push(digit_char((n % 62) as int))
    }
}

/// The number that a string of alphabet symbols denotes in base 62.
pub open spec fn value_of(s: Seq<char>) -> nat
    decreases s.len(),
{
    if s.len() == 0 {
        0
    } else {
        (value_of(s.drop_last()) * 62 + char_digit(s.last())) as nat
    }
}

/// A string that decodes to a 64-bit identifier.
pub open spec fn is_valid_code(s: Seq<char>) -> bool {
    &&& s.len() > 0
    &&& all_digit_chars(s)
    &&& value_of(s) <= u64::MAX
}

/// Why a string is not a short code.
#[derive(Debug, Clone, Copy, PartialEq, Eq, Structural)]
pub enum CodeError {
    /// Empty, a character outside the alphabet, or a value beyond 64 bits.
    InvalidCode,
}

#[verifier::external_type_specification]
#[verifier::external_body]
pub struct ExDecodeError(base62::DecodeError);

/// Relies on `base62::encode`: positional base 62 over the standard alphabet
/// (`0-9`, `A-Z`, `a-z`), most significant digit first, `"0"` for zero.
#[verifier::external_body]
fn base62_encode(n: u64) -> (r: String)
    ensures
        r@ == base62_of(n as nat),
{
    base62::encode(n)
}

/// Relies on `base62::decode`: it fails on empty input, on a byte outside the
/// standard alphabet and on a value beyond `u128`; otherwise it returns the
/// value that the digits denote (leading zeros allowed).
#[verifier::external_body]
fn base62_decode(s: &str) -> (r: Result<u128, base62::DecodeError>)
    ensures
        r is Ok <==> (s@.len() > 0 && all_digit_chars(s@) && value_of(s@) <= u128::MAX),
        r is Ok ==> r->Ok_0 == value_of(s@),
{
    base62::decode(s)
}

/// The short code of an identifier.
pub fn encode(id: u64) -> (r: String)
    ensures
        r@ == base62_of(id as nat),
        is_valid_code(r@),
        value_of(r@) == id,
{
    proof {
        lemma_round_trip(id);
    }
    base62_encode(id)
}

/// The identifier that a short code stands for.
pub fn decode(code: &str) -> (r: Result<u64, CodeError>)
    ensures
        r is Ok <==> is_valid_code(code@),
        r is Ok ==> r->Ok_0 == value_of(code@),
{
    match base62_decode(code) {
        Ok(v) => {
            if v <= u64::MAX as u128 {
                Ok(v as u64)
            } else {
                Err(CodeError::InvalidCode)
            }
        },
        Err(_) => Err(CodeError::InvalidCode),
    }
}

proof fn lemma_digit_char(d: int)
    requires
        0 <= d < 62,
    ensures
        is_digit_char(digit_char(d)),
        char_digit(digit_char(d)) == d,
{
}

/// Decoding the encoding of any 64-bit identifier gives the identifier back,
/// and the encoding is a valid, non-empty code.
pub proof fn lemma_round_trip(x: u64)
    ensures
        is_valid_code(base62_of(x as nat)),
        value_of(base62_of(x as nat)) == x,
{
    lemma_base62_of(x as nat);
}

/// For every natural number, the encoding is a non-empty string of alphabet
/// symbols that denotes the number.
pub proof fn lemma_base62_of(n: nat)
    ensures
        base62_of(n).len() > 0,
        all_digit_chars(base62_of(n)),
        value_of(base62_of(n)) == n,
    decreases n,
{
    if n < 62 {
        lemma_digit_char(n as int);
        let s = base62_of(n);
        assert(s.drop_last() =~= Seq::<char>::empty());
        assert(value_of(s.drop_last()) == 0);
        assert(value_of(s) == char_digit(s.last()));
    } else {
        lemma_base62_of(n / 62);
        lemma_digit_char((n % 62) as int);
        let s = base62_of(n);
        assert(s.drop_last() =~= base62_of(n / 62));
        assert(n == (n / 62) * 62 + n % 62) by (nonlinear_arith);
        assert(value_of(s) == value_of(base62_of(n / 62)) * 62 + n % 62);
        assert forall|i: int| 0 <= i < s.len() implies #[trigger] is_digit_char(s[i]) by {
            if i < s.len() - 1 {
                assert(s[i] == base62_of(n / 62)[i]);
            }
        }
    }
}

/// Distinct identifiers have distinct codes.
pub proof fn lemma_encoding_injective(x: u64, y: u64)
    requires
        x != y,
    ensures
        base62_of(x as nat) != base62_of(y as nat),
{
    lemma_round_trip(x);
    lemma_round_trip(y);
}

} // verus!
