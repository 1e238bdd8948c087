//! The existence cache: a Bloom filter over the original URLs seen so far.
//! It never answers "absent" for a URL that was added; it may answer
//! "possibly present" for one that was not.
use vstd::prelude::*;

verus! {

#[verifier::external_type_specification]
#[verifier::external_body]
#[verifier::reject_recursive_types(T)]
pub struct ExBloom<T: ?Sized>(bloomfilter::Bloom<T>);

/// The strings that a Bloom filter reports as possibly present: those whose
/// bits are all set.
pub uninterp spec fn bloom_members(b: bloomfilter::Bloom<String>) -> Set<Seq<char>>;

/// Relies on `bloomfilter::Bloom::new`: a filter of `bitmap_bytes` bytes sized
/// for `expected_items` items, with no bit set, so it reports nothing. It
/// asserts that both sizes are positive and that the number of bits fits in a
/// `u64`; it fails only when no random seed can be had.
#[verifier::external_body]
fn bloom_new(bitmap_bytes: usize, expected_items: usize) -> (r: Option<bloomfilter::Bloom<String>>)
    requires
        bitmap_bytes > 0,
        expected_items > 0,
        bitmap_bytes <= u64::MAX / 8,
    ensures
        r matches Some(b) ==> bloom_members(b) == Set::<Seq<char>>::empty(),
{
    bloomfilter::Bloom::new(bitmap_bytes, expected_items).ok()
}

/// Relies on `bloomfilter::Bloom::set`: it only turns bits on, all of those
/// of `item` included, so every string reported before still is, and `item`
/// is too. Each bit offset is reduced modulo the filter's bit count, so it
/// never indexes out of the bitmap and does not panic.
#[verifier::external_body]
fn bloom_set(b: &mut bloomfilter::Bloom<String>, item: &String)
    ensures
        bloom_members(*old(b)).insert(item@).subset_of(bloom_members(*final(b))),
    no_unwind
{
    b.set(item)
}

/// Relies on `bloomfilter::Bloom::check`: `true` exactly when every bit of
/// `item` is set.
#[verifier::external_body]
fn bloom_check(b: &bloomfilter::Bloom<String>, item: &String) -> (r: bool)
    ensures
        r == bloom_members(*b).contains(item@),
{
    b.check(item)
}

/// A fixed-size probabilistic set of URLs. It only grows.
pub struct ExistenceCache {
    bloom: bloomfilter::Bloom<String>,
    added: Ghost<Set<Seq<char>>>,
}

impl View for ExistenceCache {
    type V = Set<Seq<char>>;

    /// The URLs added so far.
    closed spec fn view(&self) -> Set<Seq<char>> {
        self.added@
    }
}

impl ExistenceCache {
    /// Every URL added is reported.
    #[verifier::type_invariant]
    spec fn inv(self) -> bool {
        self.added@.subset_of(bloom_members(self.bloom))
    }

    /// The URLs the cache reports as possibly present: those added, and
    /// false positives.
    pub closed spec fn reports(&self) -> Set<Seq<char>> {
        bloom_members(self.bloom)
    }

    /// An empty cache with a bit array of `bitmap_bytes` bytes, sized for
    /// `expected_items` URLs; `None` when the filter cannot be seeded.
    pub fn new(bitmap_bytes: usize, expected_items: usize) -> (r: Option<ExistenceCache>)
        requires
            bitmap_bytes > 0,
            expected_items > 0,
            bitmap_bytes <= u64::MAX / 8,
        ensures
            r matches Some(c) ==> c@ == Set::<Seq<char>>::empty() && c.reports() == Set::<Seq<char>>::empty(),
    {
        match bloom_new(bitmap_bytes, expected_items) {
            Some(bloom) => Some(ExistenceCache { bloom, added: Ghost(Set::empty()) }),
            None => None,
        }
    }

    /// Records `url`. Adding twice is the same as adding once.
    pub fn add(&mut self, url: &String)
        ensures
            final(self)@ == old(self)@.insert(url@),
            old(self).reports().insert(url@).subset_of(final(self).reports()),
    {
        proof {
            use_type_invariant(&*self);
        }
        bloom_set(&mut self.bloom, url);
        self.added = Ghost(self.added@.insert(url@));
    }

    /// `false` means `url` was never added; `true` means it may have been.
    pub fn might_contain(&self, url: &String) -> (r: bool)
        ensures
            r == self.reports().contains(url@),
            self@.contains(url@) ==> r,
    {
        proof {
            use_type_invariant(self);
        }
        bloom_check(&self.bloom, url)
    }

    /// Rebuilds the cache from every original URL in the store.
    pub fn add_all(&mut self, urls: &Vec<String>)
        ensures
            final(self)@ == old(self)@ + Set::new(|u: Seq<char>| exists|i: int| 0 <= i < urls.len() && urls[i]@ == u),
            old(self).reports().subset_of(final(self).reports()),
    {
        let mut i: usize = 0;
        while i < urls.len()
            invariant
                0 <= i <= urls.len(),
                self@ == old(self)@ + Set::new(|u: Seq<char>| exists|k: int| 0 <= k < i && urls[k]@ == u),
                old(self).reports().subset_of(self.reports()),
            decreases urls.len() - i,
        {
            self.add(&urls[i]);
            proof {
                let s_old = Set::new(|u: Seq<char>| exists|k: int| 0 <= k < i && urls[k]@ == u);
                let s_new = Set::new(|u: Seq<char>| exists|k: int| 0 <= k < i + 1 && urls[k]@ == u);
                assert(s_new =~= s_old.insert(urls[i as int]@));
                assert(self@ =~= old(self)@ + s_new);
            }
            i = i + 1;
        }
    }
}

/// The URLs of a cache after adding each of `added` in turn.
pub open spec fn after_adds(start: Set<Seq<char>>, added: Seq<Seq<char>>) -> Set<Seq<char>>
    decreases added.len(),
{
    if added.len() == 0 {
        start
    } else {
        after_adds(start, added.drop_last()).insert(added.last())
    }
}

/// No false negatives, ever: once a URL has been added, it stays in the
/// cache through any later additions, so `might_contain` answers `true` for it.
pub proof fn lemma_added_stays(start: Set<Seq<char>>, url: Seq<char>, later: Seq<Seq<char>>)
    ensures
        after_adds(start.insert(url), later).contains(url),
    decreases later.len(),
{
    if later.len() > 0 {
        lemma_added_stays(start, url, later.drop_last());
    }
}

} // verus!
