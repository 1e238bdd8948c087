//! The mapping store gateway: lookups by original URL and by code, and an
//! insert that refuses a second row with the same id or the same code.
use vstd::prelude::*;

verus! {

/// One stored mapping, as the contracts see it.
pub struct MappingRow {
    pub id: u64,
    pub code: Seq<char>,
    pub url: Seq<char>,
}

/// One stored mapping from a short code to an original URL.
#[derive(Debug, Clone)]
pub struct UrlMapping {
    pub id: u64,
    pub code: String,
    pub original_url: String,
}

impl View for UrlMapping {
    type V = MappingRow;

    open spec fn view(&self) -> MappingRow {
        MappingRow { id: self.id, code: self.code@, url: self.original_url@ }
    }
}

/// The insert was refused: a row with that id or that code already exists.
#[derive(Debug, Clone, Copy, PartialEq, Eq, Structural)]
pub enum DuplicateKeyError {
    DuplicateKey,
}

/// The first row at or after `i` whose original URL is `url`.
pub open spec fn url_index_from(rows: Seq<MappingRow>, url: Seq<char>, i: int) -> Option<int>
    decreases rows.len() - i,
{
    if i < 0 || i >= rows.len() {
        None
    } else if rows[i].url == url {
        Some(i)
    } else {
        url_index_from(rows, url, i + 1)
    }
}

/// The first row at or after `i` whose code is `code`.
pub open spec fn code_index_from(rows: Seq<MappingRow>, code: Seq<char>, i: int) -> Option<int>
    decreases rows.len() - i,
{
    if i < 0 || i >= rows.len() {
        None
    } else if rows[i].code == code {
        Some(i)
    } else {
        code_index_from(rows, code, i + 1)
    }
}

/// The code of the first row for `url`, if any.
pub open spec fn code_for_url(rows: Seq<MappingRow>, url: Seq<char>) -> Option<Seq<char>> {
    match url_index_from(rows, url, 0) {
        Some(i) => Some(rows[i].code),
        None => None,
    }
}

/// The original URL of the row with `code`, if any.
pub open spec fn url_for_code(rows: Seq<MappingRow>, code: Seq<char>) -> Option<Seq<char>> {
    match code_index_from(rows, code, 0) {
        Some(i) => Some(rows[i].url),
        None => None,
    }
}

pub open spec fn has_id(rows: Seq<MappingRow>, id: u64) -> bool {
    exists|i: int| 0 <= i < rows.len() && #[trigger] rows[i].id == id
}

pub open spec fn has_code(rows: Seq<MappingRow>, code: Seq<char>) -> bool {
    exists|i: int| 0 <= i < rows.len() && #[trigger] rows[i].code == code
}

/// No two rows share an id or a code.
pub open spec fn keys_unique(rows: Seq<MappingRow>) -> bool {
    forall|i: int, j: int|
        0 <= i < rows.len() && 0 <= j < rows.len() && i != j ==> rows[i].id != rows[j].id
            && rows[i].code != rows[j].code
}

/// What `insert` does to the rows, and what it returns.
pub open spec fn insert_outcome(rows: Seq<MappingRow>, row: MappingRow) -> (Seq<MappingRow>, Result<(), DuplicateKeyError>) {
    if has_id(rows, row.id) || has_code(rows, row.code) {
        (rows, Err(DuplicateKeyError::DuplicateKey))
    } else {
        (rows.push(row), Ok(()))
    }
}

/// The rows of the durable mapping, in the order they were inserted.
pub struct MappingStore {
    rows: Vec<UrlMapping>,
}

impl View for MappingStore {
    type V = Seq<MappingRow>;

    closed spec fn view(&self) -> Seq<MappingRow> {
        self.rows@.map_values(|m: UrlMapping| m@)
    }
}

pub proof fn lemma_url_index_some(rows: Seq<MappingRow>, url: Seq<char>, i: int)
    requires
        0 <= i,
    ensures
        url_index_from(rows, url, i) matches Some(k) ==> i <= k < rows.len() && rows[k].url == url,
        url_index_from(rows, url, i) is None ==> forall|k: int| i <= k < rows.len() ==> #[trigger] rows[k].url != url,
    decreases rows.len() - i,
{
    if i < rows.len() {
        lemma_url_index_some(rows, url, i + 1);
    }
}

pub proof fn lemma_code_index_some(rows: Seq<MappingRow>, code: Seq<char>, i: int)
    requires
        0 <= i,
    ensures
        code_index_from(rows, code, i) matches Some(k) ==> i <= k < rows.len() && rows[k].code == code,
        code_index_from(rows, code, i) is None ==> forall|k: int| i <= k < rows.len() ==> #[trigger] rows[k].code != code,
    decreases rows.len() - i,
{
    if i < rows.len() {
        lemma_code_index_some(rows, code, i + 1);
    }
}

/// Appending a row leaves the lookup of every URL that already had a row as
/// it was; a URL without a row finds the new one when it matches.
pub proof fn lemma_url_index_push(rows: Seq<MappingRow>, row: MappingRow, url: Seq<char>, i: int)
    requires
        0 <= i <= rows.len(),
    ensures
        url_index_from(rows.push(row), url, i) == (match url_index_from(rows, url, i) {
            Some(k) => Some(k),
            None => if row.url == url { Some(rows.len() as int) } else { None },
        }),
    decreases rows.len() - i,
{
    if i < rows.len() {
        assert(rows.push(row)[i] == rows[i]);
        lemma_url_index_push(rows, row, url, i + 1);
    } else {
        assert(rows.push(row)[i] == row);
        assert(url_index_from(rows.push(row), url, i + 1) is None);
    }
}

/// The same for lookups by code.
pub proof fn lemma_code_index_push(rows: Seq<MappingRow>, row: MappingRow, code: Seq<char>, i: int)
    requires
        0 <= i <= rows.len(),
    ensures
        code_index_from(rows.push(row), code, i) == (match code_index_from(rows, code, i) {
            Some(k) => Some(k),
            None => if row.code == code { Some(rows.len() as int) } else { None },
        }),
    decreases rows.len() - i,
{
    if i < rows.len() {
        assert(rows.push(row)[i] == rows[i]);
        lemma_code_index_push(rows, row, code, i + 1);
    } else {
        assert(rows.push(row)[i] == row);
        assert(code_index_from(rows.push(row), code, i + 1) is None);
    }
}

impl MappingStore {
    pub open spec fn wf(&self) -> bool {
        keys_unique(self@)
    }

    /// An empty store.
    pub fn new() -> (r: MappingStore)
        ensures
            r@ == Seq::<MappingRow>::empty(),
            r.wf(),
    {
        let r = MappingStore { rows: Vec::new() };
        assert(r@ =~= Seq::<MappingRow>::empty());
        r
    }

    /// The number of rows.
    pub fn len(&self) -> (r: usize)
        ensures
            r == self@.len(),
    {
        self.rows.len()
    }

    /// The code of the first row whose original URL is `url`.
    pub fn find_code_by_url(&self, url: &String) -> (r: Option<String>)
        ensures
            r matches Some(c) ==> code_for_url(self@, url@) == Some(c@),
            r is None ==> code_for_url(self@, url@) is None,
    {
        let mut i: usize = 0;
        while i < self.rows.len()
            invariant
                0 <= i <= self.rows.len(),
                self@.len() == self.rows.len(),
                url_index_from(self@, url@, 0) == url_index_from(self@, url@, i as int),
            decreases self.rows.len() - i,
        {
            assert(self@[i as int] == self.rows[i as int]@);
            if self.rows[i].original_url == *url {
                return Some(self.rows[i].code.clone());
            }
            i = i + 1;
        }
        None
    }

    /// The original URL of the row whose code is `code`.
    pub fn find_url_by_code(&self, code: &String) -> (r: Option<String>)
        ensures
            r matches Some(u) ==> url_for_code(self@, code@) == Some(u@),
            r is None ==> url_for_code(self@, code@) is None,
    {
        let mut i: usize = 0;
        while i < self.rows.len()
            invariant
                0 <= i <= self.rows.len(),
                self@.len() == self.rows.len(),
                code_index_from(self@, code@, 0) == code_index_from(self@, code@, i as int),
            decreases self.rows.len() - i,
        {
            assert(self@[i as int] == self.rows[i as int]@);
            if self.rows[i].code == *code {
                return Some(self.rows[i].original_url.clone());
            }
            i = i + 1;
        }
        None
    }

    /// Every original URL, in row order (to rebuild the existence cache).
    pub fn original_urls(&self) -> (r: Vec<String>)
        ensures
            r@.len() == self@.len(),
            forall|i: int| 0 <= i < r@.len() ==> #[trigger] r@[i]@ == self@[i].url,
    {
        let mut r: Vec<String> = Vec::new();
        let mut i: usize = 0;
        while i < self.rows.len()
            invariant
                0 <= i <= self.rows.len(),
                self@.len() == self.rows.len(),
                r@.len() == i,
                forall|k: int| 0 <= k < i ==> #[trigger] r@[k]@ == self@[k].url,
            decreases self.rows.len() - i,
        {
            assert(self@[i as int] == self.rows[i as int]@);
            r.push(self.rows[i].original_url.clone());
            i = i + 1;
        }
        r
    }

    /// Adds the row `(id, code, url)` unless a row with that id or that code
    /// exists, in which case nothing changes.
    pub fn insert(&mut self, id: u64, code: String, url: String) -> (r: Result<(), DuplicateKeyError>)
        requires
            old(self).wf(),
        ensures
            (final(self)@, r) == insert_outcome(old(self)@, MappingRow { id, code: code@, url: url@ }),
            final(self).wf(),
    {
        let mut i: usize = 0;
        while i < self.rows.len()
            invariant
                0 <= i <= self.rows.len(),
                self@.len() == self.rows.len(),
                self@ == old(self)@,
                keys_unique(self@),
                forall|k: int| #![trigger self@[k]] 0 <= k < i ==> self@[k].id != id && self@[k].code != code@,
            decreases self.rows.len() - i,
        {
            assert(self@[i as int] == self.rows[i as int]@);
            if self.rows[i].id == id || self.rows[i].code == code {
                assert(self@[i as int].id == id || self@[i as int].code == code@);
                return Err(DuplicateKeyError::DuplicateKey);
            }
            i = i + 1;
        }
        let ghost before = self@;
        let row = UrlMapping { id, code, original_url: url };
        self.rows.push(row);
        proof {
            assert(self@ =~= before.push(row@));
            assert(!has_id(before, id));
            assert(!has_code(before, code@));
        }
        Ok(())
    }
}

/// Collision backstop: once a row holds `code`, inserting a different id
/// with the same code is refused and the rows stay as they were.
pub proof fn lemma_code_collision_refused(
    rows: Seq<MappingRow>,
    id1: u64,
    id2: u64,
    code: Seq<char>,
    url1: Seq<char>,
    url2: Seq<char>,
)
    requires
        insert_outcome(rows, MappingRow { id: id1, code, url: url1 }).1 is Ok,
        id1 != id2,
    ensures
        ({
            let after = insert_outcome(rows, MappingRow { id: id1, code, url: url1 }).0;
            insert_outcome(after, MappingRow { id: id2, code, url: url2 }) == (after, Err::<(), DuplicateKeyError>(DuplicateKeyError::DuplicateKey))
        }),
{
    let after = insert_outcome(rows, MappingRow { id: id1, code, url: url1 }).0;
    assert(after[rows.len() as int].code == code);
}

/// A successful insert keeps ids and codes unique.
pub proof fn lemma_insert_keeps_keys_unique(rows: Seq<MappingRow>, row: MappingRow)
    requires
        keys_unique(rows),
        insert_outcome(rows, row).1 is Ok,
    ensures
        keys_unique(insert_outcome(rows, row).0),
{
    let after = rows.push(row);
    assert forall|i: int, j: int|
        0 <= i < after.len() && 0 <= j < after.len() && i != j implies after[i].id != after[j].id
            && after[i].code != after[j].code by {
        if i < rows.len() && j < rows.len() {
            assert(after[i] == rows[i] && after[j] == rows[j]);
        } else if i < rows.len() {
            assert(after[i] == rows[i]);
        } else {
            assert(after[j] == rows[j]);
        }
    }
}

} // verus!
