//! The shortening orchestrator. `ShortenFlow` is the per-request state
//! machine: the caller performs each store action it asks for and hands the
//! result back. `Shortener` runs the same flow against a `MappingStore`.
use vstd::prelude::*;
use crate::codec::{base62_of, decode, encode, is_valid_code, lemma_round_trip};
use crate::existence_cache::ExistenceCache;
use crate::id_generator::{GeneratorState, IdError, IdGenerator, MAX_TICK};
use crate::store::{
    code_for_url, insert_outcome, keys_unique, lemma_code_index_push, lemma_url_index_push,
    url_for_code, DuplicateKeyError, MappingRow, MappingStore,
};

verus! {

/// Why a URL could not be shortened.
#[derive(Debug, Clone, Copy, PartialEq, Eq, Structural)]
pub enum ShortenError {
    /// The clock went back; no identifier can be issued until it is corrected.
    ClockRegression,
    /// No identifier is left in this clock tick; retry on a later one.
    SequenceExhausted,
    /// The store already holds the freshly issued id or code: the generator
    /// is misconfigured.
    DuplicateKey,
}

/// Why a code could not be resolved.
#[derive(Debug, Clone, Copy, PartialEq, Eq, Structural)]
pub enum ResolveError {
    /// Not a short code at all.
    InvalidCode,
    /// No mapping has that code.
    NotFound,
}

pub open spec fn shorten_error_of(e: IdError) -> ShortenError {
    match e {
        IdError::ClockRegression => ShortenError::ClockRegression,
        IdError::SequenceExhausted => ShortenError::SequenceExhausted,
    }
}

fn shorten_error(e: IdError) -> (r: ShortenError)
    ensures
        r == shorten_error_of(e),
{
    match e {
        IdError::ClockRegression => ShortenError::ClockRegression,
        IdError::SequenceExhausted => ShortenError::SequenceExhausted,
    }
}

/// What the caller of a `ShortenFlow` does next.
#[derive(Debug)]
pub enum ShortenAction {
    /// Look the URL up by `find_code_by_url` and report with `on_lookup`.
    LookupByUrl,
    /// Insert `(id, code, url)` and report with `on_insert`.
    Insert { id: u64, code: String },
    /// Done: the short code of the URL.
    Reply(String),
    /// Done: the request failed.
    Fail(ShortenError),
}

/// Where a flow stands.
pub enum FlowPhase {
    AwaitLookup,
    AwaitInsert { id: u64, code: Seq<char> },
    Finished,
}

/// A flow as the contracts see it.
pub struct FlowView {
    pub url: Seq<char>,
    pub phase: FlowPhase,
}

/// The action that minting an identifier leads to, given the generator's outcome.
pub open spec fn mint_action_matches(res: Result<u64, IdError>, a: ShortenAction) -> bool {
    match res {
        Ok(id) => a matches ShortenAction::Insert { id: aid, code } && aid == id && code@ == base62_of(
            id as nat,
        ),
        Err(e) => a == ShortenAction::Fail(shorten_error_of(e)),
    }
}

/// The phase that minting leads to.
pub open spec fn mint_phase(res: Result<u64, IdError>) -> FlowPhase {
    match res {
        Ok(id) => FlowPhase::AwaitInsert { id, code: base62_of(id as nat) },
        Err(_) => FlowPhase::Finished,
    }
}

/// One shortening request in progress.
pub struct ShortenFlow {
    url: String,
    pending: Option<(u64, String)>,
    finished: bool,
}

impl View for ShortenFlow {
    type V = FlowView;

    closed spec fn view(&self) -> FlowView {
        FlowView {
            url: self.url@,
            phase: if self.finished {
                FlowPhase::Finished
            } else {
                match self.pending {
                    Some((id, code)) => FlowPhase::AwaitInsert { id, code: code@ },
                    None => FlowPhase::AwaitLookup,
                }
            },
        }
    }
}

impl ShortenFlow {
    /// Issues an identifier and asks for the insert of its code.
    fn mint(&mut self, generator: &mut IdGenerator, now: u64) -> (r: ShortenAction)
        requires
            old(generator)@.wf(),
            now <= MAX_TICK,
        ensures
            (final(generator)@, old(generator)@.next(now).1) == old(generator)@.next(now),
            final(generator)@.wf(),
            mint_action_matches(old(generator)@.next(now).1, r),
            final(self)@ == (FlowView { url: old(self)@.url, phase: mint_phase(old(generator)@.next(now).1) }),
    {
        match generator.next_id(now) {
            Ok(id) => {
                let code = encode(id);
                self.pending = Some((id, code.clone()));
                self.finished = false;
                ShortenAction::Insert { id, code }
            },
            Err(e) => {
                self.finished = true;
                ShortenAction::Fail(shorten_error(e))
            },
        }
    }

    /// Starts shortening `url` given the cache's answer for it: a URL the
    /// cache may hold is looked up first; one it surely lacks gets a fresh
    /// identifier at once.
    pub fn start_with(url: String, possibly_present: bool, generator: &mut IdGenerator, now: u64) -> (r: (ShortenFlow, ShortenAction))
        requires
            old(generator)@.wf(),
            now <= MAX_TICK,
        ensures
            final(generator)@.wf(),
            r.0@.url == url@,
            possibly_present ==> r.1 is LookupByUrl && final(generator)@ == old(generator)@
                && r.0@.phase is AwaitLookup,
            !possibly_present ==> final(generator)@ == old(generator)@.next(now).0
                && mint_action_matches(old(generator)@.next(now).1, r.1)
                && r.0@.phase == mint_phase(old(generator)@.next(now).1),
    {
        let mut flow = ShortenFlow { url, pending: None, finished: false };
        if possibly_present {
            (flow, ShortenAction::LookupByUrl)
        } else {
            let a = flow.mint(generator, now);
            (flow, a)
        }
    }

    /// Starts shortening `url`: asks the cache, then goes on as `start_with`
    /// does with its answer.
    pub fn start(url: String, cache: &ExistenceCache, generator: &mut IdGenerator, now: u64) -> (r: (ShortenFlow, ShortenAction))
        requires
            old(generator)@.wf(),
            now <= MAX_TICK,
        ensures
            final(generator)@.wf(),
            r.0@.url == url@,
            r.1 is LookupByUrl <==> cache.reports().contains(url@),
            cache@.contains(url@) ==> r.1 is LookupByUrl,
            r.1 is LookupByUrl ==> final(generator)@ == old(generator)@ && r.0@.phase is AwaitLookup,
            !(r.1 is LookupByUrl) ==> final(generator)@ == old(generator)@.next(now).0
                && mint_action_matches(old(generator)@.next(now).1, r.1)
                && r.0@.phase == mint_phase(old(generator)@.next(now).1),
    {
        let possibly_present = cache.might_contain(&url);
        ShortenFlow::start_with(url, possibly_present, generator, now)
    }

    /// Takes the result of the lookup by URL: a code found is the reply;
    /// otherwise (the cache answered a false positive) a fresh identifier.
    pub fn on_lookup(&mut self, found: Option<String>, generator: &mut IdGenerator, now: u64) -> (r: ShortenAction)
        requires
            old(self)@.phase is AwaitLookup,
            old(generator)@.wf(),
            now <= MAX_TICK,
        ensures
            final(generator)@.wf(),
            final(self)@.url == old(self)@.url,
            found matches Some(c) ==> r == ShortenAction::Reply(c) && final(generator)@ == old(generator)@
                && final(self)@.phase is Finished,
            found is None ==> final(generator)@ == old(generator)@.next(now).0
                && mint_action_matches(old(generator)@.next(now).1, r)
                && final(self)@.phase == mint_phase(old(generator)@.next(now).1),
    {
        match found {
            Some(code) => {
                self.finished = true;
                ShortenAction::Reply(code)
            },
            None => self.mint(generator, now),
        }
    }

    /// Takes the result of the insert: on success the URL is added to the
    /// cache and its new code is the reply; a duplicate key is a failure,
    /// never retried with another identifier.
    pub fn on_insert(&mut self, result: Result<(), DuplicateKeyError>, cache: &mut ExistenceCache) -> (r: ShortenAction)
        requires
            old(self)@.phase is AwaitInsert,
        ensures
            final(self)@ == (FlowView { url: old(self)@.url, phase: FlowPhase::Finished }),
            old(self)@.phase matches FlowPhase::AwaitInsert { code, .. } && (result is Ok ==> (r matches ShortenAction::Reply(c) && c@ == code)),
            result is Ok ==> final(cache)@ == old(cache)@.insert(old(self)@.url)
                && old(cache).reports().insert(old(self)@.url).subset_of(final(cache).reports()),
            result is Err ==> r == ShortenAction::Fail(ShortenError::DuplicateKey) && *final(cache) == *old(cache),
    {
        self.finished = true;
        match result {
            Ok(()) => {
                cache.add(&self.url);
                match &self.pending {
                    Some((_, code)) => ShortenAction::Reply(code.clone()),
                    None => ShortenAction::Fail(ShortenError::DuplicateKey),
                }
            },
            Err(_) => ShortenAction::Fail(ShortenError::DuplicateKey),
        }
    }
}

/// What one `shorten` call does to the rows and the generator, and what it
/// returns: the code of the first row for the URL if there is one, otherwise
/// the code of a freshly issued identifier, inserted as a new row.
pub open spec fn shorten_outcome(rows: Seq<MappingRow>, g: GeneratorState, now: u64, url: Seq<char>) -> (Seq<MappingRow>, GeneratorState, Result<Seq<char>, ShortenError>) {
    match code_for_url(rows, url) {
        Some(c) => (rows, g, Ok(c)),
        None => match g.next(now).1 {
            Err(e) => (rows, g.next(now).0, Err(shorten_error_of(e))),
            Ok(id) => {
                let row = MappingRow { id, code: base62_of(id as nat), url };
                match insert_outcome(rows, row).1 {
                    Ok(_) => (rows.push(row), g.next(now).0, Ok(row.code)),
                    Err(_) => (rows, g.next(now).0, Err(ShortenError::DuplicateKey)),
                }
            },
        },
    }
}

/// What `resolve` returns.
pub open spec fn resolve_outcome(rows: Seq<MappingRow>, code: Seq<char>) -> Result<Seq<char>, ResolveError> {
    if !is_valid_code(code) {
        Err(ResolveError::InvalidCode)
    } else {
        match url_for_code(rows, code) {
            Some(u) => Ok(u),
            None => Err(ResolveError::NotFound),
        }
    }
}

pub open spec fn result_view<E>(r: Result<String, E>) -> Result<Seq<char>, E> {
    match r {
        Ok(s) => Ok(s@),
        Err(e) => Err(e),
    }
}

/// A shortener as the contracts see it.
pub struct ShortenerView {
    pub rows: Seq<MappingRow>,
    /// The URLs added to the cache.
    pub cache: Set<Seq<char>>,
    /// The URLs the cache reports as possibly present.
    pub reported: Set<Seq<char>>,
    pub generator: GeneratorState,
}

impl ShortenerView {
    /// The rows have unique ids and codes, each code encodes its row's id,
    /// every stored URL is in the cache, the generator is well formed and has
    /// issued every stored id.
    pub open spec fn wf(self) -> bool {
        &&& keys_unique(self.rows)
        &&& forall|i: int| 0 <= i < self.rows.len() ==> #[trigger] self.rows[i].id <= self.generator.last_id()
        &&& forall|i: int| 0 <= i < self.rows.len() ==> #[trigger] self.rows[i].code == base62_of(self.rows[i].id as nat)
        &&& forall|i: int| 0 <= i < self.rows.len() ==> self.cache.contains(#[trigger] self.rows[i].url)
        &&& self.generator.wf()
    }
}

/// The shortening service over an in-memory store: one generator, one cache
/// and one store, used by one caller at a time.
pub struct Shortener {
    store: MappingStore,
    cache: ExistenceCache,
    generator: IdGenerator,
}

impl View for Shortener {
    type V = ShortenerView;

    closed spec fn view(&self) -> ShortenerView {
        ShortenerView { rows: self.store@, cache: self.cache@, reported: self.cache.reports(), generator: self.generator@ }
    }
}

impl Shortener {
    pub open spec fn wf(&self) -> bool {
        self@.wf()
    }

    /// A shortener with an empty store, the given cache and a fresh
    /// generator for `machine_id`.
    pub fn new(machine_id: u16, cache: ExistenceCache) -> (r: Shortener)
        ensures
            r.wf(),
            r@.cache == cache@,
            r@.reported == cache.reports(),
            r@.rows == Seq::<MappingRow>::empty(),
            r@.generator == (GeneratorState { machine_id, last_timestamp: 0, sequence: 0 }),
    {
        Shortener { store: MappingStore::new(), cache, generator: IdGenerator::new(machine_id) }
    }

    /// Returns the code of `url`: the existing one if the store has a row for
    /// it, otherwise a new one, persisted and added to the cache.
    pub fn shorten(&mut self, url: String, now: u64) -> (r: Result<String, ShortenError>)
        requires
            old(self).wf(),
            now <= MAX_TICK,
        ensures
            final(self).wf(),
            (final(self)@.rows, final(self)@.generator, result_view(r)) == shorten_outcome(
                old(self)@.rows,
                old(self)@.generator,
                now,
                url@,
            ),
            r is Ok ==> final(self)@.cache == old(self)@.cache.insert(url@),
            r is Err ==> final(self)@.cache == old(self)@.cache,
            old(self)@.reported.subset_of(final(self)@.reported),
            r is Ok ==> final(self)@.reported.contains(url@),
            !(r matches Err(ShortenError::DuplicateKey)),
    {
        let ghost before = self@;
        proof {
            lemma_not_cached_not_stored(before, url@);
            lemma_no_duplicate_key(before, url@, now);
        }
        let (mut flow, mut action) = ShortenFlow::start(url.clone(), &self.cache, &mut self.generator, now);
        if let ShortenAction::LookupByUrl = action {
            let found = self.store.find_code_by_url(&url);
            action = flow.on_lookup(found, &mut self.generator, now);
        }
        match action {
            ShortenAction::Insert { id, code } => {
                let ghost c = code@;
                let res = self.store.insert(id, code, url);
                let a = flow.on_insert(res, &mut self.cache);
                proof {
                    let row = MappingRow { id, code: c, url: url@ };
                    if res is Ok {
                        lemma_round_trip(id);
                        crate::id_generator::lemma_next_advances(before.generator, now);
                        assert forall|i: int| 0 <= i < self@.rows.len() implies #[trigger] self@.rows[i].id
                            <= self@.generator.last_id() by {
                            if i < before.rows.len() {
                                assert(self@.rows[i] == before.rows[i]);
                            }
                        }
                        assert(self@.rows == before.rows.push(row));
                        assert forall|i: int| 0 <= i < self@.rows.len() implies self@.cache.contains(
                            #[trigger] self@.rows[i].url,
                        ) by {
                            if i < before.rows.len() {
                                assert(self@.rows[i] == before.rows[i]);
                            }
                        }
                        assert forall|i: int| 0 <= i < self@.rows.len() implies #[trigger] self@.rows[i].code
                            == base62_of(self@.rows[i].id as nat) by {
                            if i < before.rows.len() {
                                assert(self@.rows[i] == before.rows[i]);
                            }
                        }
                    }
                }
                proof {
                    if res is Err {
                        crate::id_generator::lemma_next_advances(before.generator, now);
                    }
                }
                match a {
                    ShortenAction::Reply(c) => Ok(c),
                    _ => Err(ShortenError::DuplicateKey),
                }
            },
            ShortenAction::Reply(c) => {
                proof {
                    lemma_stored_url_cached(before, url@);
                }
                Ok(c)
            },
            ShortenAction::Fail(e) => Err(e),
            // `on_lookup` never asks for a second lookup
            ShortenAction::LookupByUrl => Err(ShortenError::DuplicateKey),
        }
    }

    /// The original URL of `code`: `InvalidCode` for a string that is no
    /// short code, `NotFound` when no mapping has it.
    pub fn resolve(&self, code: &String) -> (r: Result<String, ResolveError>)
        ensures
            result_view(r) == resolve_outcome(self@.rows, code@),
    {
        match decode(code.as_str()) {
            Err(_) => Err(ResolveError::InvalidCode),
            Ok(_) => match self.store.find_url_by_code(code) {
                Some(u) => Ok(u),
                None => Err(ResolveError::NotFound),
            },
        }
    }
}

proof fn lemma_not_cached_not_stored(v: ShortenerView, url: Seq<char>)
    requires
        v.wf(),
    ensures
        !v.cache.contains(url) ==> code_for_url(v.rows, url) is None,
{
    crate::store::lemma_url_index_some(v.rows, url, 0);
}

proof fn lemma_stored_url_cached(v: ShortenerView, url: Seq<char>)
    requires
        v.wf(),
    ensures
        code_for_url(v.rows, url) is Some ==> v.cache.contains(url),
{
    crate::store::lemma_url_index_some(v.rows, url, 0);
}

/// Sequential shortening is idempotent: once `shorten(url)` has returned a
/// code, the next call for the same URL returns that same code and changes
/// neither the rows nor the generator.
pub proof fn lemma_shorten_idempotent(v: ShortenerView, url: Seq<char>, now1: u64, now2: u64)
    requires
        v.wf(),
        shorten_outcome(v.rows, v.generator, now1, url).2 is Ok,
    ensures
        ({
            let (rows1, g1, r1) = shorten_outcome(v.rows, v.generator, now1, url);
            shorten_outcome(rows1, g1, now2, url) == (rows1, g1, r1)
        }),
{
    let (rows1, g1, r1) = shorten_outcome(v.rows, v.generator, now1, url);
    if code_for_url(v.rows, url) is None {
        let id = v.generator.next(now1).1->Ok_0;
        let row = MappingRow { id, code: base62_of(id as nat), url };
        lemma_url_index_push(v.rows, row, url, 0);
        assert(rows1 == v.rows.push(row));
        assert(rows1[v.rows.len() as int] == row);
    }
}

/// The code that a successful `shorten(url)` returns resolves to `url`.
pub proof fn lemma_shortened_code_resolves(v: ShortenerView, url: Seq<char>, now: u64)
    requires
        v.wf(),
        shorten_outcome(v.rows, v.generator, now, url).2 is Ok,
    ensures
        ({
            let (rows1, g1, r1) = shorten_outcome(v.rows, v.generator, now, url);
            resolve_outcome(rows1, r1->Ok_0) == Ok::<Seq<char>, ResolveError>(url)
        }),
{
    let (rows1, g1, r1) = shorten_outcome(v.rows, v.generator, now, url);
    let c = r1->Ok_0;
    crate::store::lemma_url_index_some(v.rows, url, 0);
    match code_for_url(v.rows, url) {
        Some(_) => {
            let k = crate::store::url_index_from(v.rows, url, 0)->Some_0;
            assert(v.rows[k].code == base62_of(v.rows[k].id as nat));
            lemma_round_trip(v.rows[k].id);
            lemma_code_index_unique(v.rows, c, k);
        },
        None => {
            let id = v.generator.next(now).1->Ok_0;
            let row = MappingRow { id, code: base62_of(id as nat), url };
            lemma_round_trip(id);
            assert(rows1 == v.rows.push(row));
            lemma_code_index_push(v.rows, row, c, 0);
            crate::store::lemma_code_index_some(v.rows, c, 0);
            assert(!crate::store::has_code(v.rows, c));
            assert(rows1[v.rows.len() as int] == row);
        },
    }
}

proof fn lemma_code_index_unique(rows: Seq<MappingRow>, code: Seq<char>, k: int)
    requires
        keys_unique(rows),
        0 <= k < rows.len(),
        rows[k].code == code,
    ensures
        crate::store::code_index_from(rows, code, 0) == Some(k),
{
    crate::store::lemma_code_index_some(rows, code, 0);
    crate::store::lemma_code_index_some(rows, code, k);
    lemma_code_index_skip(rows, code, 0, k);
}

proof fn lemma_code_index_skip(rows: Seq<MappingRow>, code: Seq<char>, i: int, k: int)
    requires
        keys_unique(rows),
        0 <= i <= k < rows.len(),
        rows[k].code == code,
    ensures
        crate::store::code_index_from(rows, code, i) == Some(k),
    decreases k - i,
{
    if i < k {
        assert(rows[i].code != rows[k].code);
        lemma_code_index_skip(rows, code, i + 1, k);
    }
}

/// With every stored id issued by the shortener's own generator, a freshly
/// issued identifier collides with no row: `shorten` never fails with
/// `DuplicateKey`.
pub proof fn lemma_no_duplicate_key(v: ShortenerView, url: Seq<char>, now: u64)
    requires
        v.wf(),
        now <= MAX_TICK,
    ensures
        shorten_outcome(v.rows, v.generator, now, url).2 != Err::<Seq<char>, ShortenError>(ShortenError::DuplicateKey),
{
    if code_for_url(v.rows, url) is None && v.generator.next(now).1 is Ok {
        let id = v.generator.next(now).1->Ok_0;
        crate::id_generator::lemma_next_advances(v.generator, now);
        assert forall|i: int| 0 <= i < v.rows.len() implies #[trigger] v.rows[i].id != id
            && v.rows[i].code != base62_of(id as nat) by {
            assert(v.rows[i].id <= v.generator.last_id());
            crate::codec::lemma_encoding_injective(v.rows[i].id, id);
        }
        assert(!crate::store::has_id(v.rows, id));
        assert(!crate::store::has_code(v.rows, base62_of(id as nat)));
    }
}

/// The rows and the generator after running `shorten` on each `(now, url)`
/// of `calls` in turn.
pub open spec fn run_shortens(rows: Seq<MappingRow>, g: GeneratorState, calls: Seq<(u64, Seq<char>)>) -> (Seq<MappingRow>, GeneratorState)
    decreases calls.len(),
{
    if calls.len() == 0 {
        (rows, g)
    } else {
        let (r1, g1) = run_shortens(rows, g, calls.drop_last());
        let o = shorten_outcome(r1, g1, calls.last().0, calls.last().1);
        (o.0, o.1)
    }
}

/// A URL that has a row keeps the code of its first row through any
/// `shorten` call.
pub proof fn lemma_shorten_keeps_code(rows: Seq<MappingRow>, g: GeneratorState, now: u64, other: Seq<char>, url: Seq<char>)
    requires
        code_for_url(rows, url) is Some,
    ensures
        code_for_url(shorten_outcome(rows, g, now, other).0, url) == code_for_url(rows, url),
{
    if code_for_url(rows, other) is None && g.next(now).1 is Ok {
        let id = g.next(now).1->Ok_0;
        let row = MappingRow { id, code: base62_of(id as nat), url: other };
        lemma_url_index_push(rows, row, url, 0);
        crate::store::lemma_url_index_some(rows, url, 0);
        if insert_outcome(rows, row).1 is Ok {
            let k = crate::store::url_index_from(rows, url, 0)->Some_0;
            assert(rows.push(row)[k] == rows[k]);
        }
    }
}

/// Sequential shortening is idempotent: once `shorten(url)` has returned a
/// code, every later `shorten(url)` returns that code and changes neither
/// the rows nor the generator, whatever other calls ran in between.
pub proof fn lemma_shorten_idempotent_after(
    v: ShortenerView,
    url: Seq<char>,
    now1: u64,
    between: Seq<(u64, Seq<char>)>,
    now2: u64,
)
    requires
        v.wf(),
        shorten_outcome(v.rows, v.generator, now1, url).2 is Ok,
    ensures
        ({
            let (rows1, g1, r1) = shorten_outcome(v.rows, v.generator, now1, url);
            let (rows2, g2) = run_shortens(rows1, g1, between);
            shorten_outcome(rows2, g2, now2, url) == (rows2, g2, r1)
        }),
{
    let (rows1, g1, r1) = shorten_outcome(v.rows, v.generator, now1, url);
    lemma_shorten_idempotent(v, url, now1, now1);
    lemma_run_keeps_code(rows1, g1, between, url);
}

proof fn lemma_run_keeps_code(rows: Seq<MappingRow>, g: GeneratorState, calls: Seq<(u64, Seq<char>)>, url: Seq<char>)
    requires
        code_for_url(rows, url) is Some,
    ensures
        code_for_url(run_shortens(rows, g, calls).0, url) == code_for_url(rows, url),
    decreases calls.len(),
{
    if calls.len() > 0 {
        lemma_run_keeps_code(rows, g, calls.drop_last(), url);
        let (r1, g1) = run_shortens(rows, g, calls.drop_last());
        lemma_shorten_keeps_code(r1, g1, calls.last().0, calls.last().1, url);
    }
}

/// Two first-time requests for the same URL that run concurrently: each
/// misses the cache and mints its own identifier from the shared generator
/// (at `now1`, then `now2`), and the two inserts reach the store in either
/// order. Both inserts succeed, the codes differ, and both resolve to `url`.
pub proof fn lemma_concurrent_first_shortens(v: ShortenerView, url: Seq<char>, now1: u64, now2: u64, second_inserts_first: bool)
    requires
        v.wf(),
        now1 <= MAX_TICK,
        now2 <= MAX_TICK,
        code_for_url(v.rows, url) is None,
        v.generator.next(now1).1 is Ok,
        v.generator.next(now1).0.next(now2).1 is Ok,
    ensures
        ({
            let id1 = v.generator.next(now1).1->Ok_0;
            let id2 = v.generator.next(now1).0.next(now2).1->Ok_0;
            let row1 = MappingRow { id: id1, code: base62_of(id1 as nat), url };
            let row2 = MappingRow { id: id2, code: base62_of(id2 as nat), url };
            let (a, b) = if second_inserts_first { (row2, row1) } else { (row1, row2) };
            let after_a = insert_outcome(v.rows, a);
            let after_b = insert_outcome(after_a.0, b);
            &&& after_a.1 is Ok
            &&& after_b.1 is Ok
            &&& row1.code != row2.code
            &&& keys_unique(after_b.0)
            &&& resolve_outcome(after_b.0, row1.code) == Ok::<Seq<char>, ResolveError>(url)
            &&& resolve_outcome(after_b.0, row2.code) == Ok::<Seq<char>, ResolveError>(url)
        }),
{
    let g1 = v.generator.next(now1).0;
    let id1 = v.generator.next(now1).1->Ok_0;
    let id2 = g1.next(now2).1->Ok_0;
    crate::id_generator::lemma_next_advances(v.generator, now1);
    crate::id_generator::lemma_next_advances(g1, now2);
    let row1 = MappingRow { id: id1, code: base62_of(id1 as nat), url };
    let row2 = MappingRow { id: id2, code: base62_of(id2 as nat), url };
    crate::codec::lemma_encoding_injective(id1, id2);
    lemma_round_trip(id1);
    lemma_round_trip(id2);
    let (a, b) = if second_inserts_first { (row2, row1) } else { (row1, row2) };
    assert forall|i: int| 0 <= i < v.rows.len() implies #[trigger] v.rows[i].id != a.id
        && v.rows[i].code != a.code && v.rows[i].id != b.id && v.rows[i].code != b.code by {
        crate::codec::lemma_encoding_injective(v.rows[i].id, id1);
        crate::codec::lemma_encoding_injective(v.rows[i].id, id2);
    }
    assert(!crate::store::has_id(v.rows, a.id));
    assert(!crate::store::has_code(v.rows, a.code));
    let rows_a = v.rows.push(a);
    crate::store::lemma_insert_keeps_keys_unique(v.rows, a);
    assert forall|i: int| 0 <= i < rows_a.len() implies #[trigger] rows_a[i].id != b.id
        && rows_a[i].code != b.code by {
        if i < v.rows.len() {
            assert(rows_a[i] == v.rows[i]);
        }
    }
    assert(!crate::store::has_id(rows_a, b.id));
    assert(!crate::store::has_code(rows_a, b.code));
    let rows_b = rows_a.push(b);
    crate::store::lemma_insert_keeps_keys_unique(rows_a, b);
    let n = v.rows.len() as int;
    assert(rows_b[n] == a);
    assert(rows_b[n + 1] == b);
    lemma_code_index_unique(rows_b, a.code, n);
    lemma_code_index_unique(rows_b, b.code, n + 1);
}

} // verus!
