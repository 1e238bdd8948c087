use shorten_url::existence_cache::ExistenceCache;
use shorten_url::id_generator::IdGenerator;
use shorten_url::orchestrator::{ResolveError, ShortenAction, ShortenError, ShortenFlow, Shortener};
use shorten_url::store::MappingStore;

fn empty_shortener(machine_id: u16) -> Shortener {
    Shortener::new(machine_id, ExistenceCache::new(1024, 100).unwrap())
}

#[test]
fn example_com_gets_code_one_on_empty_store() {
    let mut s = empty_shortener(0);
    let url = String::from("http://example.com");
    assert_eq!(s.shorten(url.clone(), 0), Ok(String::from("1")));
    assert_eq!(s.shorten(url.clone(), 0), Ok(String::from("1")));
    assert_eq!(s.resolve(&String::from("1")), Ok(url));
    assert_eq!(s.resolve(&String::from("zz")), Err(ResolveError::NotFound));
}

#[test]
fn resolve_on_empty_store_is_not_found() {
    let s = empty_shortener(0);
    assert_eq!(s.resolve(&String::from("zz")), Err(ResolveError::NotFound));
}

#[test]
fn resolve_rejects_invalid_code() {
    let s = empty_shortener(0);
    assert_eq!(s.resolve(&String::from("no-such")), Err(ResolveError::InvalidCode));
    assert_eq!(s.resolve(&String::new()), Err(ResolveError::InvalidCode));
}

#[test]
fn repeated_shortening_returns_first_code() {
    let mut s = empty_shortener(9);
    let url = String::from("http://repeat.example/path");
    let first = s.shorten(url.clone(), 100).unwrap();
    for t in 101..110u64 {
        s.shorten(format!("http://other.example/{}", t), t).unwrap();
        assert_eq!(s.shorten(url.clone(), t), Ok(first.clone()));
    }
    assert_eq!(s.resolve(&first), Ok(url));
}

#[test]
fn different_urls_get_different_codes() {
    let mut s = empty_shortener(1);
    let a = s.shorten(String::from("http://a.example"), 5).unwrap();
    let b = s.shorten(String::from("http://b.example"), 5).unwrap();
    assert_ne!(a, b);
    assert_eq!(s.resolve(&a), Ok(String::from("http://a.example")));
    assert_eq!(s.resolve(&b), Ok(String::from("http://b.example")));
}

#[test]
fn clock_regression_surfaces_from_shorten() {
    let mut s = empty_shortener(1);
    s.shorten(String::from("http://a.example"), 1000).unwrap();
    assert_eq!(s.shorten(String::from("http://b.example"), 10), Err(ShortenError::ClockRegression));
    assert_eq!(s.resolve(&String::from("zz")), Err(ResolveError::NotFound));
}

#[test]
fn sequence_exhaustion_surfaces_from_shorten() {
    let mut s = empty_shortener(1);
    for i in 0..256 {
        s.shorten(format!("http://n.example/{}", i), 7).unwrap();
    }
    assert_eq!(s.shorten(String::from("http://late.example"), 7), Err(ShortenError::SequenceExhausted));
    assert!(s.shorten(String::from("http://late.example"), 8).is_ok());
}

fn insert_of(a: ShortenAction) -> (u64, String) {
    match a {
        ShortenAction::Insert { id, code } => (id, code),
        other => panic!("expected an insert, got {:?}", other),
    }
}

fn reply_of(a: ShortenAction) -> String {
    match a {
        ShortenAction::Reply(c) => c,
        other => panic!("expected a reply, got {:?}", other),
    }
}

#[test]
fn concurrent_first_time_requests_both_resolve() {
    let mut cache = ExistenceCache::new(1024, 100).unwrap();
    let mut g = IdGenerator::new(4);
    let mut store = MappingStore::new();
    let url = String::from("http://race.example");

    let (mut f1, a1) = ShortenFlow::start(url.clone(), &cache, &mut g, 20);
    let (mut f2, a2) = ShortenFlow::start(url.clone(), &cache, &mut g, 20);
    let (id1, c1) = insert_of(a1);
    let (id2, c2) = insert_of(a2);
    assert_ne!(c1, c2);

    let r1 = store.insert(id1, c1.clone(), url.clone());
    let r2 = store.insert(id2, c2.clone(), url.clone());
    assert_eq!(reply_of(f1.on_insert(r1, &mut cache)), c1);
    assert_eq!(reply_of(f2.on_insert(r2, &mut cache)), c2);

    assert_eq!(store.find_url_by_code(&c1), Some(url.clone()));
    assert_eq!(store.find_url_by_code(&c2), Some(url.clone()));
    assert!(cache.might_contain(&url));
}

#[test]
fn flow_looks_up_a_cached_url() {
    let mut cache = ExistenceCache::new(1024, 100).unwrap();
    let mut g = IdGenerator::new(4);
    let url = String::from("http://known.example");
    cache.add(&url);
    let (mut f, a) = ShortenFlow::start(url, &cache, &mut g, 3);
    assert!(matches!(a, ShortenAction::LookupByUrl));
    assert_eq!(reply_of(f.on_lookup(Some(String::from("xyz")), &mut g, 3)), "xyz");
}

#[test]
fn flow_mints_after_false_positive() {
    let mut cache = ExistenceCache::new(1024, 100).unwrap();
    let mut g = IdGenerator::new(0);
    let url = String::from("http://fp.example");
    cache.add(&url);
    let (mut f, a) = ShortenFlow::start(url, &cache, &mut g, 0);
    assert!(matches!(a, ShortenAction::LookupByUrl));
    let (id, code) = insert_of(f.on_lookup(None, &mut g, 0));
    assert_eq!(id, 1);
    assert_eq!(code, "1");
}

#[test]
fn flow_reports_duplicate_key() {
    let mut cache = ExistenceCache::new(1024, 100).unwrap();
    let mut g = IdGenerator::new(0);
    let mut store = MappingStore::new();
    store.insert(1, String::from("1"), String::from("http://old.example")).unwrap();
    let url = String::from("http://new.example");
    let (mut f, a) = ShortenFlow::start(url.clone(), &cache, &mut g, 0);
    let (id, code) = insert_of(a);
    let r = store.insert(id, code, url.clone());
    match f.on_insert(r, &mut cache) {
        ShortenAction::Fail(e) => assert_eq!(e, ShortenError::DuplicateKey),
        other => panic!("expected a failure, got {:?}", other),
    }
    assert!(!cache.might_contain(&url));
}

#[test]
fn start_with_possibly_present_asks_for_lookup() {
    let mut g = IdGenerator::new(0);
    let (mut f, a) = ShortenFlow::start_with(String::from("http://p.example"), true, &mut g, 0);
    assert!(matches!(a, ShortenAction::LookupByUrl));
    let (id, code) = insert_of(f.on_lookup(None, &mut g, 0));
    assert_eq!((id, code.as_str()), (1, "1"));
}

#[test]
fn start_with_absent_mints_at_once() {
    let mut g = IdGenerator::new(0);
    let (_, a) = ShortenFlow::start_with(String::from("http://q.example"), false, &mut g, 0);
    let (id, code) = insert_of(a);
    assert_eq!(id, 1);
    assert_eq!(code, "1");
}

#[test]
fn start_with_absent_reports_clock_regression() {
    let mut g = IdGenerator::new(0);
    g.next_id(500).unwrap();
    let (_, a) = ShortenFlow::start_with(String::from("http://r.example"), false, &mut g, 100);
    match a {
        ShortenAction::Fail(e) => assert_eq!(e, ShortenError::ClockRegression),
        other => panic!("expected a failure, got {:?}", other),
    }
}

#[test]
fn shortener_over_a_stale_cache_still_mints() {
    let mut cache = ExistenceCache::new(1024, 100).unwrap();
    let url = String::from("http://stale.example");
    cache.add(&url);
    let mut s = Shortener::new(0, cache);
    assert_eq!(s.shorten(url.clone(), 0), Ok(String::from("1")));
    assert_eq!(s.shorten(url.clone(), 3), Ok(String::from("1")));
    assert_eq!(s.resolve(&String::from("1")), Ok(url));
}
