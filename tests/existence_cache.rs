use shorten_url::existence_cache::ExistenceCache;

#[test]
fn added_url_is_always_reported() {
    let mut c = ExistenceCache::new(1024, 100).unwrap();
    let u = String::from("http://example.com");
    c.add(&u);
    assert!(c.might_contain(&u));
    for i in 0..200 {
        c.add(&format!("http://other.example/{}", i));
    }
    assert!(c.might_contain(&u));
}

#[test]
fn adding_twice_is_harmless() {
    let mut c = ExistenceCache::new(64, 10).unwrap();
    let u = String::from("http://a.example");
    c.add(&u);
    c.add(&u);
    assert!(c.might_contain(&u));
}

#[test]
fn empty_cache_answers_absent() {
    let c = ExistenceCache::new(4096, 100).unwrap();
    let mut absent = 0;
    for i in 0..100 {
        if !c.might_contain(&format!("http://never.example/{}", i)) {
            absent += 1;
        }
    }
    assert_eq!(absent, 100);
}

#[test]
fn rebuild_from_urls() {
    let mut c = ExistenceCache::new(1024, 100).unwrap();
    let urls = vec![String::from("http://x.example"), String::from("http://y.example")];
    c.add_all(&urls);
    assert!(c.might_contain(&urls[0]));
    assert!(c.might_contain(&urls[1]));
}
