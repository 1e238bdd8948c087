use shorten_url::codec::encode;
use shorten_url::store::{DuplicateKeyError, MappingStore};

#[test]
fn insert_then_find_both_ways() {
    let mut s = MappingStore::new();
    assert_eq!(s.insert(1, String::from("1"), String::from("http://a.example")), Ok(()));
    assert_eq!(s.len(), 1);
    assert_eq!(s.find_code_by_url(&String::from("http://a.example")), Some(String::from("1")));
    assert_eq!(s.find_url_by_code(&String::from("1")), Some(String::from("http://a.example")));
    assert_eq!(s.find_code_by_url(&String::from("http://b.example")), None);
    assert_eq!(s.find_url_by_code(&String::from("2")), None);
}

#[test]
fn duplicate_id_is_refused() {
    let mut s = MappingStore::new();
    assert_eq!(s.insert(5, encode(5), String::from("http://a.example")), Ok(()));
    assert_eq!(
        s.insert(5, String::from("other"), String::from("http://b.example")),
        Err(DuplicateKeyError::DuplicateKey)
    );
    assert_eq!(s.len(), 1);
}

#[test]
fn colliding_code_is_refused_not_overwritten() {
    let mut s = MappingStore::new();
    assert_eq!(s.insert(10, String::from("A"), String::from("http://first.example")), Ok(()));
    assert_eq!(
        s.insert(11, String::from("A"), String::from("http://second.example")),
        Err(DuplicateKeyError::DuplicateKey)
    );
    assert_eq!(s.find_url_by_code(&String::from("A")), Some(String::from("http://first.example")));
    assert_eq!(s.len(), 1);
}

#[test]
fn first_row_wins_for_duplicate_urls() {
    let mut s = MappingStore::new();
    let u = String::from("http://dup.example");
    assert_eq!(s.insert(1, String::from("1"), u.clone()), Ok(()));
    assert_eq!(s.insert(2, String::from("2"), u.clone()), Ok(()));
    assert_eq!(s.find_code_by_url(&u), Some(String::from("1")));
    assert_eq!(s.original_urls(), vec![u.clone(), u]);
}
