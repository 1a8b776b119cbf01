//! Request-path behaviour of the record table: upsert, get, list, and
//! reverse lookup.

use flylinks::link::Link;
use flylinks::persistence::Persistence;
use flylinks::store::Store;

fn fresh() -> Persistence {
    Persistence::from_store(Store::new())
}

fn mklink(short_form: &str, long_form: &str, created_at: &str) -> Link {
    Link {
        short_form: short_form.to_string(),
        long_form: long_form.to_string(),
        created_at: created_at.to_string(),
    }
}

#[test]
fn create_then_get_then_replace() {
    let mut p = fresh();
    p.create_link(
        "a".to_string(),
        mklink("x", "http://example.com", "2024-01-01T00:00:00Z"),
    );

    let got = p
        .get_link("a".to_string(), "x".to_string())
        .expect("link must exist after create");
    assert_eq!(got.short_form, "x");
    assert_eq!(got.long_form, "http://example.com");
    assert!(!got.created_at.is_empty());

    p.create_link(
        "a".to_string(),
        mklink("x", "http://example.org", "2024-01-02T00:00:00Z"),
    );
    let got = p
        .get_link("a".to_string(), "x".to_string())
        .expect("link must still exist");
    assert_eq!(got.long_form, "http://example.org");
    assert_eq!(got.created_at, "2024-01-02T00:00:00Z");

    let listed = p.list_links("a".to_string());
    assert_eq!(listed.len(), 1);
    assert_eq!(listed[0].short_form, "x");
    assert_eq!(listed[0].long_form, "http://example.org");
}

#[test]
fn upsert_is_idempotent() {
    let mut once = fresh();
    once.create_link("a".to_string(), mklink("x", "http://one", "t1"));

    let mut twice = fresh();
    twice.create_link("a".to_string(), mklink("x", "http://one", "t1"));
    twice.create_link("a".to_string(), mklink("x", "http://one", "t1"));

    let l1 = once.list_links("a".to_string());
    let l2 = twice.list_links("a".to_string());
    assert_eq!(l1.len(), 1);
    assert_eq!(l2.len(), 1);
    assert_eq!(l1[0].short_form, l2[0].short_form);
    assert_eq!(l1[0].long_form, l2[0].long_form);
    assert_eq!(l1[0].created_at, l2[0].created_at);
}

#[test]
fn get_returns_most_recent_write_per_key() {
    let mut p = fresh();
    p.create_link("a".to_string(), mklink("x", "http://first", "t1"));
    p.create_link("a".to_string(), mklink("y", "http://other", "t2"));
    p.create_link("a".to_string(), mklink("x", "http://second", "t3"));
    p.create_link("b".to_string(), mklink("x", "http://elsewhere", "t4"));

    let x = p.get_link("a".to_string(), "x".to_string()).unwrap();
    assert_eq!(x.long_form, "http://second");
    assert_eq!(x.created_at, "t3");

    let y = p.get_link("a".to_string(), "y".to_string()).unwrap();
    assert_eq!(y.long_form, "http://other");

    let bx = p.get_link("b".to_string(), "x".to_string()).unwrap();
    assert_eq!(bx.long_form, "http://elsewhere");

    assert!(p.get_link("a".to_string(), "z".to_string()).is_none());
    assert!(p.get_link("c".to_string(), "x".to_string()).is_none());
}

#[test]
fn list_is_complete_and_scoped_to_namespace() {
    let mut p = fresh();
    p.create_link("a".to_string(), mklink("x", "http://one", "t1"));
    p.create_link("a".to_string(), mklink("y", "http://two", "t2"));
    p.create_link("b".to_string(), mklink("z", "http://three", "t3"));

    let a = p.list_links("a".to_string());
    assert_eq!(a.len(), 2);
    let shorts: Vec<&str> = a.iter().map(|l| l.short_form.as_str()).collect();
    assert!(shorts.contains(&"x"));
    assert!(shorts.contains(&"y"));

    let b = p.list_links("b".to_string());
    assert_eq!(b.len(), 1);
    assert_eq!(b[0].short_form, "z");

    assert!(p.list_links("c".to_string()).is_empty());
}

#[test]
fn reverse_lookup_without_match_is_empty_not_error() {
    let mut p = fresh();
    p.create_link("a".to_string(), mklink("x", "http://example.com", "t1"));

    let none = p.reverse_lookup("a".to_string(), "http://nowhere".to_string());
    assert!(none.is_empty());
}

#[test]
fn reverse_lookup_matches_exactly_without_normalization() {
    let mut p = fresh();
    p.create_link("a".to_string(), mklink("x", "http://example.com", "t1"));
    p.create_link("a".to_string(), mklink("y", "http://example.com", "t2"));
    p.create_link("a".to_string(), mklink("z", "http://other", "t3"));
    p.create_link("b".to_string(), mklink("w", "http://example.com", "t4"));

    let hits = p.reverse_lookup("a".to_string(), "http://example.com".to_string());
    assert_eq!(hits.len(), 2);
    let shorts: Vec<&str> = hits.iter().map(|l| l.short_form.as_str()).collect();
    assert!(shorts.contains(&"x"));
    assert!(shorts.contains(&"y"));

    let cased = p.reverse_lookup("a".to_string(), "HTTP://EXAMPLE.COM".to_string());
    assert!(cased.is_empty());
}
