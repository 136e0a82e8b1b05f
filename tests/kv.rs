use ph::kv::KvStore;

fn ask(store: &mut KvStore, req: &str) -> Option<String> {
    store.handle(req.as_bytes()).map(|r| String::from_utf8(r).unwrap())
}

#[test]
fn insert_then_retrieve() {
    let mut db = KvStore::new();
    assert_eq!(ask(&mut db, "foo=bar"), None);
    assert_eq!(ask(&mut db, "foo"), Some("foo=bar".to_string()));
    assert_eq!(ask(&mut db, "missing"), None);
}

#[test]
fn split_at_first_equals() {
    let mut db = KvStore::new();
    ask(&mut db, "foo=bar=baz");
    assert_eq!(ask(&mut db, "foo"), Some("foo=bar=baz".to_string()));
    ask(&mut db, "foo===");
    assert_eq!(ask(&mut db, "foo"), Some("foo===".to_string()));
    ask(&mut db, "=empty key");
    assert_eq!(ask(&mut db, ""), Some("=empty key".to_string()));
    ask(&mut db, "empty value=");
    assert_eq!(ask(&mut db, "empty value"), Some("empty value=".to_string()));
}

#[test]
fn later_insert_replaces() {
    let mut db = KvStore::new();
    ask(&mut db, "k=1");
    ask(&mut db, "other=x");
    ask(&mut db, "k=2");
    assert_eq!(ask(&mut db, "k"), Some("k=2".to_string()));
    assert_eq!(ask(&mut db, "other"), Some("other=x".to_string()));
}

#[test]
fn version_is_fixed() {
    let mut db = KvStore::new();
    let v = Some("version=Ken's Key-Value Store v -0.1".to_string());
    assert_eq!(ask(&mut db, "version"), v);
    assert_eq!(ask(&mut db, "version=hacked"), None);
    assert_eq!(ask(&mut db, "version"), v);
}
