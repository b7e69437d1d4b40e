use highnoon::{response_level, LogLevel, MemorySessionStore, Session, StringMap};

#[test]
fn session_set_and_get() {
    let mut s = Session::new();
    assert!(!s.is_modified());
    assert_eq!(s.get("user"), None);
    s.set("user".to_string(), "bob".to_string());
    assert!(s.is_modified());
    assert_eq!(s.get("user"), Some("bob".to_string()));
    s.set("user".to_string(), "eve".to_string());
    assert_eq!(s.get("user"), Some("eve".to_string()));
}

#[test]
fn session_load_clears_modified() {
    let mut s = Session::new();
    s.set("a".to_string(), "1".to_string());
    let mut data = StringMap::new();
    data.insert("b".to_string(), "2".to_string());
    s.load(data);
    assert!(!s.is_modified());
    assert_eq!(s.get("a"), None);
    assert_eq!(s.get("b"), Some("2".to_string()));
}

#[test]
fn session_load_encoded_decodes() {
    let mut s = Session::new();
    assert!(s.load_encoded("name=bob%20smith&count=3"));
    assert_eq!(s.get("name"), Some("bob smith".to_string()));
    assert_eq!(s.get("count"), Some("3".to_string()));
    assert!(!s.is_modified());
}

#[test]
fn session_load_encoded_empty() {
    let mut s = Session::new();
    s.set("x".to_string(), "y".to_string());
    assert!(s.load_encoded(""));
    assert_eq!(s.get("x"), None);
}

#[test]
fn session_encoded_round_trip() {
    let mut s = Session::new();
    s.set("greeting".to_string(), "hello world".to_string());
    s.set("n".to_string(), "1&2".to_string());
    let raw = s.encoded().unwrap();
    assert_eq!(raw, "greeting=hello+world&n=1%262");
    let mut t = Session::new();
    assert!(t.load_encoded(&raw));
    assert_eq!(t.get("greeting"), Some("hello world".to_string()));
    assert_eq!(t.get("n"), Some("1&2".to_string()));
}

#[test]
fn memory_store_get_set_clear() {
    let mut store = MemorySessionStore::new();
    assert_eq!(store.get("sid"), None);
    store.set("sid".to_string(), "a=1".to_string());
    assert_eq!(store.get("sid"), Some("a=1".to_string()));
    store.set("sid".to_string(), "a=2".to_string());
    assert_eq!(store.get("sid"), Some("a=2".to_string()));
    store.clear("sid");
    assert_eq!(store.get("sid"), None);
    store.clear("missing");
}

#[test]
fn string_map_insert_remove() {
    let mut a = StringMap::new();
    a.insert("k".to_string(), "outer".to_string());
    a.insert("only_a".to_string(), "1".to_string());
    a.insert("k".to_string(), "inner".to_string());
    assert_eq!(a.len(), 2);
    assert_eq!(a.get("k"), Some("inner".to_string()));
    a.remove("k");
    assert!(!a.contains_key("k"));
    let pairs = StringMap::from_pairs(vec![
        ("x".to_string(), "1".to_string()),
        ("x".to_string(), "2".to_string()),
    ]);
    assert_eq!(pairs.get("x"), Some("2".to_string()));
    assert_eq!(pairs.to_pairs(), vec![("x".to_string(), "2".to_string())]);
}

#[test]
fn log_levels_by_status() {
    assert_eq!(response_level(500), LogLevel::Error);
    assert_eq!(response_level(599), LogLevel::Error);
    assert_eq!(response_level(404), LogLevel::Warn);
    assert_eq!(response_level(405), LogLevel::Warn);
    assert_eq!(response_level(200), LogLevel::Info);
    assert_eq!(response_level(302), LogLevel::Info);
}
