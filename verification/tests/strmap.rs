use hx_exec::strmap::StrMap;

#[test]
fn map_gives_back_what_was_set() {
    let mut m: StrMap<String> = StrMap::new();
    m.insert("A".to_string(), "1".to_string());
    m.insert("B".to_string(), "2".to_string());
    m.insert("A".to_string(), "3".to_string());
    assert_eq!(m.get("A").map(String::as_str), Some("3"));
    assert_eq!(m.get("B").map(String::as_str), Some("2"));
    assert_eq!(m.get("C"), None);
    assert_eq!(m.len(), 2);
    let (k, v) = m.entry(0);
    assert_eq!((k.as_str(), v.as_str()), ("A", "3"));
    assert_eq!(m.get_bytes("B".as_bytes()).map(String::as_str), Some("2"));
    let c = m.copy();
    assert_eq!(c.get("A").map(String::as_str), Some("3"));
}
