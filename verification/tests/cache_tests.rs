use ua_mask::cache::UaCache;

#[test]
fn cache_get_after_put() {
    let mut c = UaCache::new(2);
    c.put("a".to_string(), "A".to_string());
    assert_eq!(c.get(&"a".to_string()), Some("A".to_string()));
    c.put("a".to_string(), "B".to_string());
    assert_eq!(c.get(&"a".to_string()), Some("B".to_string()));
    assert_eq!(c.get(&"z".to_string()), None);
}

#[test]
fn cache_evicts_least_recently_used() {
    let mut c = UaCache::new(2);
    c.put("a".to_string(), "1".to_string());
    c.put("b".to_string(), "2".to_string());
    // a becomes the most recently used
    assert_eq!(c.get(&"a".to_string()), Some("1".to_string()));
    c.put("c".to_string(), "3".to_string());
    assert_eq!(c.get(&"b".to_string()), None);
    assert_eq!(c.get(&"a".to_string()), Some("1".to_string()));
    assert_eq!(c.get(&"c".to_string()), Some("3".to_string()));
}
