use hydra::container_map::ContainerMap;

#[test]
fn read_gives_back_last_write() {
    let mut m = ContainerMap::new();
    assert_eq!(m.len(), 0);
    assert_eq!(m.get(&"a".to_string()), None);
    m.insert("a".to_string(), "1".to_string());
    m.insert("b".to_string(), "2".to_string());
    assert_eq!(m.get(&"a".to_string()), Some("1".to_string()));
    m.insert("a".to_string(), "3".to_string());
    assert_eq!(m.get(&"a".to_string()), Some("3".to_string()));
    assert_eq!(m.get(&"b".to_string()), Some("2".to_string()));
    assert_eq!(m.len(), 2);
    assert!(m.contains_key(&"b".to_string()));
    assert!(!m.contains_key(&"c".to_string()));
}
