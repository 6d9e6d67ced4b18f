use sven::cache::SecretCache;

fn pairs(cache: &SecretCache) -> Vec<(String, String)> {
    let mut v = cache.read();
    v.sort();
    v
}

#[test]
fn upsert_and_read_back() {
    let mut c = SecretCache::new();
    assert_eq!(c.read(), Vec::<(String, String)>::new());
    c.upsert("FOO".to_string(), "bar".to_string());
    c.upsert("BAZ".to_string(), "qux".to_string());
    assert_eq!(
        pairs(&c),
        vec![
            ("BAZ".to_string(), "qux".to_string()),
            ("FOO".to_string(), "bar".to_string()),
        ]
    );
}

#[test]
fn overwrite_keeps_one_record() {
    let mut c = SecretCache::new();
    c.upsert("FOO".to_string(), "v1".to_string());
    c.upsert("FOO".to_string(), "v2".to_string());
    assert_eq!(c.read(), vec![("FOO".to_string(), "v2".to_string())]);
    assert_eq!(c.read_keys(), vec!["FOO".to_string()]);
}

#[test]
fn remove_drops_the_entry() {
    let mut c = SecretCache::new();
    c.upsert("FOO".to_string(), "bar".to_string());
    c.upsert("BAZ".to_string(), "qux".to_string());
    c.remove(&"FOO".to_string());
    assert_eq!(c.read(), vec![("BAZ".to_string(), "qux".to_string())]);
}

#[test]
fn remove_absent_key_changes_nothing() {
    let mut c = SecretCache::new();
    c.upsert("FOO".to_string(), "bar".to_string());
    c.remove(&"MISSING".to_string());
    assert_eq!(c.read(), vec![("FOO".to_string(), "bar".to_string())]);
    let mut empty = SecretCache::new();
    empty.remove(&"MISSING".to_string());
    assert_eq!(empty.read(), Vec::<(String, String)>::new());
}

#[test]
fn read_keys_lists_each_key_once() {
    let mut c = SecretCache::new();
    c.upsert("A".to_string(), "1".to_string());
    c.upsert("B".to_string(), "2".to_string());
    c.upsert("A".to_string(), "3".to_string());
    let mut keys = c.read_keys();
    keys.sort();
    assert_eq!(keys, vec!["A".to_string(), "B".to_string()]);
}
