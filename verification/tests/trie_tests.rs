use wayfinder::flat::Charlike;
use wayfinder::trie::Trie;

fn keys(word: &str) -> Vec<Charlike> {
    word.chars().map(Charlike::Static).collect()
}

#[test]
fn test_add() {
    let t: Trie<i32> = Trie::new();
    let t = t.add(keys("foo").as_slice(), 42).map_err(|_| ()).unwrap();
    let t = t.add(keys("foobar").as_slice(), 0);
    assert!(t.is_ok());
}

#[test]
fn test_add_duplicate_fails() {
    let t: Trie<i32> = Trie::new();
    let t = t.add(keys("foo").as_slice(), 42).map_err(|_| ()).unwrap();
    let t = t.add(keys("foo").as_slice(), 7);
    assert!(t.is_err());
}

#[test]
fn test_has_path() {
    let t: Trie<i32> = Trie::new();
    let t = t.add(keys("foo").as_slice(), 42).map_err(|_| ()).unwrap();
    assert!(t.has_path(keys("foo").as_slice()));
    assert!(!t.has_path(keys("fo").as_slice()));
    assert!(!t.has_path(keys("foob").as_slice()));
}
