use keifu::names::{NameMap, NameSet};
use keifu::oid::{Oid, OidMap, OidSet};
use keifu::paths::PathSet;
use keifu::sorting::sort;

const HEX: &str = "0123456789abcdef0123456789abcdef01234567";

#[test]
fn ids_are_read_and_shown() {
    let o = Oid::from_str(HEX).unwrap();
    assert_eq!(o.to_string(), HEX);
    assert_eq!(o.as_bytes()[..4], [0x01, 0x23, 0x45, 0x67]);
    assert_eq!(Oid::from_bytes(&o.as_bytes()), Some(o));
    assert_eq!(Oid::from_bytes(&[1, 2, 3]), None);
    assert_eq!(Oid::from_str("zzzz"), None);
    assert_eq!(Oid::from_str(""), None);
    assert_eq!(Oid::zero().to_string(), "0".repeat(40));
}

#[test]
fn short_and_upper_case_texts_are_ids() {
    assert_eq!(Oid::from_str("AB").map(|o| o.to_string()), Some(format!("ab{}", "0".repeat(38))));
    assert_eq!(Oid::from_str(&"a".repeat(41)), None);
}

#[test]
fn collections_hold_each_key_once() {
    let o = Oid::from_str(HEX).unwrap();
    let mut set = OidSet::new();
    assert!(set.insert(o));
    assert!(!set.insert(o));
    assert_eq!(set.len(), 1);
    let mut map: OidMap<usize> = OidMap::new();
    map.insert(o, 1);
    map.insert(o, 2);
    assert_eq!(map.get(&o), Some(2));
    assert_eq!(map.get(&Oid::zero()), None);
    let mut names = NameSet::new();
    assert!(names.insert("a".to_string()));
    assert!(!names.insert("a".to_string()));
    let mut targets = NameMap::new();
    targets.insert("a".to_string(), Oid::zero());
    targets.insert("a".to_string(), o);
    assert_eq!(targets.len(), 1);
    assert_eq!(targets.get("a"), Some(o));
    let mut paths = PathSet::new();
    assert!(paths.insert(b"x"));
    assert!(!paths.insert(b"x"));
    assert_eq!(paths.len(), 1);
    assert!(!paths.insert(b"x/"));
    assert!(paths.insert(b"a//./b"));
    assert!(paths.contains(b"a/b"));
    assert!(!paths.contains(b"./a/b"));
    assert!(!paths.contains(b"/a/b"));
    assert_eq!(paths.len(), 2);
}

#[test]
fn sorting_keeps_everything() {
    let mut words: Vec<String> = ["b", "", "ab", "b", "a"].iter().map(|s| s.to_string()).collect();
    sort(&mut words);
    assert_eq!(words, vec!["", "a", "ab", "b", "b"]);
}
