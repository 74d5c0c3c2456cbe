use keifu::merged_cache::{repo_key, MergedCache, OnDisk, CACHE_VERSION};
use keifu::names::{NameMap, NameSet};
use keifu::oid::Oid;

fn set(names: &[&str]) -> NameSet {
    let names: Vec<String> = names.iter().map(|s| s.to_string()).collect();
    NameSet::from_list(&names)
}

fn landing() -> Oid {
    Oid::from_str("0123456789abcdef0123456789abcdef01234567").unwrap()
}

fn sample() -> MergedCache {
    let mut squash_targets = NameMap::new();
    squash_targets.insert("feat/x".to_string(), landing());
    MergedCache {
        signature: 0xdead_beef_1234_5678,
        gh_merged: set(&["feat/x"]),
        merged: set(&["feat/x", "fix/y"]),
        squash_targets,
    }
}

#[test]
fn save_then_load_round_trips_every_field() {
    let saved = sample();
    let disk = saved.to_disk();
    assert_eq!(disk.version, CACHE_VERSION);
    assert_eq!(disk.merged, vec!["feat/x", "fix/y"]);
    let loaded = MergedCache::from_disk(&disk).expect("saved entry loads back");
    assert_eq!(loaded, saved);
    assert_eq!(loaded.signature, saved.signature);
    assert_eq!(loaded.gh_merged.len(), 1);
    assert!(loaded.gh_merged.contains("feat/x"));
    assert_eq!(loaded.merged.len(), 2);
    assert!(loaded.merged.contains("feat/x") && loaded.merged.contains("fix/y"));
    assert_eq!(loaded.squash_targets.len(), 1);
    assert_eq!(loaded.squash_targets.get("feat/x"), Some(landing()));
}

#[test]
fn distinct_repo_paths_key_to_distinct_files() {
    // Per-repo scoping: two paths must not collide on one cache file.
    assert_ne!(repo_key("/repo/one"), repo_key("/repo/two"));
    // And the key is stable for the same input.
    assert_eq!(repo_key("/repo/one"), repo_key("/repo/one"));
}

#[test]
fn version_mismatch_is_ignored() {
    let disk = OnDisk {
        version: 999,
        signature: 1,
        gh_merged: vec![],
        merged: vec!["x".to_string()],
        squash_targets: vec![],
    };
    assert!(MergedCache::from_disk(&disk).is_none(), "wrong version → miss");
}

#[test]
fn bad_oid_target_is_dropped_not_fatal() {
    let disk = OnDisk {
        version: 1,
        signature: 7,
        gh_merged: vec![],
        merged: vec!["a".to_string(), "b".to_string()],
        squash_targets: vec![
            ("a".to_string(), "0123456789abcdef0123456789abcdef01234567".to_string()),
            ("b".to_string(), "zzzz".to_string()),
        ],
    };
    let loaded = MergedCache::from_disk(&disk).expect("entry with a bad target still loads");
    assert_eq!(loaded.merged.len(), 2);
    assert_eq!(loaded.squash_targets.len(), 1, "only the valid target survives");
    assert!(loaded.squash_targets.get("a").is_some());
}

#[test]
fn equality_ignores_the_order_of_names() {
    let cache = sample();
    let mut other = cache.clone();
    assert_eq!(cache, other);
    other.merged = set(&["fix/y", "feat/x"]);
    assert_eq!(cache, other);
    other.squash_targets.insert("fix/y".to_string(), landing());
    assert_ne!(cache, other);
    assert_ne!(set(&["a"]), set(&["a", "b"]));
}
