use maki::cache::{Cache, CacheEntry};
use maki::hash::compute_hash;
use maki::target::Target;

fn existing_keys(cache: &Cache) -> Vec<String> {
    cache
        .entries
        .keys()
        .into_iter()
        .filter(|k| std::path::Path::new(k).exists())
        .collect()
}

#[test]
fn test_compute_hash() {
    let hash1 = compute_hash("hello world");
    let hash2 = compute_hash("hello world");
    let hash3 = compute_hash("different content");

    assert_eq!(hash1, hash2);
    assert_ne!(hash1, hash3);
    assert_eq!(hash1.len(), 64); // SHA256 produces 64 hex chars
}

#[test]
fn compute_hash_known_digest() {
    assert_eq!(
        compute_hash("hello world"),
        "b94d27b9934d3e08a52e52d7da7dabfac484efe37a5380ee9088f7ace2efcde9"
    );
    assert_eq!(
        compute_hash(""),
        "e3b0c44298fc1c149afbf4c8996fb92427ae41e4649b934ca495991b7852b855"
    );
}

#[test]
fn test_cache_new() {
    let cache = Cache::new();
    assert_eq!(cache.version, Cache::CURRENT_VERSION);
    assert!(cache.entries.is_empty());
}

#[test]
fn test_cache_set_and_get() {
    let mut cache = Cache::new();

    let content = "build:\n\techo building\n";
    let path = "/tmp/project/Makefile";

    let targets = vec![Target::new(
        "build".to_string(),
        Some("Build target".to_string()),
        path.to_string(),
        1,
    )];

    // Set cache entry
    cache.set(path, content, 0, targets.clone());

    // Get cache entry
    let cached = cache.get(path, content);
    assert!(cached.is_some());
    assert_eq!(cached.unwrap().len(), 1);
    assert_eq!(cached.unwrap()[0].name, "build");
    assert_eq!(cached.unwrap(), &targets);
}

#[test]
fn test_cache_invalidation_on_content_change() {
    let mut cache = Cache::new();

    let path = "/tmp/project/Makefile";
    let targets = vec![Target::new("build".to_string(), None, path.to_string(), 1)];

    cache.set(path, "build:\n\techo building", 0, targets);

    // Verify cache hit
    assert!(cache.get(path, "build:\n\techo building").is_some());

    // Cache should now miss (content changed)
    assert!(cache.get(path, "test:\n\techo testing").is_none());
}

#[test]
fn test_cache_prune() {
    let mut cache = Cache::new();

    // Add entry for non-existent file
    let fake_path = "/nonexistent/Makefile".to_string();
    cache.entries.insert(
        fake_path.clone(),
        CacheEntry {
            content_hash: "abc123".to_string(),
            modified_time: 0,
            targets: vec![],
        },
    );

    assert_eq!(cache.entries.len(), 1);

    // Prune should remove the entry
    let existing = existing_keys(&cache);
    cache.prune(&existing);

    assert!(cache.entries.is_empty());
}

#[test]
fn test_cache_clear() {
    let mut cache = Cache::new();

    cache.entries.insert(
        "test".to_string(),
        CacheEntry {
            content_hash: "abc".to_string(),
            modified_time: 0,
            targets: vec![],
        },
    );

    assert!(!cache.entries.is_empty());

    cache.clear();

    assert!(cache.entries.is_empty());
}

#[test]
fn test_cache_stats() {
    let mut cache = Cache::new();

    cache.entries.insert(
        "file1".to_string(),
        CacheEntry {
            content_hash: "abc".to_string(),
            modified_time: 0,
            targets: vec![
                Target::new("a".to_string(), None, "f".to_string(), 1),
                Target::new("b".to_string(), None, "f".to_string(), 2),
            ],
        },
    );

    cache.entries.insert(
        "file2".to_string(),
        CacheEntry {
            content_hash: "def".to_string(),
            modified_time: 0,
            targets: vec![Target::new("c".to_string(), None, "f".to_string(), 1)],
        },
    );

    let stats = cache.stats();
    assert_eq!(stats.entry_count, 2);
    assert_eq!(stats.total_targets, 3);
}

#[test]
fn insert_replaces_the_entry_of_a_key() {
    let mut cache = Cache::new();
    cache.set("a", "one", 1, vec![Target::new("x".to_string(), None, "a".to_string(), 1)]);
    cache.set("b", "two", 2, vec![]);
    cache.set("a", "three", 3, vec![]);
    assert_eq!(cache.entries.len(), 2);
    assert_eq!(cache.entries.keys(), vec!["a".to_string(), "b".to_string()]);
    assert!(cache.get("a", "one").is_none());
    assert_eq!(cache.get("a", "three"), Some(&vec![]));
    assert_eq!(cache.entries.get("a").unwrap().modified_time, 3);
    assert_eq!(cache.entries.get("a").unwrap().content_hash, compute_hash("three"));
    assert!(cache.entries.get("c").is_none());
}

#[test]
fn invalidate_removes_one_entry() {
    let mut cache = Cache::new();
    cache.set("a", "one", 1, vec![]);
    cache.set("b", "two", 2, vec![]);
    cache.invalidate("a");
    assert!(!cache.entries.contains_key("a"));
    assert!(cache.entries.contains_key("b"));
    cache.invalidate("missing");
    assert_eq!(cache.entries.len(), 1);
}

#[test]
fn prune_keeps_what_exists() {
    let mut cache = Cache::new();
    cache.set("a", "one", 1, vec![]);
    cache.set("b", "two", 2, vec![]);
    cache.set("c", "three", 3, vec![]);
    cache.prune(&vec!["c".to_string(), "a".to_string(), "zzz".to_string()]);
    assert_eq!(cache.entries.keys(), vec!["a".to_string(), "c".to_string()]);
    assert!(cache.get("c", "three").is_some());
}

#[test]
fn load_keeps_the_current_version_only() {
    let mut stored = Cache::new();
    stored.set("a", "one", 1, vec![]);
    let loaded = Cache::load(Some(stored.clone()));
    assert_eq!(loaded.entries.len(), 1);

    let mut other = stored.clone();
    other.version = Cache::CURRENT_VERSION + 1;
    let loaded = Cache::load(Some(other));
    assert_eq!(loaded.version, Cache::CURRENT_VERSION);
    assert!(loaded.entries.is_empty());

    let loaded = Cache::load(None);
    assert_eq!(loaded.version, Cache::CURRENT_VERSION);
    assert!(loaded.entries.is_empty());
}

#[test]
fn entry_validity_ignores_the_modification_time() {
    let entry = CacheEntry {
        content_hash: compute_hash("text"),
        modified_time: 99,
        targets: vec![],
    };
    assert!(Cache::is_entry_valid("text", &entry));
    assert!(!Cache::is_entry_valid("text ", &entry));
}
