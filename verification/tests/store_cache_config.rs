use meriadoc::cache::{CacheEntry, ValidationCache};
use meriadoc::config::{ConfigActions, ConfigLoader, DiscoveryRoot, MeriadocConfig};
use meriadoc::env::ResolvedEnv;
use meriadoc::saved_env::{join_path, SavedEnvStore};
use meriadoc::strmap::StrMap;

#[test]
fn test_new_cache_is_empty() {
    let cache = ValidationCache::new();
    assert!(cache.is_empty());
    assert_eq!(cache.len(), 0);
}

#[test]
fn hash_contents_is_the_sha256_hex_digest() {
    assert_eq!(
        ValidationCache::hash_contents(b"abc"),
        "ba7816bf8f01cfea414140de5dae2223b00361a396177a9cb410ff61f20015ad"
    );
    assert_eq!(
        ValidationCache::hash_contents(b""),
        "e3b0c44298fc1c149afbf4c8996fb92427ae41e4649b934ca495991b7852b855"
    );
}

#[test]
fn recorded_valid_file_needs_no_validation_until_it_changes() {
    let mut cache = ValidationCache::new();
    assert!(cache.needs_validation("/p/meriadoc.yaml", b"tasks: {}"));
    cache.record_validation("/p/meriadoc.yaml", b"tasks: {}", true, 42);
    assert!(!cache.needs_validation("/p/meriadoc.yaml", b"tasks: {}"));
    assert!(cache.needs_validation("/p/meriadoc.yaml", b"tasks: {a: 1}"));
    assert!(cache.needs_validation("/p/other.yaml", b"tasks: {}"));
    assert_eq!(cache.len(), 1);
    assert_eq!(cache.get("/p/meriadoc.yaml").unwrap().validated_at, 42);
}

#[test]
fn recorded_invalid_file_still_needs_validation() {
    let mut cache = ValidationCache::new();
    cache.record_validation("/p/meriadoc.yaml", b"x", false, 1);
    assert!(cache.needs_validation("/p/meriadoc.yaml", b"x"));
    cache.clear();
    assert!(cache.is_empty());
}

fn env_of(pairs: &[(&str, &str)]) -> ResolvedEnv {
    let mut m = StrMap::new();
    for (k, v) in pairs {
        m.insert(k.to_string(), v.to_string());
    }
    m
}

#[test]
fn test_quoted_values() {
    let env = env_of(&[("SPACED", "hello world"), ("WITH_EQUALS", "key=value")]);
    let text = SavedEnvStore::format_env_file(&env);
    let loaded = SavedEnvStore::parse_env_file(&text);
    assert_eq!(loaded.get("SPACED"), Some(&"hello world".to_string()));
    assert_eq!(loaded.get("WITH_EQUALS"), Some(&"key=value".to_string()));
}

#[test]
fn saved_file_lines_are_sorted_and_quoted_when_needed() {
    let env = env_of(&[("ZED", "plain"), ("ALPHA", "a b"), ("MID", "x#y")]);
    assert_eq!(SavedEnvStore::format_env_file(&env), "ALPHA=\"a b\"\nMID=\"x#y\"\nZED=plain\n");
    assert_eq!(SavedEnvStore::format_env_line("K", "say \"hi\" now"), "K=\"say \\\"hi\\\" now\"");
}

#[test]
fn saved_values_read_back_unchanged() {
    let env = env_of(&[("FOO", "bar"), ("BAZ", "qux quux"), ("EMPTY", ""), ("URL", "a=b#c")]);
    let loaded = SavedEnvStore::parse_env_file(&SavedEnvStore::format_env_file(&env));
    assert_eq!(loaded.len(), 4);
    assert_eq!(loaded.get("FOO"), Some(&"bar".to_string()));
    assert_eq!(loaded.get("BAZ"), Some(&"qux quux".to_string()));
    assert_eq!(loaded.get("EMPTY"), Some(&"".to_string()));
    assert_eq!(loaded.get("URL"), Some(&"a=b#c".to_string()));
}

#[test]
fn empty_saved_file_is_one_newline() {
    let env = env_of(&[]);
    assert_eq!(SavedEnvStore::format_env_file(&env), "\n");
    assert!(SavedEnvStore::parse_env_file("\n").is_empty());
}

#[test]
fn store_paths() {
    let store = SavedEnvStore::new("/home/u/.config/meriadoc");
    assert_eq!(store.base_dir(), "/home/u/.config/meriadoc/env");
    assert_eq!(store.env_path("proj", "build"), "/home/u/.config/meriadoc/env/proj/build.env");
    assert_eq!(join_path("/a/", "b"), "/a/b");
    assert_eq!(join_path("/a", "/b"), "/b");
}

#[test]
fn config_defaults() {
    let c = MeriadocConfig::default();
    assert!(c.discovery.roots.is_empty());
    assert_eq!(c.discovery.max_depth, 3);
    assert_eq!(c.discovery.spec_files, vec!["meriadoc.yaml", "meriadoc.yml", "merry.yaml", "merry.yml"]);
    assert!(c.cache.enabled);
    assert_eq!(c.cache.dir, ".meriadoc/cache");
}

#[test]
fn config_add_enables_and_rm_disables() {
    let mut c = MeriadocConfig::default();
    c.discovery.roots.push(DiscoveryRoot { path: "/a".to_string(), name: Some("A".to_string()), enabled: false });
    ConfigActions::add_path(&mut c, &vec!["/a".to_string(), "/b".to_string(), "/b".to_string()]);
    assert_eq!(c.discovery.roots.len(), 2);
    assert!(c.discovery.roots[0].enabled);
    assert_eq!(c.discovery.roots[0].name.as_deref(), Some("A"));
    assert_eq!(c.discovery.roots[1].path, "/b");
    assert!(c.discovery.roots[1].enabled);
    assert!(ConfigActions::disable_path(&mut c, "/b"));
    assert!(!c.discovery.roots[1].enabled);
    assert!(!ConfigActions::disable_path(&mut c, "/c"));
    assert_eq!(c.discovery.roots.len(), 2);
}

#[test]
fn config_path_prefers_the_override() {
    assert_eq!(
        ConfigLoader::config_path(Some("/x/c.yaml".to_string()), Some("/home/u/.config".to_string())).unwrap(),
        "/x/c.yaml"
    );
    assert_eq!(
        ConfigLoader::config_path(None, Some("/home/u/.config".to_string())).unwrap(),
        "/home/u/.config/meriadoc/config.yaml"
    );
    assert!(ConfigLoader::config_path(None, None).is_err());
}

#[test]
fn saved_files_name_their_entity() {
    assert_eq!(SavedEnvStore::saved_entity("deploy.env"), Some("deploy".to_string()));
    assert_eq!(SavedEnvStore::saved_entity("a.b.env"), Some("a.b".to_string()));
    assert_eq!(SavedEnvStore::saved_entity(".env"), None);
    assert_eq!(SavedEnvStore::saved_entity("notes.txt"), None);
    assert_eq!(SavedEnvStore::saved_entity("env"), None);
}

#[test]
fn cache_from_entries_keeps_the_later_entry() {
    let e = |h: &str, t: u64, v: bool| CacheEntry { file_hash: h.to_string(), validated_at: t, is_valid: v };
    let cache = ValidationCache::from_entries(vec![
        ("/p/a.yaml".to_string(), e("aa", 1, true)),
        ("/p/b.yaml".to_string(), e("bb", 2, false)),
        ("/p/a.yaml".to_string(), e("cc", 3, false)),
    ]);
    assert_eq!(cache.len(), 2);
    let a = cache.get("/p/a.yaml").unwrap();
    assert_eq!(a.file_hash, "cc");
    assert_eq!(a.validated_at, 3);
    assert!(!a.is_valid);
    assert_eq!(cache.get("/p/b.yaml").unwrap().file_hash, "bb");
}
