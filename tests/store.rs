use dmrlet::cache::ModelCache;
use dmrlet::oci::OciStore;
use dmrlet::DmrletError;
use std::path::Path;

#[test]
fn test_model_cache() {
    let mut cache = ModelCache::new("/tmp/test-cache".to_string(), 1024 * 1024, false);

    assert!(!cache.has("test-model"));

    let evicted = cache.add("test-model", "/tmp/model.gguf".to_string(), 1024);
    assert!(evicted.is_empty());

    assert!(cache.has("test-model"));
    assert!(cache.get("test-model").is_some());
}

#[test]
fn test_cache_stats() {
    let mut cache = ModelCache::new("/tmp/test".to_string(), 1024 * 1024, false);

    cache.add("model1", "/tmp/m1.gguf".to_string(), 512);
    cache.add("model2", "/tmp/m2.gguf".to_string(), 256);

    assert_eq!(cache.model_count(), 2);
    assert_eq!(cache.total_size(), 768);
}

#[test]
fn least_recently_used_is_evicted_first() {
    let mut cache = ModelCache::new("/c".to_string(), 1000, true);
    assert!(cache.add_at("a", "/c/a".to_string(), 400, 1).is_empty());
    assert!(cache.add_at("b", "/c/b".to_string(), 400, 2).is_empty());
    assert_eq!(cache.get_at("a", 3), Some("/c/a".to_string()));
    let evicted = cache.add_at("c", "/c/c".to_string(), 400, 4);
    let refs: Vec<String> = evicted.iter().map(|m| m.reference.clone()).collect();
    assert_eq!(refs, vec!["b".to_string()]);
    assert!(cache.has("a"));
    assert!(!cache.has("b"));
    assert!(cache.has("c"));
    assert_eq!(cache.total_size(), 800);
}

#[test]
fn eviction_frees_until_enough() {
    let mut cache = ModelCache::new("/c".to_string(), 1000, true);
    cache.add_at("a", "/c/a".to_string(), 100, 5);
    cache.add_at("b", "/c/b".to_string(), 100, 1);
    cache.add_at("c", "/c/c".to_string(), 700, 3);
    let evicted = cache.add_at("d", "/c/d".to_string(), 350, 9);
    let refs: Vec<String> = evicted.iter().map(|m| m.reference.clone()).collect();
    assert_eq!(refs, vec!["b".to_string(), "c".to_string()]);
    assert_eq!(cache.total_size(), 450);
}

#[test]
fn replacing_and_removing_keep_the_total() {
    let mut cache = ModelCache::new("/c".to_string(), 1000, false);
    cache.add("a", "/c/a".to_string(), 300);
    cache.add("a", "/c/a2".to_string(), 200);
    assert_eq!(cache.model_count(), 1);
    assert_eq!(cache.total_size(), 200);
    assert_eq!(cache.list()[0].path, "/c/a2");
    let removed = cache.remove("a").unwrap();
    assert_eq!(removed.path, "/c/a2");
    assert_eq!(cache.total_size(), 0);
    assert!(cache.remove("a").is_none());
    assert!(cache.get("a").is_none());
}

#[test]
fn test_model_path() {
    let store = OciStore::new("/var/lib/dmrlet/models".to_string());
    let path = store.model_path("ai/llama3:8b");
    assert!(Path::new(&path).starts_with("/var/lib/dmrlet/models"));
    assert!(Path::new(&path).extension().map_or(false, |e| e == "gguf"));
    let path2 = store.model_path("ai/llama3:8b");
    assert_eq!(path, path2);
    let path3 = store.model_path("ai/llama3:70b");
    assert_ne!(path, path3);
}

#[test]
fn model_file_name_is_sanitized_and_hashed() {
    let store = OciStore::new("/m/".to_string());
    let path = store.model_path("ai/llama3:8b");
    assert!(path.starts_with("/m/ai_llama3_8b_"));
    assert!(path.ends_with(".gguf"));
    assert_eq!(path.len(), "/m/ai_llama3_8b_".len() + 16 + ".gguf".len());
    let long = "x".repeat(80);
    let p = OciStore::new(String::new()).model_path(&long);
    assert!(p.starts_with(&"x".repeat(50)));
    assert_eq!(p.len(), 50 + 1 + 16 + 5);
}

#[test]
fn pull_is_not_available() {
    let store = OciStore::new("/m".to_string());
    match store.pull("ai/x") {
        Err(DmrletError::ModelNotFound(m)) => {
            assert_eq!(m, "OCI pulling not yet implemented for: ai/x")
        }
        other => panic!("unexpected {:?}", other),
    }
}
