use semcs::models::{alias_for_model, resolve_model_selection, switch_needs_rebuild, ModelRegistry};

#[test]
fn aliases_of_model_names() {
    let registry = ModelRegistry::default();
    assert_eq!(alias_for_model(&registry, "nomic-embed-text-v1.5"), "nomic-v1.5");
    assert_eq!(alias_for_model(&registry, "unknown/model"), "unknown/model");
}

#[test]
fn rebuild_only_when_the_model_changes() {
    let registry = ModelRegistry::default();
    assert!(!switch_needs_rebuild(&registry, false, Some("bge-small"), "BAAI/bge-small-en-v1.5"));
    assert!(!switch_needs_rebuild(&registry, false, Some("BAAI/bge-small-en-v1.5"), "BAAI/bge-small-en-v1.5"));
    assert!(switch_needs_rebuild(&registry, true, Some("bge-small"), "BAAI/bge-small-en-v1.5"));
    assert!(switch_needs_rebuild(&registry, false, Some("minilm"), "BAAI/bge-small-en-v1.5"));
    assert!(switch_needs_rebuild(&registry, false, Some("nope"), "BAAI/bge-small-en-v1.5"));
    assert!(switch_needs_rebuild(&registry, false, None, "BAAI/bge-small-en-v1.5"));
}

#[test]
fn selection_by_alias_name_or_default() {
    let registry = ModelRegistry::default();
    let (alias, config) = resolve_model_selection(&registry, Some("jina-code")).unwrap();
    assert_eq!(alias, "jina-code");
    assert_eq!(config.name, "jina-embeddings-v2-base-code");
    let (alias, config) = resolve_model_selection(&registry, Some("jina-embeddings-v3")).unwrap();
    assert_eq!(alias, "jina-v3");
    assert_eq!(config.dimensions, 1024);
    let (alias, _) = resolve_model_selection(&registry, None).unwrap();
    assert_eq!(alias, "bge-small");
    assert!(resolve_model_selection(&registry, Some("missing")).is_err());
}

#[test]
fn default_models_dimensions_and_contexts() {
    let reg = ModelRegistry::default();
    for (k, v) in [
        ("bge-small", (384, 512)),
        ("nomic-v1.5", (768, 8192)),
        ("jina-code", (768, 8192)),
        ("jina-v4", (1536, 8192)),
        ("jina-code-0.5b", (896, 8192)),
        ("jina-code-1.5b", (1536, 8192)),
    ] {
        assert_eq!(reg.get_model(k).map(|c| (c.dimensions, c.max_tokens)), Some(v));
    }
}
