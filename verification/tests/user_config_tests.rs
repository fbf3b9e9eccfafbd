use semcs::user_config::{
    config_error_message, config_key, default_threshold_text, parse_count, ConfigError, ConfigKey, ConfigValue,
    SetEffect, UserConfig,
};

fn text(v: Option<ConfigValue>) -> Option<String> {
    match v {
        Some(ConfigValue::Text(s)) => Some(s),
        _ => None,
    }
}

#[test]
fn test_default_config() {
    let config = UserConfig::default();
    assert_eq!(config.index_model, "jina-v4");
    assert_eq!(config.query_model, "jina-code-1.5b");
    assert_eq!(config.default_topk, 10);
    assert_eq!(default_threshold_text().parse::<f32>().unwrap(), 0.6);
}

#[test]
fn test_get_set() {
    let mut config = UserConfig::default();

    assert_eq!(text(config.get("index-model")), Some("jina-v4".to_string()));

    config.set("index-model", "bge-small").unwrap();
    assert_eq!(config.index_model, "bge-small");
    assert_eq!(text(config.get("index-model")), Some("bge-small".to_string()));

    assert!(config.set("default-topk", "not-a-number").is_err());
}

#[test]
fn keys_take_both_spellings() {
    assert_eq!(config_key("query_model"), Some(ConfigKey::QueryModel));
    assert_eq!(config_key("quiet-mode"), Some(ConfigKey::QuietMode));
    assert_eq!(config_key("quiet mode"), None);
}

#[test]
fn get_renders_counts_and_flags() {
    let config = UserConfig::default();
    assert_eq!(text(config.get("default_topk")), Some("10".to_string()));
    assert_eq!(text(config.get("rerank-enabled")), Some("false".to_string()));
    assert_eq!(config.get("default-threshold"), Some(ConfigValue::Threshold));
    assert_eq!(config.get("nope"), None);
}

#[test]
fn set_validates_values() {
    let mut c = UserConfig::default();
    assert_eq!(c.set("default-topk", "+25"), Ok(SetEffect::Applied));
    assert_eq!(c.default_topk, 25);
    assert_eq!(c.set("default-search-mode", "sem"), Ok(SetEffect::Applied));
    assert_eq!(c.set("default-search-mode", "fuzzy"), Err(ConfigError::InvalidSearchMode));
    assert_eq!(c.default_search_mode, "sem");
    assert_eq!(c.set("default-output-format", "jsonl"), Ok(SetEffect::Applied));
    assert_eq!(c.set("default-output-format", "xml"), Err(ConfigError::InvalidOutputFormat));
    assert_eq!(c.set("show-scores-default", "true"), Ok(SetEffect::Applied));
    assert!(c.show_scores_default);
    assert_eq!(c.set("quiet_mode", "yes"), Err(ConfigError::InvalidBoolean(ConfigKey::QuietMode)));
    assert_eq!(c.set("rerank-model", "BAAI/bge-reranker-base"), Ok(SetEffect::Applied));
    assert_eq!(c.set("rerank-model", "other"), Err(ConfigError::InvalidRerankModel));
    assert_eq!(c.rerank_model, "BAAI/bge-reranker-base");
    assert_eq!(c.set("default-threshold", "0.8"), Ok(SetEffect::Threshold));
    assert_eq!(c.set("colour", "red"), Err(ConfigError::UnknownKey));
}

#[test]
fn counts_parse_like_usize() {
    assert_eq!(parse_count("42"), Some(42));
    assert_eq!(parse_count("007"), Some(7));
    assert_eq!(parse_count("+3"), Some(3));
    assert_eq!(parse_count("+"), None);
    assert_eq!(parse_count(""), None);
    assert_eq!(parse_count("-1"), None);
    assert_eq!(parse_count(" 1"), None);
    assert_eq!(parse_count("18446744073709551615"), Some(usize::MAX));
    assert_eq!(parse_count("18446744073709551616"), None);
}

#[test]
fn error_messages() {
    assert_eq!(
        config_error_message(ConfigError::InvalidBoolean(ConfigKey::QuietMode), "quiet_mode", "yes"),
        "Invalid boolean for quiet-mode: yes"
    );
    assert_eq!(config_error_message(ConfigError::UnknownKey, "colour", "red"), "Unknown configuration key: colour");
    assert_eq!(
        config_error_message(ConfigError::InvalidNumber, "default-topk", "x"),
        "Invalid number for default-topk: x"
    );
    assert_eq!(
        config_error_message(ConfigError::InvalidSearchMode, "default-search-mode", "fuzzy"),
        "Invalid search mode: fuzzy. Must be one of: regex, sem, lex, hybrid"
    );
}
