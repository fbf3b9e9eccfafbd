use semcs::embed::TokenEstimator;

#[test]
fn test_estimate_tokens_empty() {
    assert_eq!(TokenEstimator::estimate_tokens(""), 0);
}

#[test]
fn test_estimate_tokens_simple() {
    let text = "Hello, world!";
    let tokens = TokenEstimator::estimate_tokens(text);
    // Should be around 3 tokens, estimation might vary
    assert!((2..=4).contains(&tokens), "Got {} tokens", tokens);
}

#[test]
fn test_estimate_tokens_code() {
    let code = r#"
fn main() {
println!("Hello, world!");
let x = 42;
return x;
}
"#;
    let tokens = TokenEstimator::estimate_tokens(code);
    // Code typically has more tokens due to symbols
    assert!((15..=25).contains(&tokens), "Got {} tokens", tokens);
}

#[test]
fn test_exceeds_limit() {
    assert!(!TokenEstimator::exceeds_limit("short text", 100));

    let long_text = "word ".repeat(200); // ~1000 characters
    assert!(TokenEstimator::exceeds_limit(&long_text, 100));
}

#[test]
fn test_model_limits() {
    assert_eq!(
        TokenEstimator::get_model_limit("BAAI/bge-small-en-v1.5"),
        512
    );
    assert_eq!(
        TokenEstimator::get_model_limit("nomic-embed-text-v1.5"),
        8192
    );
    assert_eq!(TokenEstimator::get_model_limit("unknown-model"), 8192);
}

#[test]
fn test_code_detection() {
    let code = r#"
pub fn calculate(x: i32) -> i32 {
let result = x * 2;
return result;
}
"#;
    let tokens = TokenEstimator::estimate_tokens(code);

    let text = r#"
This is a paragraph about programming.
It contains some discussion of functions and variables.
But it's written in natural language.
"#;
    let text_tokens = TokenEstimator::estimate_tokens(text);

    // Code should generally have slightly more tokens per character
    // due to more symbols and shorter identifiers
    let code_ratio = tokens as f32 / code.chars().count() as f32;
    let text_ratio = text_tokens as f32 / text.chars().count() as f32;

    assert!(
        code_ratio >= text_ratio * 0.8,
        "Code ratio {} should be similar to or higher than text ratio {}",
        code_ratio,
        text_ratio
    );
}

#[test]
fn dummy_reranker_reports_its_name() {
    let reranker = semcs::embed::DummyReranker::new();
    assert_eq!(reranker.id(), "dummy_reranker");
}
