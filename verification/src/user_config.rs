//! User-level settings: which models index and query, search and output
//! defaults, reranking and quiet mode, read and changed by key. The default
//! similarity threshold is a floating-point number that the caller keeps:
//! for its key, `get` and `set` say so instead of acting.
use vstd::prelude::*;

use crate::text::{clone_string, decimal, has_prefix, push_decimal, push_str_chars, starts_with_seq, str_chars, str_eq, string_from_chars};

verus! {

/// User-level settings, but for the default similarity threshold.
#[derive(Debug)]
pub struct UserConfig {
    /// Model used to build the index.
    pub index_model: String,
    /// Model used to embed queries.
    pub query_model: String,
    /// Default number of results.
    pub default_topk: usize,
    /// Default search mode: `regex`, `sem`, `lex` or `hybrid`.
    pub default_search_mode: String,
    /// Default output format: `text`, `json` or `jsonl`.
    pub default_output_format: String,
    /// Show similarity scores by default.
    pub show_scores_default: bool,
    /// Show line numbers by default.
    pub line_numbers_default: bool,
    /// Rerank results by default.
    pub rerank_enabled: bool,
    /// Reranking model: an alias or a full model name.
    pub rerank_model: String,
    /// Suppress status messages.
    pub quiet_mode: bool,
}

/// The settings, their texts taken as character sequences.
pub struct ConfigView {
    pub index_model: Seq<char>,
    pub query_model: Seq<char>,
    pub default_topk: usize,
    pub default_search_mode: Seq<char>,
    pub default_output_format: Seq<char>,
    pub show_scores_default: bool,
    pub line_numbers_default: bool,
    pub rerank_enabled: bool,
    pub rerank_model: Seq<char>,
    pub quiet_mode: bool,
}

impl View for UserConfig {
    type V = ConfigView;

    open spec fn view(&self) -> ConfigView {
        ConfigView {
            index_model: self.index_model@,
            query_model: self.query_model@,
            default_topk: self.default_topk,
            default_search_mode: self.default_search_mode@,
            default_output_format: self.default_output_format@,
            show_scores_default: self.show_scores_default,
            line_numbers_default: self.line_numbers_default,
            rerank_enabled: self.rerank_enabled,
            rerank_model: self.rerank_model@,
            quiet_mode: self.quiet_mode,
        }
    }
}

/// The settings a user starts with: `jina-v4` indexes and `jina-code-1.5b`
/// queries, ten results in regex mode as text, no scores, line numbers,
/// reranking (with `jina` when asked) or quiet mode.
pub open spec fn default_config() -> ConfigView {
    ConfigView {
        index_model: "jina-v4"@,
        query_model: "jina-code-1.5b"@,
        default_topk: 10,
        default_search_mode: "regex"@,
        default_output_format: "text"@,
        show_scores_default: false,
        line_numbers_default: false,
        rerank_enabled: false,
        rerank_model: "jina"@,
        quiet_mode: false,
    }
}

impl UserConfig {
    /// The settings a user starts with; see `default_config`.
    pub fn default() -> (r: UserConfig)
        ensures
            r@ == default_config(),
    {
        UserConfig {
            index_model: "jina-v4".to_owned(),
            query_model: "jina-code-1.5b".to_owned(),
            default_topk: 10,
            default_search_mode: "regex".to_owned(),
            default_output_format: "text".to_owned(),
            show_scores_default: false,
            line_numbers_default: false,
            rerank_enabled: false,
            rerank_model: "jina".to_owned(),
            quiet_mode: false,
        }
    }
}

/// The default similarity threshold a user starts with, in decimal
/// notation; the caller reads it as the floating-point number it keeps.
pub fn default_threshold_text() -> (r: &'static str)
    ensures
        r@ == "0.6"@,
{
    "0.6"
}

/// A setting, named by a key in dashed or underscored form.
#[derive(Debug, Clone, Copy, PartialEq, Eq, Structural)]
pub enum ConfigKey {
    IndexModel,
    QueryModel,
    DefaultTopk,
    DefaultThreshold,
    DefaultSearchMode,
    DefaultOutputFormat,
    ShowScoresDefault,
    LineNumbersDefault,
    RerankEnabled,
    RerankModel,
    QuietMode,
}

/// The dashed name of a setting.
pub open spec fn key_text(k: ConfigKey) -> Seq<char> {
    match k {
        ConfigKey::IndexModel => "index-model"@,
        ConfigKey::QueryModel => "query-model"@,
        ConfigKey::DefaultTopk => "default-topk"@,
        ConfigKey::DefaultThreshold => "default-threshold"@,
        ConfigKey::DefaultSearchMode => "default-search-mode"@,
        ConfigKey::DefaultOutputFormat => "default-output-format"@,
        ConfigKey::ShowScoresDefault => "show-scores-default"@,
        ConfigKey::LineNumbersDefault => "line-numbers-default"@,
        ConfigKey::RerankEnabled => "rerank-enabled"@,
        ConfigKey::RerankModel => "rerank-model"@,
        ConfigKey::QuietMode => "quiet-mode"@,
    }
}

/// The underscored name of a setting.
pub open spec fn field_text(k: ConfigKey) -> Seq<char> {
    match k {
        ConfigKey::IndexModel => "index_model"@,
        ConfigKey::QueryModel => "query_model"@,
        ConfigKey::DefaultTopk => "default_topk"@,
        ConfigKey::DefaultThreshold => "default_threshold"@,
        ConfigKey::DefaultSearchMode => "default_search_mode"@,
        ConfigKey::DefaultOutputFormat => "default_output_format"@,
        ConfigKey::ShowScoresDefault => "show_scores_default"@,
        ConfigKey::LineNumbersDefault => "line_numbers_default"@,
        ConfigKey::RerankEnabled => "rerank_enabled"@,
        ConfigKey::RerankModel => "rerank_model"@,
        ConfigKey::QuietMode => "quiet_mode"@,
    }
}

/// The setting a key names by its dashed or underscored name.
pub open spec fn key_of(key: Seq<char>) -> Option<ConfigKey> {
    if key == key_text(ConfigKey::IndexModel) || key == field_text(ConfigKey::IndexModel) {
        Some(ConfigKey::IndexModel)
    } else if key == key_text(ConfigKey::QueryModel) || key == field_text(ConfigKey::QueryModel) {
        Some(ConfigKey::QueryModel)
    } else if key == key_text(ConfigKey::DefaultTopk) || key == field_text(ConfigKey::DefaultTopk) {
        Some(ConfigKey::DefaultTopk)
    } else if key == key_text(ConfigKey::DefaultThreshold) || key == field_text(ConfigKey::DefaultThreshold) {
        Some(ConfigKey::DefaultThreshold)
    } else if key == key_text(ConfigKey::DefaultSearchMode) || key == field_text(ConfigKey::DefaultSearchMode) {
        Some(ConfigKey::DefaultSearchMode)
    } else if key == key_text(ConfigKey::DefaultOutputFormat) || key == field_text(ConfigKey::DefaultOutputFormat) {
        Some(ConfigKey::DefaultOutputFormat)
    } else if key == key_text(ConfigKey::ShowScoresDefault) || key == field_text(ConfigKey::ShowScoresDefault) {
        Some(ConfigKey::ShowScoresDefault)
    } else if key == key_text(ConfigKey::LineNumbersDefault) || key == field_text(ConfigKey::LineNumbersDefault) {
        Some(ConfigKey::LineNumbersDefault)
    } else if key == key_text(ConfigKey::RerankEnabled) || key == field_text(ConfigKey::RerankEnabled) {
        Some(ConfigKey::RerankEnabled)
    } else if key == key_text(ConfigKey::RerankModel) || key == field_text(ConfigKey::RerankModel) {
        Some(ConfigKey::RerankModel)
    } else if key == key_text(ConfigKey::QuietMode) || key == field_text(ConfigKey::QuietMode) {
        Some(ConfigKey::QuietMode)
    } else {
        None
    }
}

/// The dashed name of a setting.
pub fn key_name(k: ConfigKey) -> (r: &'static str)
    ensures
        r@ == key_text(k),
{
    match k {
        ConfigKey::IndexModel => "index-model",
        ConfigKey::QueryModel => "query-model",
        ConfigKey::DefaultTopk => "default-topk",
        ConfigKey::DefaultThreshold => "default-threshold",
        ConfigKey::DefaultSearchMode => "default-search-mode",
        ConfigKey::DefaultOutputFormat => "default-output-format",
        ConfigKey::ShowScoresDefault => "show-scores-default",
        ConfigKey::LineNumbersDefault => "line-numbers-default",
        ConfigKey::RerankEnabled => "rerank-enabled",
        ConfigKey::RerankModel => "rerank-model",
        ConfigKey::QuietMode => "quiet-mode",
    }
}

/// The underscored name of a setting.
fn field_name(k: ConfigKey) -> (r: &'static str)
    ensures
        r@ == field_text(k),
{
    match k {
        ConfigKey::IndexModel => "index_model",
        ConfigKey::QueryModel => "query_model",
        ConfigKey::DefaultTopk => "default_topk",
        ConfigKey::DefaultThreshold => "default_threshold",
        ConfigKey::DefaultSearchMode => "default_search_mode",
        ConfigKey::DefaultOutputFormat => "default_output_format",
        ConfigKey::ShowScoresDefault => "show_scores_default",
        ConfigKey::LineNumbersDefault => "line_numbers_default",
        ConfigKey::RerankEnabled => "rerank_enabled",
        ConfigKey::RerankModel => "rerank_model",
        ConfigKey::QuietMode => "quiet_mode",
    }
}

/// Whether a key names a setting by its dashed or underscored name.
fn names(key: &str, k: ConfigKey) -> (r: bool)
    ensures
        r == (key@ == key_text(k) || key@ == field_text(k)),
{
    str_eq(key, key_name(k)) || str_eq(key, field_name(k))
}

/// The setting a key names, if any; see `key_of`.
pub fn config_key(key: &str) -> (r: Option<ConfigKey>)
    ensures
        r == key_of(key@),
{
    if names(key, ConfigKey::IndexModel) {
        Some(ConfigKey::IndexModel)
    } else if names(key, ConfigKey::QueryModel) {
        Some(ConfigKey::QueryModel)
    } else if names(key, ConfigKey::DefaultTopk) {
        Some(ConfigKey::DefaultTopk)
    } else if names(key, ConfigKey::DefaultThreshold) {
        Some(ConfigKey::DefaultThreshold)
    } else if names(key, ConfigKey::DefaultSearchMode) {
        Some(ConfigKey::DefaultSearchMode)
    } else if names(key, ConfigKey::DefaultOutputFormat) {
        Some(ConfigKey::DefaultOutputFormat)
    } else if names(key, ConfigKey::ShowScoresDefault) {
        Some(ConfigKey::ShowScoresDefault)
    } else if names(key, ConfigKey::LineNumbersDefault) {
        Some(ConfigKey::LineNumbersDefault)
    } else if names(key, ConfigKey::RerankEnabled) {
        Some(ConfigKey::RerankEnabled)
    } else if names(key, ConfigKey::RerankModel) {
        Some(ConfigKey::RerankModel)
    } else if names(key, ConfigKey::QuietMode) {
        Some(ConfigKey::QuietMode)
    } else {
        None
    }
}

/// A setting's value as `get` gives it: its text, or word that it is the
/// threshold, which the caller keeps.
#[derive(Debug, PartialEq, Eq)]
pub enum ConfigValue {
    Text(String),
    Threshold,
}

/// `true` or `false`.
pub open spec fn bool_text(b: bool) -> Seq<char> {
    if b { "true"@ } else { "false"@ }
}

/// The text of a setting, none for the threshold.
pub open spec fn value_text(c: ConfigView, k: ConfigKey) -> Option<Seq<char>> {
    match k {
        ConfigKey::IndexModel => Some(c.index_model),
        ConfigKey::QueryModel => Some(c.query_model),
        ConfigKey::DefaultTopk => Some(decimal(c.default_topk as nat)),
        ConfigKey::DefaultThreshold => None,
        ConfigKey::DefaultSearchMode => Some(c.default_search_mode),
        ConfigKey::DefaultOutputFormat => Some(c.default_output_format),
        ConfigKey::ShowScoresDefault => Some(bool_text(c.show_scores_default)),
        ConfigKey::LineNumbersDefault => Some(bool_text(c.line_numbers_default)),
        ConfigKey::RerankEnabled => Some(bool_text(c.rerank_enabled)),
        ConfigKey::RerankModel => Some(c.rerank_model),
        ConfigKey::QuietMode => Some(bool_text(c.quiet_mode)),
    }
}

/// `true` or `false` as a string.
fn bool_string(b: bool) -> (r: String)
    ensures
        r@ == bool_text(b),
{
    if b { "true".to_owned() } else { "false".to_owned() }
}

/// The decimal notation of a count.
fn count_string(n: usize) -> (r: String)
    ensures
        r@ == decimal(n as nat),
{
    let mut cs: Vec<char> = Vec::new();
    push_decimal(&mut cs, n);
    assert(cs@ =~= decimal(n as nat));
    string_from_chars(cs.as_slice())
}

impl UserConfig {
    /// The value of the setting a key names (see `key_of` and
    /// `value_text`); none for a key that names no setting.
    pub fn get(&self, key: &str) -> (r: Option<ConfigValue>)
        ensures
            match key_of(key@) {
                None => r is None,
                Some(k) => match value_text(self@, k) {
                    Some(t) => r matches Some(ConfigValue::Text(v)) && v@ == t,
                    None => r == Some(ConfigValue::Threshold),
                },
            },
    {
        match config_key(key) {
            None => None,
            Some(k) => Some(match k {
                ConfigKey::IndexModel => ConfigValue::Text(clone_string(&self.index_model)),
                ConfigKey::QueryModel => ConfigValue::Text(clone_string(&self.query_model)),
                ConfigKey::DefaultTopk => ConfigValue::Text(count_string(self.default_topk)),
                ConfigKey::DefaultThreshold => ConfigValue::Threshold,
                ConfigKey::DefaultSearchMode => ConfigValue::Text(clone_string(&self.default_search_mode)),
                ConfigKey::DefaultOutputFormat => ConfigValue::Text(clone_string(&self.default_output_format)),
                ConfigKey::ShowScoresDefault => ConfigValue::Text(bool_string(self.show_scores_default)),
                ConfigKey::LineNumbersDefault => ConfigValue::Text(bool_string(self.line_numbers_default)),
                ConfigKey::RerankEnabled => ConfigValue::Text(bool_string(self.rerank_enabled)),
                ConfigKey::RerankModel => ConfigValue::Text(clone_string(&self.rerank_model)),
                ConfigKey::QuietMode => ConfigValue::Text(bool_string(self.quiet_mode)),
            }),
        }
    }
}

/// The value of a decimal digit.
pub open spec fn digit_value(c: char) -> nat {
    (c as nat - '0' as nat) as nat
}

/// Whether a character is a decimal digit.
pub open spec fn is_digit(c: char) -> bool {
    '0' <= c && c <= '9'
}

/// The number a string of decimal digits writes.
pub open spec fn digits_value(d: Seq<char>) -> nat
    decreases d.len(),
{
    if d.len() == 0 {
        0
    } else {
        digits_value(d.drop_last()) * 10 + digit_value(d.last())
    }
}

/// The digits of a count: the text without one leading `+`.
pub open spec fn count_digits(v: Seq<char>) -> Seq<char> {
    if v.len() > 0 && v[0] == '+' { v.drop_first() } else { v }
}

/// Whether every character is a decimal digit.
pub open spec fn all_digits(d: Seq<char>) -> bool {
    forall|i: int| 0 <= i < d.len() ==> is_digit(#[trigger] d[i])
}

/// A count as `usize::from_str` reads it: decimal digits after an
/// optional `+`, at least one, not past `usize::MAX`.
pub open spec fn parsed_count(v: Seq<char>) -> Option<usize> {
    let d = count_digits(v);
    if d.len() > 0 && all_digits(d) && digits_value(d) <= usize::MAX {
        Some(digits_value(d) as usize)
    } else {
        None
    }
}

proof fn lemma_digits_grow(d: Seq<char>, n: int)
    requires
        0 <= n <= d.len(),
    ensures
        digits_value(d.take(n)) <= digits_value(d),
    decreases d.len() - n,
{
    if n < d.len() {
        lemma_digits_grow(d, n + 1);
        assert(d.take(n + 1).drop_last() =~= d.take(n));
        assert(digits_value(d.take(n + 1)) == digits_value(d.take(n)) * 10 + digit_value(d[n]));
        assert(digits_value(d.take(n)) <= digits_value(d.take(n)) * 10) by (nonlinear_arith);
    } else {
        assert(d.take(n) =~= d);
    }
}

/// Reads a count; see `parsed_count`.
pub fn parse_count(value: &str) -> (r: Option<usize>)
    ensures
        r == parsed_count(value@),
{
    let cs = str_chars(value);
    let start: usize = if cs.len() > 0 && cs[0] == '+' { 1 } else { 0 };
    let ghost d = count_digits(value@);
    assert(d =~= cs@.subrange(start as int, cs@.len() as int));
    if start >= cs.len() {
        return None;
    }
    let mut n: usize = 0;
    let mut i: usize = start;
    while i < cs.len()
        invariant
            start <= i <= cs@.len(),
            cs@ == value@,
            d == cs@.subrange(start as int, cs@.len() as int),
            d == count_digits(value@),
            d.len() > 0,
            forall|k: int| 0 <= k < i - start ==> is_digit(#[trigger] d[k]),
            n == digits_value(d.take(i - start)),
        decreases cs@.len() - i,
    {
        let c = cs[i];
        if !('0' <= c && c <= '9') {
            proof {
                assert(!is_digit(d[i - start]));
                assert(!all_digits(d));
            }
            return None;
        }
        let dv = (c as u32 - '0' as u32) as usize;
        let ghost k = (i - start) as int;
        assert(d.take(k + 1).drop_last() =~= d.take(k));
        assert(d[k] == c);
        if n > (usize::MAX - dv) / 10 {
            proof {
                assert(n * 10 + dv > usize::MAX) by (nonlinear_arith)
                    requires n > (usize::MAX - dv) / 10, dv <= 9;
                assert(digits_value(d.take(k + 1)) == n * 10 + dv);
                lemma_digits_grow(d, k + 1);
                assert(digits_value(d) > usize::MAX);
            }
            return None;
        }
        assert(n * 10 + dv <= usize::MAX) by (nonlinear_arith)
            requires n <= (usize::MAX - dv) / 10, dv <= 9;
        n = n * 10 + dv;
        i += 1;
    }
    assert(d.take(d.len() as int) =~= d);
    Some(n)
}

/// A truth value as `bool::from_str` reads it: exactly `true` or `false`.
pub open spec fn parsed_bool(v: Seq<char>) -> Option<bool> {
    if v == "true"@ {
        Some(true)
    } else if v == "false"@ {
        Some(false)
    } else {
        None
    }
}

/// Reads a truth value; see `parsed_bool`.
pub fn parse_bool(value: &str) -> (r: Option<bool>)
    ensures
        r == parsed_bool(value@),
{
    if str_eq(value, "true") {
        Some(true)
    } else if str_eq(value, "false") {
        Some(false)
    } else {
        None
    }
}

/// The search modes a setting takes.
pub open spec fn is_search_mode(v: Seq<char>) -> bool {
    v == "regex"@ || v == "sem"@ || v == "lex"@ || v == "hybrid"@
}

/// The output formats a setting takes.
pub open spec fn is_output_format(v: Seq<char>) -> bool {
    v == "text"@ || v == "json"@ || v == "jsonl"@
}

/// The reranking models a setting takes: a known alias, or a full name of
/// a Jina, BAAI or rozgo reranker.
pub open spec fn is_rerank_model(v: Seq<char>) -> bool {
    ||| v == "jina"@ || v == "jina-v1"@ || v == "jina-v2"@ || v == "jina-v3"@
    ||| v == "bge"@ || v == "bge-base"@ || v == "bge-v2-m3"@
    ||| has_prefix(v, "jina-reranker-"@) || has_prefix(v, "BAAI/"@) || has_prefix(v, "rozgo/"@)
}

/// Whether a string starts with a literal.
fn begins_with(s: &str, p: &str) -> (r: bool)
    ensures
        r == has_prefix(s@, p@),
{
    let a = str_chars(s);
    let b = str_chars(p);
    starts_with_seq(a.as_slice(), b.as_slice())
}

/// What a change did: the setting was set, or the key names the threshold,
/// which the caller reads from the value and keeps.
#[derive(Debug, Clone, Copy, PartialEq, Eq, Structural)]
pub enum SetEffect {
    Applied,
    Threshold,
}

/// Why a change was refused.
#[derive(Debug, Clone, Copy, PartialEq, Eq, Structural)]
pub enum ConfigError {
    /// The key names no setting.
    UnknownKey,
    /// The number of results is not a count.
    InvalidNumber,
    /// The value of the named on/off setting is not `true` or `false`.
    InvalidBoolean(ConfigKey),
    InvalidSearchMode,
    InvalidOutputFormat,
    InvalidRerankModel,
}

/// A change of the setting a key names to a value: the new settings and
/// what was done, or why the change is refused (the settings then stay).
pub open spec fn set_outcome(c: ConfigView, key: Seq<char>, value: Seq<char>) -> Result<(ConfigView, SetEffect), ConfigError> {
    match key_of(key) {
        None => Err(ConfigError::UnknownKey),
        Some(k) => match k {
            ConfigKey::IndexModel => Ok((ConfigView { index_model: value, ..c }, SetEffect::Applied)),
            ConfigKey::QueryModel => Ok((ConfigView { query_model: value, ..c }, SetEffect::Applied)),
            ConfigKey::DefaultTopk => match parsed_count(value) {
                Some(n) => Ok((ConfigView { default_topk: n, ..c }, SetEffect::Applied)),
                None => Err(ConfigError::InvalidNumber),
            },
            ConfigKey::DefaultThreshold => Ok((c, SetEffect::Threshold)),
            ConfigKey::DefaultSearchMode => if is_search_mode(value) {
                Ok((ConfigView { default_search_mode: value, ..c }, SetEffect::Applied))
            } else {
                Err(ConfigError::InvalidSearchMode)
            },
            ConfigKey::DefaultOutputFormat => if is_output_format(value) {
                Ok((ConfigView { default_output_format: value, ..c }, SetEffect::Applied))
            } else {
                Err(ConfigError::InvalidOutputFormat)
            },
            ConfigKey::ShowScoresDefault => match parsed_bool(value) {
                Some(b) => Ok((ConfigView { show_scores_default: b, ..c }, SetEffect::Applied)),
                None => Err(ConfigError::InvalidBoolean(k)),
            },
            ConfigKey::LineNumbersDefault => match parsed_bool(value) {
                Some(b) => Ok((ConfigView { line_numbers_default: b, ..c }, SetEffect::Applied)),
                None => Err(ConfigError::InvalidBoolean(k)),
            },
            ConfigKey::RerankEnabled => match parsed_bool(value) {
                Some(b) => Ok((ConfigView { rerank_enabled: b, ..c }, SetEffect::Applied)),
                None => Err(ConfigError::InvalidBoolean(k)),
            },
            ConfigKey::RerankModel => if is_rerank_model(value) {
                Ok((ConfigView { rerank_model: value, ..c }, SetEffect::Applied))
            } else {
                Err(ConfigError::InvalidRerankModel)
            },
            ConfigKey::QuietMode => match parsed_bool(value) {
                Some(b) => Ok((ConfigView { quiet_mode: b, ..c }, SetEffect::Applied)),
                None => Err(ConfigError::InvalidBoolean(k)),
            },
        },
    }
}

impl UserConfig {
    /// Changes the setting a key names; see `set_outcome`.
    pub fn set(&mut self, key: &str, value: &str) -> (r: Result<SetEffect, ConfigError>)
        ensures
            match r {
                Ok(e) => set_outcome(old(self)@, key@, value@) == Ok::<(ConfigView, SetEffect), ConfigError>((final(self)@, e)),
                Err(err) => set_outcome(old(self)@, key@, value@) == Err::<(ConfigView, SetEffect), ConfigError>(err)
                    && final(self)@ == old(self)@,
            },
    {
        let k = match config_key(key) {
            Some(k) => k,
            None => return Err(ConfigError::UnknownKey),
        };
        match k {
            ConfigKey::IndexModel => {
                self.index_model = value.to_owned();
            },
            ConfigKey::QueryModel => {
                self.query_model = value.to_owned();
            },
            ConfigKey::DefaultTopk => match parse_count(value) {
                Some(n) => {
                    self.default_topk = n;
                },
                None => return Err(ConfigError::InvalidNumber),
            },
            ConfigKey::DefaultThreshold => return Ok(SetEffect::Threshold),
            ConfigKey::DefaultSearchMode => {
                if str_eq(value, "regex") || str_eq(value, "sem") || str_eq(value, "lex") || str_eq(value, "hybrid") {
                    self.default_search_mode = value.to_owned();
                } else {
                    return Err(ConfigError::InvalidSearchMode);
                }
            },
            ConfigKey::DefaultOutputFormat => {
                if str_eq(value, "text") || str_eq(value, "json") || str_eq(value, "jsonl") {
                    self.default_output_format = value.to_owned();
                } else {
                    return Err(ConfigError::InvalidOutputFormat);
                }
            },
            ConfigKey::ShowScoresDefault => match parse_bool(value) {
                Some(b) => {
                    self.show_scores_default = b;
                },
                None => return Err(ConfigError::InvalidBoolean(k)),
            },
            ConfigKey::LineNumbersDefault => match parse_bool(value) {
                Some(b) => {
                    self.line_numbers_default = b;
                },
                None => return Err(ConfigError::InvalidBoolean(k)),
            },
            ConfigKey::RerankEnabled => match parse_bool(value) {
                Some(b) => {
                    self.rerank_enabled = b;
                },
                None => return Err(ConfigError::InvalidBoolean(k)),
            },
            ConfigKey::RerankModel => {
                let alias = str_eq(value, "jina") || str_eq(value, "jina-v1") || str_eq(value, "jina-v2")
                    || str_eq(value, "jina-v3") || str_eq(value, "bge") || str_eq(value, "bge-base")
                    || str_eq(value, "bge-v2-m3");
                let full = begins_with(value, "jina-reranker-") || begins_with(value, "BAAI/") || begins_with(value, "rozgo/");
                if alias || full {
                    self.rerank_model = value.to_owned();
                } else {
                    return Err(ConfigError::InvalidRerankModel);
                }
            },
            ConfigKey::QuietMode => match parse_bool(value) {
                Some(b) => {
                    self.quiet_mode = b;
                },
                None => return Err(ConfigError::InvalidBoolean(k)),
            },
        }
        Ok(SetEffect::Applied)
    }
}

/// The message for a refused change of the setting `key` to `value`.
pub open spec fn error_text(err: ConfigError, key: Seq<char>, value: Seq<char>) -> Seq<char> {
    match err {
        ConfigError::UnknownKey => "Unknown configuration key: "@ + key,
        ConfigError::InvalidNumber => "Invalid number for default-topk: "@ + value,
        ConfigError::InvalidBoolean(k) => "Invalid boolean for "@ + key_text(k) + ": "@ + value,
        ConfigError::InvalidSearchMode => "Invalid search mode: "@ + value + ". Must be one of: regex, sem, lex, hybrid"@,
        ConfigError::InvalidOutputFormat => "Invalid output format: "@ + value + ". Must be one of: text, json, jsonl"@,
        ConfigError::InvalidRerankModel => "Invalid rerank model: "@ + value
            + ". Must be one of: jina, jina-v1, jina-v2, bge, bge-base, bge-v2-m3, or a full model name"@,
    }
}

/// The message for a refused change; see `error_text`.
pub fn config_error_message(err: ConfigError, key: &str, value: &str) -> (r: String)
    ensures
        r@ == error_text(err, key@, value@),
{
    let mut out: Vec<char> = Vec::new();
    match err {
        ConfigError::UnknownKey => {
            push_str_chars(&mut out, "Unknown configuration key: ");
            push_str_chars(&mut out, key);
        },
        ConfigError::InvalidNumber => {
            push_str_chars(&mut out, "Invalid number for default-topk: ");
            push_str_chars(&mut out, value);
        },
        ConfigError::InvalidBoolean(k) => {
            push_str_chars(&mut out, "Invalid boolean for ");
            push_str_chars(&mut out, key_name(k));
            push_str_chars(&mut out, ": ");
            push_str_chars(&mut out, value);
        },
        ConfigError::InvalidSearchMode => {
            push_str_chars(&mut out, "Invalid search mode: ");
            push_str_chars(&mut out, value);
            push_str_chars(&mut out, ". Must be one of: regex, sem, lex, hybrid");
        },
        ConfigError::InvalidOutputFormat => {
            push_str_chars(&mut out, "Invalid output format: ");
            push_str_chars(&mut out, value);
            push_str_chars(&mut out, ". Must be one of: text, json, jsonl");
        },
        ConfigError::InvalidRerankModel => {
            push_str_chars(&mut out, "Invalid rerank model: ");
            push_str_chars(&mut out, value);
            push_str_chars(&mut out, ". Must be one of: jina, jina-v1, jina-v2, bge, bge-base, bge-v2-m3, or a full model name");
        },
    }
    assert(out@ =~= error_text(err, key@, value@));
    string_from_chars(out.as_slice())
}

} // verus!
