use shai::Config;

fn with_count(count: Option<&str>) -> Config {
    Config::from_settings("key".to_string(), None, None, count.map(|c| c.to_string()))
}

#[test]
fn defaults_fill_unset_values() {
    let config = with_count(None);
    assert_eq!(config.api_key, "key");
    assert_eq!(config.endpoint, "https://openrouter.ai/api/v1");
    assert_eq!(config.model, "meta-llama/llama-3.1-70b-instruct:free");
    assert_eq!(config.suggestion_count, 2);
}

#[test]
fn set_values_are_kept() {
    let config = Config::from_settings(
        "k".to_string(),
        Some("http://localhost:8080".to_string()),
        Some("m".to_string()),
        Some("5".to_string()),
    );
    assert_eq!(config.endpoint, "http://localhost:8080");
    assert_eq!(config.model, "m");
    assert_eq!(config.suggestion_count, 5);
}

#[test]
fn suggestion_count_parses_as_i32_or_falls_back() {
    assert_eq!(with_count(Some("-3")).suggestion_count, -3);
    assert_eq!(with_count(Some("+7")).suggestion_count, 7);
    assert_eq!(with_count(Some("007")).suggestion_count, 7);
    assert_eq!(with_count(Some("2147483647")).suggestion_count, i32::MAX);
    assert_eq!(with_count(Some("-2147483648")).suggestion_count, i32::MIN);
    assert_eq!(with_count(Some("2147483648")).suggestion_count, 2);
    assert_eq!(with_count(Some("abc")).suggestion_count, 2);
    assert_eq!(with_count(Some("")).suggestion_count, 2);
    assert_eq!(with_count(Some("-")).suggestion_count, 2);
    assert_eq!(with_count(Some(" 4")).suggestion_count, 2);
    assert_eq!(with_count(Some("4x")).suggestion_count, 2);
}
