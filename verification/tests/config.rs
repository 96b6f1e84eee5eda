use withefuck::config::{
    answer, effective_history_count, history_count_from_answer, Config, ConfigError,
};
use withefuck::discover::latest_log;

fn validate(
    api_key: Option<&str>,
    api_endpoint: Option<&str>,
    model: Option<&str>,
    history_count: usize,
) -> Result<(), ConfigError> {
    Config {
        api_key: api_key.map(str::to_string),
        api_endpoint: api_endpoint.map(str::to_string),
        model: model.map(str::to_string),
        history_count,
    }
    .validate()
}

#[test]
fn complete_settings_pass() {
    assert_eq!(validate(Some("k"), Some("https://x"), Some("m"), 1), Ok(()));
    assert_eq!(validate(Some("k"), Some("https://x"), Some("m"), 100), Ok(()));
}

#[test]
fn missing_or_empty_setting_is_incomplete() {
    assert_eq!(validate(None, Some("e"), Some("m"), 5), Err(ConfigError::Incomplete));
    assert_eq!(validate(Some("k"), None, Some("m"), 5), Err(ConfigError::Incomplete));
    assert_eq!(validate(Some("k"), Some("e"), None, 5), Err(ConfigError::Incomplete));
    assert_eq!(validate(Some(""), Some("e"), Some("m"), 5), Err(ConfigError::Incomplete));
    assert_eq!(validate(Some("k"), Some(""), Some("m"), 5), Err(ConfigError::Incomplete));
    assert_eq!(validate(Some("k"), Some("e"), Some(""), 5), Err(ConfigError::Incomplete));
    // Completeness is looked at first.
    assert_eq!(validate(None, None, None, 0), Err(ConfigError::Incomplete));
}

#[test]
fn history_count_must_be_between_1_and_100() {
    assert_eq!(validate(Some("k"), Some("e"), Some("m"), 0), Err(ConfigError::HistoryCount));
    assert_eq!(validate(Some("k"), Some("e"), Some("m"), 101), Err(ConfigError::HistoryCount));
    assert_eq!(validate(Some("k"), Some("e"), Some("m"), usize::MAX), Err(ConfigError::HistoryCount));
}

#[test]
fn error_messages() {
    assert_eq!(
        ConfigError::Incomplete.message(),
        "Incomplete configuration. Please run 'wtf --config' to set up."
    );
    assert_eq!(ConfigError::HistoryCount.message(), "history_count must be between 1 and 100");
}

#[test]
fn zero_history_count_means_the_default() {
    assert_eq!(effective_history_count(0), 5);
    assert_eq!(effective_history_count(1), 1);
    assert_eq!(effective_history_count(42), 42);
}

#[test]
fn dialogue_stores_a_history_count_in_range() {
    assert_eq!(history_count_from_answer(Some(1)), 1);
    assert_eq!(history_count_from_answer(Some(100)), 100);
    assert_eq!(history_count_from_answer(Some(0)), 3);
    assert_eq!(history_count_from_answer(Some(101)), 3);
    assert_eq!(history_count_from_answer(None), 3);
}

#[test]
fn dialogue_reads_an_answer() {
    assert_eq!(answer("old", true, "  new \n"), Some("new".to_string()));
    assert_eq!(answer("", true, "new\n"), Some("new".to_string()));
    assert_eq!(answer("old", true, "\n"), Some("old".to_string()));
    assert_eq!(answer("old", false, "   "), Some("old".to_string()));
    assert_eq!(answer("", false, "\n"), Some(String::new()));
    assert_eq!(answer("", true, "\n"), None);
    assert_eq!(answer("", true, ""), None);
}

fn names(v: &[&str]) -> Vec<String> {
    v.iter().map(|s| s.to_string()).collect()
}

#[test]
fn newest_transcript_is_the_last_name() {
    let n = names(&["typescript-2024-01-02", "notes.txt", "typescript-2024-03-01", "typescript-2024-02-09"]);
    assert_eq!(latest_log(&n), Some(2));
    assert_eq!(latest_log(&names(&["typescript-a", "typescript-"])), Some(0));
    assert_eq!(latest_log(&names(&["typescript-a", "typescript-ab"])), Some(1));
    assert_eq!(latest_log(&names(&["typescript-\u{e9}", "typescript-z"])), Some(0));
    assert_eq!(latest_log(&names(&["zzz", "typescript-1"])), Some(1));
}

#[test]
fn no_transcript_among_the_names() {
    assert_eq!(latest_log(&names(&[])), None);
    assert_eq!(latest_log(&names(&["notes.txt", "typescript", "Typescript-1", "x-typescript-1"])), None);
}

#[test]
fn newest_transcript_agrees_with_sorting() {
    let n = names(&["typescript-10", "typescript-9", "typescript-1", "b", "typescript-09", "a"]);
    let mut sorted: Vec<&String> = n.iter().filter(|s| s.starts_with("typescript-")).collect();
    sorted.sort();
    let at = latest_log(&n).unwrap();
    assert_eq!(&n[at], *sorted.last().unwrap());
}
