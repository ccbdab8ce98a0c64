use morse_tutor::config::{dedup_chars, AppConfig};
use morse_tutor::stats::UserStats;

#[test]
fn fresh_profile_defaults() {
    let c = AppConfig::default();
    assert_eq!(c.difficulty_level, 1);
    assert_eq!(c.session_duration, 1);
    assert!(c.known_chars.is_empty());
}

#[test]
fn store_file_names() {
    assert_eq!(AppConfig::config_path(), "morse_config.toml");
    assert_eq!(UserStats::stats_path(), "morse_stats.toml");
}

#[test]
fn dedup_keeps_first_occurrences_in_order() {
    let v = vec!['E', 'T', 'E', 'A', 'T', 'E'];
    assert_eq!(dedup_chars(&v), vec!['E', 'T', 'A']);
    let empty: Vec<char> = Vec::new();
    assert_eq!(dedup_chars(&empty), empty);
    let clean = vec!['X', 'Y'];
    assert_eq!(dedup_chars(&clean), clean);
}

#[test]
fn empty_record_defaults() {
    let s = UserStats::default();
    assert_eq!(s.sessions_completed, 0);
    assert_eq!((s.accuracy.num, s.accuracy.den), (0, 1));
    assert_eq!(s.response_times.len(), 0);
    assert_eq!(s.word_response_times.len(), 0);
    assert!(s.session_history.is_empty());
}
