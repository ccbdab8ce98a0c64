use morse_tutor::config::AppConfig;
use morse_tutor::encoder::char_string;
use morse_tutor::progression::{ProgressionLevel, ProgressionSystem};
use morse_tutor::stats::UserStats;
use morse_tutor::tutor::MorseTutor;

/// A small two-tier table: the first tier teaches E
/// and T with a 70% accuracy and 10-second speed gate.
fn scenario_progression() -> ProgressionSystem {
    ProgressionSystem {
        levels: vec![
            ProgressionLevel {
                level: 1,
                chars_to_learn: vec!['E', 'T'],
                speed_requirement_ms: 10000,
                accuracy_requirement_pct: 70,
            },
            ProgressionLevel {
                level: 2,
                chars_to_learn: vec!['A', 'I', 'M', 'N'],
                speed_requirement_ms: 8000,
                accuracy_requirement_pct: 80,
            },
        ],
        common_words: Vec::new(),
    }
}

fn fresh_profile() -> AppConfig {
    AppConfig { difficulty_level: 1, session_duration: 1, known_chars: Vec::new() }
}

fn seed_items(tutor: &mut MorseTutor, items: &[char]) {
    let mut v: Vec<String> = Vec::new();
    for c in items {
        v.push(char_string(*c));
    }
    tutor.practice_queue.seed(v);
}

/// A perfect first session unlocks the second tier and teaches the
/// learner the symbols of both tiers.
#[test]
fn fresh_profile_advances_after_a_perfect_session() {
    let mut tutor = MorseTutor::new(fresh_profile(), UserStats::default(), scenario_progression());
    seed_items(&mut tutor, &['E', 'T']);
    tutor.start_session();

    let item = tutor.practice_queue.peek().unwrap();
    assert_eq!(item, "E");
    let out = tutor.practice_item(&item, ".", 100);
    assert!(out.correct);
    tutor.practice_queue.resolve(out.correct);

    let item = tutor.practice_queue.peek().unwrap();
    assert_eq!(item, "T");
    let out = tutor.practice_item(&item, "-", 100);
    assert!(out.correct);
    tutor.practice_queue.resolve(out.correct);

    assert_eq!(tutor.practice_queue.len(), 0);
    assert_eq!(tutor.correct_answers, 2);
    assert_eq!(tutor.total_answers, 2);

    tutor.end_session(5);
    let report = tutor.update_progression();

    assert!(report.advanced);
    assert_eq!(report.new_level, 2);
    assert!(!report.reached_word_level);
    assert_eq!(tutor.config.difficulty_level, 2);
    let mut known = tutor.config.known_chars.clone();
    known.sort();
    assert_eq!(known, vec!['A', 'E', 'I', 'M', 'N', 'T']);
    // session accuracy 2/2 folded into a fresh record gives exactly 1
    assert_eq!(tutor.stats.sessions_completed, 1);
    assert_eq!((tutor.stats.accuracy.num, tutor.stats.accuracy.den), (1, 1));
    let last = tutor.stats.session_history.last().unwrap();
    assert_eq!(last.chars_practiced, vec!['E', 'T']);
    assert!(last.words_practiced.is_empty());
}

/// E right, T wrong twice then right: 2 of 4 is below the
/// 70% requirement, so nothing advances and nothing joins the known
/// set.
#[test]
fn failed_gate_leaves_profile_unchanged() {
    let mut tutor = MorseTutor::new(fresh_profile(), UserStats::default(), scenario_progression());
    seed_items(&mut tutor, &['E', 'T']);
    tutor.start_session();

    let answers = [(".", true), ("x", false), ("x", false), ("-", true)];
    for (answer, expect_ok) in answers {
        let item = tutor.practice_queue.peek().unwrap();
        let out = tutor.practice_item(&item, answer, 100);
        assert_eq!(out.correct, expect_ok);
        tutor.practice_queue.resolve(out.correct);
    }

    assert_eq!(tutor.total_answers, 4);
    assert_eq!(tutor.correct_answers, 2);
    assert_eq!(tutor.practice_queue.len(), 0);

    tutor.end_session(20);
    let report = tutor.update_progression();

    assert!(report.evaluated);
    assert!(!report.advanced);
    assert_eq!(tutor.config.difficulty_level, 1);
    assert!(tutor.config.known_chars.is_empty());
    // running accuracy after one session at 2/4 is 1/2
    assert_eq!((tutor.stats.accuracy.num, tutor.stats.accuracy.den), (1, 2));
    // T was presented three times but is listed once
    let last = tutor.stats.session_history.last().unwrap();
    assert_eq!(last.chars_practiced, vec!['E', 'T']);
}

/// A terminal word-mode profile draws ten distinct words
/// from the configured list of twenty.
#[test]
fn word_mode_seeds_ten_distinct_listed_words() {
    let mut words: Vec<String> = Vec::new();
    for i in 0..20 {
        words.push(format!("WORD{}", i));
    }
    let progression = ProgressionSystem { levels: Vec::new(), common_words: words.clone() };
    let config = AppConfig { difficulty_level: 9, session_duration: 1, known_chars: Vec::new() };
    let tutor = MorseTutor::new(config, UserStats::default(), progression);

    assert!(tutor.is_word_level);
    assert_eq!(tutor.practice_queue.len(), 10);
    let queued: Vec<String> = tutor.practice_queue.items.iter().cloned().collect();
    for (i, w) in queued.iter().enumerate() {
        assert!(words.contains(w));
        for other in queued.iter().skip(i + 1) {
            assert_ne!(w, other);
        }
    }
}

/// Word mode never queues more words than the list holds.
#[test]
fn short_word_lists_seed_whole() {
    let words = vec!["ONE".to_string(), "TWO".to_string(), "SIX".to_string()];
    let progression = ProgressionSystem { levels: Vec::new(), common_words: words };
    let config = AppConfig { difficulty_level: 9, session_duration: 1, known_chars: Vec::new() };
    let tutor = MorseTutor::new(config, UserStats::default(), progression);
    assert_eq!(tutor.practice_queue.len(), 3);
}

/// Quitting after one of five items still closes the
/// session with that one attempt on record.
#[test]
fn quit_after_one_item_keeps_the_partial_result() {
    let mut tutor = MorseTutor::new(fresh_profile(), UserStats::default(), scenario_progression());
    seed_items(&mut tutor, &['E', 'T', 'E', 'T', 'E']);
    tutor.start_session();

    let item = tutor.practice_queue.peek().unwrap();
    let out = tutor.practice_item(&item, ".", 200);
    assert!(out.correct);
    tutor.practice_queue.resolve(out.correct);

    // the learner quits here: no further items are processed
    tutor.end_session(3);

    assert_eq!(tutor.total_answers, 1);
    assert_eq!(tutor.correct_answers, 1);
    assert_eq!(tutor.practice_queue.len(), 4);
    assert_eq!(tutor.stats.sessions_completed, 1);
    let last = tutor.stats.session_history.last().unwrap();
    assert_eq!(last.duration, 3);
    assert_eq!((last.accuracy.num, last.accuracy.den), (1, 1));
    // the log lists what was practiced: the one presented symbol
    assert_eq!(last.chars_practiced, vec!['E']);
}

/// Symbol-mode seeding queues each known and current-tier symbol
/// exactly once; repetition comes only from retry-on-failure.
#[test]
fn symbol_mode_seeds_each_symbol_once() {
    let tutor = MorseTutor::new(fresh_profile(), UserStats::default(), scenario_progression());
    assert!(!tutor.is_word_level);
    assert_eq!(tutor.practice_queue.len(), 2);
    let mut e = 0;
    let mut t = 0;
    for item in tutor.practice_queue.items.iter() {
        if item == "E" {
            e += 1;
        } else if item == "T" {
            t += 1;
        }
    }
    assert_eq!(e, 1);
    assert_eq!(t, 1);
}

/// The session budget only limits gated symbol practice, in minutes.
#[test]
fn time_budget_checks_minutes_in_symbol_mode_only() {
    let tutor = MorseTutor::new(fresh_profile(), UserStats::default(), scenario_progression());
    assert!(!tutor.time_expired(60));
    assert!(tutor.time_expired(61));

    let config = AppConfig { difficulty_level: 9, session_duration: 1, known_chars: Vec::new() };
    let progression = ProgressionSystem { levels: Vec::new(), common_words: Vec::new() };
    let word_tutor = MorseTutor::new(config, UserStats::default(), progression);
    assert!(!word_tutor.time_expired(100000));
}

/// Response times are kept one per item, latest sample only.
#[test]
fn latest_response_time_per_symbol_is_kept() {
    let mut tutor = MorseTutor::new(fresh_profile(), UserStats::default(), scenario_progression());
    seed_items(&mut tutor, &['E', 'E']);
    tutor.start_session();

    let item = tutor.practice_queue.peek().unwrap();
    let out = tutor.practice_item(&item, ".", 700);
    tutor.practice_queue.resolve(out.correct);
    let item = tutor.practice_queue.peek().unwrap();
    let out = tutor.practice_item(&item, ".", 300);
    tutor.practice_queue.resolve(out.correct);

    assert_eq!(tutor.stats.response_times.len(), 1);
    assert_eq!(tutor.stats.response_times.pairs[0], ('E', 300));
    assert_eq!(tutor.stats.chars_learned, 2);
}

/// Passing the last gated tier switches the tutor into terminal word
/// practice and reseeds the queue from the word list.
#[test]
fn passing_the_last_tier_reaches_word_practice() {
    let config = AppConfig {
        difficulty_level: 8,
        session_duration: 1,
        known_chars: vec!['E', 'T', 'A'],
    };
    let mut tutor = MorseTutor::new(config, UserStats::default(), ProgressionSystem::new());
    assert!(!tutor.is_word_level);
    seed_items(&mut tutor, &['5']);
    tutor.start_session();

    let item = tutor.practice_queue.peek().unwrap();
    let out = tutor.practice_item(&item, ".....", 100);
    assert!(out.correct);
    tutor.practice_queue.resolve(out.correct);

    tutor.end_session(2);
    let report = tutor.update_progression();

    assert!(report.advanced);
    assert_eq!(report.new_level, 9);
    assert!(report.reached_word_level);
    assert!(tutor.is_word_level);
    assert_eq!(tutor.config.difficulty_level, 9);
    // the passed tier's digits join the known set
    for c in ['5', '6', '7', '8', '9'] {
        assert!(tutor.config.known_chars.contains(&c));
    }
    // the queue is reseeded for word practice from the built-in list
    assert_eq!(tutor.practice_queue.len(), 10);
}

/// Word practice scores whole words against their space-joined codes.
#[test]
fn word_mode_scores_whole_words() {
    let words = vec!["ET".to_string(), "SO".to_string()];
    let progression = ProgressionSystem { levels: Vec::new(), common_words: words };
    let config = AppConfig { difficulty_level: 9, session_duration: 1, known_chars: Vec::new() };
    let mut tutor = MorseTutor::new(config, UserStats::default(), progression);
    tutor.start_session();

    let mut v: Vec<String> = Vec::new();
    v.push("ET".to_string());
    tutor.practice_queue.seed(v);

    let item = tutor.practice_queue.peek().unwrap();
    let out = tutor.practice_item(&item, "- .", 400);
    assert!(!out.correct);
    assert_eq!(out.expected, ". -");
    tutor.practice_queue.resolve(out.correct);

    let item = tutor.practice_queue.peek().unwrap();
    let out = tutor.practice_item(&item, " . -  ", 500);
    assert!(out.correct);
    tutor.practice_queue.resolve(out.correct);

    assert_eq!(tutor.stats.words_learned, 2);
    assert_eq!(tutor.stats.word_response_times.len(), 1);
    assert_eq!(tutor.stats.word_response_times.pairs[0].0, "ET");
    assert_eq!(tutor.stats.word_response_times.pairs[0].1, 500);
    // word practice is never gated
    tutor.end_session(4);
    let report = tutor.update_progression();
    assert!(!report.evaluated);
    assert!(!report.advanced);
}

/// A session with zero attempts closes with accuracy exactly zero.
#[test]
fn empty_session_closes_with_zero_accuracy() {
    let mut tutor = MorseTutor::new(fresh_profile(), UserStats::default(), scenario_progression());
    tutor.start_session();
    tutor.end_session(1);
    assert_eq!(tutor.stats.sessions_completed, 1);
    let last = tutor.stats.session_history.last().unwrap();
    assert_eq!((last.accuracy.num, last.accuracy.den), (0, 1));
    assert!(last.chars_practiced.is_empty());
    assert_eq!((tutor.stats.accuracy.num, tutor.stats.accuracy.den), (0, 1));
}
