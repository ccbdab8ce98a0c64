use morse_tutor::progression::{
    builtin_words, sanitize_word_list, ProgressionLevel, ProgressionSystem,
};

#[test]
fn the_standard_table_has_eight_tiers() {
    let p = ProgressionSystem::new();
    assert_eq!(p.levels.len(), 8);
    for (i, l) in p.levels.iter().enumerate() {
        assert_eq!(l.level as usize, i + 1);
    }
    assert_eq!(p.levels[0].chars_to_learn, vec!['E', 'T']);
    assert_eq!(p.levels[0].speed_requirement_ms, 5000);
    assert_eq!(p.levels[0].accuracy_requirement_pct, 80);
    assert_eq!(p.levels[1].chars_to_learn, vec!['A', 'I', 'M', 'N']);
    assert_eq!(p.levels[7].chars_to_learn, vec!['5', '6', '7', '8', '9']);
    assert_eq!(p.levels[7].speed_requirement_ms, 2500);
    assert_eq!(p.levels[7].accuracy_requirement_pct, 95);
}

#[test]
fn find_level_looks_up_by_ordinal() {
    let p = ProgressionSystem::new();
    assert_eq!(p.find_level(1), Some(0));
    assert_eq!(p.find_level(8), Some(7));
    assert_eq!(p.find_level(9), None);
    assert_eq!(p.find_level(0), None);
}

#[test]
fn builtin_word_list_has_twenty_words() {
    let words = builtin_words();
    assert_eq!(words.len(), 20);
    assert_eq!(words[0], "THE");
    assert_eq!(words[19], "AT");
}

fn gate(pct: u32, speed_ms: u32) -> ProgressionLevel {
    ProgressionLevel {
        level: 1,
        chars_to_learn: vec!['E', 'T'],
        speed_requirement_ms: speed_ms,
        accuracy_requirement_pct: pct,
    }
}

#[test]
fn advancement_needs_both_gates() {
    let l = gate(80, 5000);
    // accuracy met, speed met
    assert!(l.evaluate_advancement(5, 5, 4000, 2));
    // accuracy met, speed missed
    assert!(!l.evaluate_advancement(5, 5, 12000, 2));
    // accuracy missed, speed met
    assert!(!l.evaluate_advancement(3, 5, 4000, 2));
    // both missed
    assert!(!l.evaluate_advancement(3, 5, 12000, 2));
}

#[test]
fn accuracy_boundary_is_inclusive() {
    let l = gate(80, 5000);
    // exactly 80% of 5: 4 correct
    assert!(l.evaluate_advancement(4, 5, 0, 0));
    assert!(!l.evaluate_advancement(3, 5, 0, 0));
}

#[test]
fn speed_boundary_is_inclusive() {
    let l = gate(0, 3000);
    // mean exactly at the bound: 3000ms over one sample
    assert!(l.evaluate_advancement(0, 0, 3000, 1));
    assert!(!l.evaluate_advancement(0, 0, 3001, 1));
    // mean over two samples
    assert!(l.evaluate_advancement(0, 0, 6000, 2));
    assert!(!l.evaluate_advancement(0, 0, 6001, 2));
}

#[test]
fn empty_session_meets_no_positive_accuracy_requirement() {
    let l = gate(80, 5000);
    assert!(!l.evaluate_advancement(0, 0, 0, 0));
    let free = gate(0, 5000);
    assert!(free.evaluate_advancement(0, 0, 0, 0));
}

#[test]
fn word_lists_are_cleaned_on_load() {
    let raw = vec![
        " the \n".to_string(),
        "BE".to_string(),
        "the".to_string(),
        "".to_string(),
        "   ".to_string(),
        "be".to_string(),
        "to".to_string(),
    ];
    let clean = sanitize_word_list(&raw);
    assert_eq!(clean, vec!["THE".to_string(), "BE".to_string(), "TO".to_string()]);
}
