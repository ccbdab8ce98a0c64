use morse_tutor::encoder::{char_to_morse, char_string, encode_word, is_quit, normalize_answer, to_upper_char};

#[test]
fn single_letters_have_their_codes() {
    assert_eq!(char_to_morse('A'), Some(".-"));
    assert_eq!(char_to_morse('E'), Some("."));
    assert_eq!(char_to_morse('T'), Some("-"));
    assert_eq!(char_to_morse('Q'), Some("--.-"));
    assert_eq!(char_to_morse('Z'), Some("--.."));
}

#[test]
fn digits_have_their_codes() {
    assert_eq!(char_to_morse('0'), Some("-----"));
    assert_eq!(char_to_morse('1'), Some(".----"));
    assert_eq!(char_to_morse('5'), Some("....."));
    assert_eq!(char_to_morse('9'), Some("----."));
}

#[test]
fn lookup_is_case_insensitive() {
    assert_eq!(char_to_morse('a'), char_to_morse('A'));
    assert_eq!(char_to_morse('e'), char_to_morse('E'));
    assert_eq!(char_to_morse('z'), char_to_morse('Z'));
    for c in 'a'..='z' {
        let upper = to_upper_char(c);
        assert_eq!(char_to_morse(c), char_to_morse(upper));
    }
}

#[test]
fn unmapped_characters_have_no_code() {
    assert_eq!(char_to_morse('#'), None);
    assert_eq!(char_to_morse(' '), None);
    assert_eq!(char_to_morse('?'), None);
}

#[test]
fn word_code_joins_symbol_codes_with_spaces() {
    assert_eq!(encode_word("SOS"), "... --- ...");
    assert_eq!(encode_word("ET"), ". -");
    assert_eq!(encode_word("A"), ".-");
}

#[test]
fn word_encoding_is_case_insensitive() {
    assert_eq!(encode_word("sos"), encode_word("SOS"));
    assert_eq!(encode_word("The"), encode_word("THE"));
}

#[test]
fn unmappable_symbols_are_silently_skipped() {
    assert_eq!(encode_word("A#B"), ".- -...");
    assert_eq!(encode_word("AB C"), ".- -... -.-.");
    assert_eq!(encode_word("##"), "");
    assert_eq!(encode_word(""), "");
}

#[test]
fn answers_are_trimmed_and_uppercased() {
    assert_eq!(normalize_answer("  .-  \n"), ".-");
    assert_eq!(normalize_answer("\t- .\r\n"), "- .");
    assert_eq!(normalize_answer("abc"), "ABC");
    assert_eq!(normalize_answer("   "), "");
}

#[test]
fn quit_token_is_case_insensitive_q() {
    assert!(is_quit("q"));
    assert!(is_quit("Q"));
    assert!(is_quit("  q \n"));
    assert!(!is_quit("quit"));
    assert!(!is_quit(""));
    assert!(!is_quit(".-"));
}

#[test]
fn char_string_builds_one_character_items() {
    assert_eq!(char_string('E'), "E");
    assert_eq!(char_string('7'), "7");
}
