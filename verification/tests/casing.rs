use markov_names::{capitalize_each_substring, capitalize_string, split_on};

#[test]
fn capitalize_empty_string() {
    assert_eq!(capitalize_string(""), "");
}

#[test]
fn capitalize_lower_case_word() {
    assert_eq!(capitalize_string("abc"), "Abc");
}

#[test]
fn capitalize_capitalized_word() {
    assert_eq!(capitalize_string("Abc"), "Abc");
}

#[test]
fn capitalize_twice_is_capitalize_once() {
    let once = capitalize_string("gianni");
    assert_eq!(capitalize_string(&once), once);
}

#[test]
fn capitalize_leaves_the_rest_alone() {
    assert_eq!(capitalize_string("hELLO wORLD"), "HELLO wORLD");
    assert_eq!(capitalize_string("hi Who"), "Hi Who");
}

#[test]
fn capitalize_goes_by_character_not_byte() {
    assert_eq!(capitalize_string("ñandu"), "Ñandu");
    assert_eq!(capitalize_string("élan"), "Élan");
}

#[test]
fn capitalize_may_lengthen_the_text() {
    assert_eq!(capitalize_string("ßa"), "SSa");
}

#[test]
fn capitalize_without_upper_case_form() {
    assert_eq!(capitalize_string("1abc"), "1abc");
    assert_eq!(capitalize_string(" abc"), " abc");
    assert_eq!(capitalize_string("こんにちは"), "こんにちは");
}

#[test]
fn capitalize_substring_correct_separator_spaces() {
    assert_eq!(String::from("Hi Who Are You"), capitalize_each_substring("hi who are you", " "));
}

#[test]
fn capitalize_substring_correct_separator_semicolons() {
    assert_eq!(String::from("Hi;Who;Are;You"), capitalize_each_substring("hi;who;are;you", ";"));
}

#[test]
fn capitalize_substring_correct_separator_mixed() {
    assert_eq!(String::from("Hi who;Are you"), capitalize_each_substring("hi who;are you", ";"));
}

#[test]
fn capitalize_substring_correct_separator_some_substring_already_capitalized_spaces() {
    assert_eq!(String::from("Hi Who Are You"), capitalize_each_substring("hi Who are you", " "));
}

#[test]
fn capitalize_substring_correct_separator_some_substring_already_capitalized_semicolons() {
    assert_eq!(String::from("Hi;Who;Are;You"), capitalize_each_substring("hi;who;Are;you", ";"));
}

#[test]
fn capitalize_substring_wrong_separator_semicolon() {
    assert_eq!(String::from("Hi who are you"), capitalize_each_substring("hi who are you", ";"));
}

#[test]
fn capitalize_substring_wrong_separator_space() {
    assert_eq!(String::from("Hi;who;are;you"), capitalize_each_substring("hi;who;are;you", " "));
}

#[test]
fn capitalize_substring_wrong_separator_keeps_capitals() {
    assert_eq!(String::from("Hi Who are you"), capitalize_each_substring("hi Who are you", ";"));
    assert_eq!(String::from("Hi;who;Are;you"), capitalize_each_substring("hi;who;Are;you", " "));
}

#[test]
fn capitalize_substring_keeps_empty_parts() {
    assert_eq!(capitalize_each_substring("a,,b,", ","), "A,,B,");
    assert_eq!(capitalize_each_substring(",a", ","), ",A");
    assert_eq!(capitalize_each_substring("", ","), "");
}

#[test]
fn capitalize_substring_long_separator() {
    assert_eq!(capitalize_each_substring("anna -- bob -- carl", " -- "), "Anna -- Bob -- Carl");
}

#[test]
fn capitalize_substring_empty_separator() {
    assert_eq!(capitalize_each_substring("abc", ""), "ABC");
    assert_eq!(capitalize_each_substring("", ""), "");
}

#[test]
fn capitalize_substring_is_idempotent_on_capitals() {
    let once = capitalize_each_substring("hi who are you", " ");
    assert_eq!(capitalize_each_substring(&once, " "), once);
}

#[test]
fn capitalize_substring_changes_first_characters_only() {
    let capital = capitalize_each_substring("one two", " ");
    assert_eq!(split_on(&capital, " ").len(), 2);
    assert_eq!(&capital[1..3], "ne");
    assert_eq!(&capital[5..7], "wo");
}
