//! Language parsing, address building, and text cleanup.

use wordreference::Language;
use wordreference::request_path;
use wordreference::text::normalize_chars;
use wordreference::text::trim_chars;

#[test]
fn language_names_and_codes_parse() {
    assert_eq!(Language::parse("english"), Ok(Language::EN));
    assert_eq!(Language::parse("EN"), Ok(Language::EN));
    assert_eq!(Language::parse("Spanish"), Ok(Language::ES));
    assert_eq!(Language::parse("eS"), Ok(Language::ES));
    assert_eq!(Language::parse("fr"), Err(()));
    assert_eq!(Language::parse(""), Err(()));
}

#[test]
fn language_parses_through_from_str() {
    assert_eq!("SPANISH".parse::<Language>(), Ok(Language::ES));
    assert_eq!("en".parse::<Language>(), Ok(Language::EN));
    assert_eq!("deutsch".parse::<Language>(), Err(()));
}

#[test]
fn request_path_defaults_to_spanish_english() {
    assert_eq!(
        request_path("casa", None, None),
        "https://www.wordreference.com/es/en/translation.asp?spen=casa"
    );
}

#[test]
fn request_path_uses_given_languages() {
    assert_eq!(
        request_path("brick", Some("en".to_string()), Some("es".to_string())),
        "https://www.wordreference.com/en/es/translation.asp?spen=brick"
    );
}

#[test]
fn markup_normalization_rewrites_glyphs() {
    let v: Vec<char> = "a<br>b\u{21d2}c\u{24d8}d".chars().collect();
    let out: String = normalize_chars(&v).iter().collect();
    assert_eq!(out, "ab->cd");
}

#[test]
fn trimming_strips_both_ends_only() {
    let v: Vec<char> = " \t hola mundo \n".chars().collect();
    let out: String = trim_chars(&v).iter().collect();
    assert_eq!(out, "hola mundo");
    let blank: Vec<char> = "   ".chars().collect();
    assert_eq!(trim_chars(&blank).len(), 0);
}
