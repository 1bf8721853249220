use lazy_transform_str::Cow;
use lazy_transform_str::KeepUnchanged;
use lazy_transform_str::Transform;
use lazy_transform_str::escape_double_quotes;
use lazy_transform_str::transform;
use lazy_transform_str::unescape_backslashed_verbatim;

#[test]
fn keep_unchanged_borrows_input() {
    let out = transform("abc", KeepUnchanged);
    assert!(out.is_borrowed());
    assert_eq!(out.as_str(), "abc");
    assert_eq!(out, Cow::Borrowed("abc"));
}

#[test]
fn escape_quoted_word() {
    let input = r#"a "quoted" word"#;
    let out = escape_double_quotes(input);
    assert!(!out.is_borrowed());
    assert_eq!(out.as_str(), r#"a \"quoted\" word"#);
    assert_eq!(out, Cow::Owned(String::from(r#"a \"quoted\" word"#)));
}

#[test]
fn unescape_twice_reduces_double_backslash() {
    let input = r#"A \"quoted\" word\\!"#;
    let once = unescape_backslashed_verbatim(input);
    assert!(!once.is_borrowed());
    assert_eq!(once.as_str(), r#"A "quoted" word\!"#);
    let twice = unescape_backslashed_verbatim(once.as_str());
    assert!(!twice.is_borrowed());
    assert_eq!(twice.as_str(), r#"A "quoted" word!"#);
}

#[test]
fn empty_input_is_borrowed_and_untouched() {
    let out = transform("", KeepUnchanged);
    assert!(out.is_borrowed());
    assert_eq!(out.as_str(), "");
    let out = escape_double_quotes("");
    assert!(out.is_borrowed());
    assert_eq!(out.as_str(), "");
    let out = unescape_backslashed_verbatim("");
    assert!(out.is_borrowed());
    assert_eq!(out.as_str(), "");
}

#[test]
fn escape_without_quotes_is_borrowed() {
    let out = escape_double_quotes("bcd");
    assert!(out.is_borrowed());
    assert_eq!(out.as_str(), "bcd");
    assert_eq!(out, Cow::Borrowed("bcd"));
}

#[test]
fn escape_method_on_str() {
    let input = r#"a "quoted" word"#;
    let out = input.transform(lazy_transform_str::EscapeDoubleQuotes);
    assert_eq!(out.as_str(), r#"a \"quoted\" word"#);
    assert_eq!(out, Cow::Owned(String::from(r#"a \"quoted\" word"#)));
}

#[test]
fn unescape_restores_escaped_text() {
    let samples = ["", "plain", r#"a "quoted" word"#, r#"back\slash"#, r#"\\""#, "mixed \"and\\ more\""];
    for s in samples {
        let escaped = escape_double_quotes(s);
        let restored = unescape_backslashed_verbatim(escaped.as_str());
        assert_eq!(restored.as_str(), s);
    }
}

#[test]
fn unescape_keeps_escaped_backslash_literal() {
    let out = unescape_backslashed_verbatim(r#"\\n"#);
    assert_eq!(out.as_str(), r#"\n"#);
}

#[test]
fn escape_handles_leading_and_trailing_specials() {
    let out = escape_double_quotes(r#""ab\"#);
    assert_eq!(out.as_str(), r#"\"ab\\"#);
}

#[test]
fn unescape_without_backslash_is_borrowed() {
    let out = unescape_backslashed_verbatim(r#"no escapes "here""#);
    assert!(out.is_borrowed());
    assert_eq!(out.as_str(), r#"no escapes "here""#);
}

#[test]
fn cow_equality_minds_tag_and_text() {
    let borrowed = transform("abc", KeepUnchanged);
    assert_eq!(borrowed, Cow::Borrowed("abc"));
    assert!(borrowed != Cow::Owned(String::from("abc")));
    assert!(borrowed != Cow::Borrowed("abd"));
    let owned = escape_double_quotes("\"");
    assert_eq!(owned, Cow::Owned(String::from("\\\"")));
    assert!(owned != Cow::Borrowed("\\\""));
}

#[test]
fn unicode_text_passes_through() {
    let out = escape_double_quotes("héllo \u{1F600} \"wörld\"");
    assert_eq!(out.as_str(), "héllo \u{1F600} \\\"wörld\\\"");
    let back = unescape_backslashed_verbatim(out.as_str());
    assert_eq!(back.as_str(), "héllo \u{1F600} \"wörld\"");
}
