use leonardo::index::{insert_entry, remove_entry};

const HEADER: &str = "<icons>";
const FOOTER: &str = "</icons>";

#[test]
fn insert_into_empty_interior() {
    let text = format!("{HEADER}\n{FOOTER}");
    let line = "    <icon drawable=\"@drawable/themed_icon_discord\" package=\"com.discord\" />";
    let out = insert_entry(&text, line).expect("insertion must succeed");
    assert_eq!(out, format!("{HEADER}\n{line}\n{FOOTER}"));
}

#[test]
fn insert_keeps_header_and_footer_and_sorts_case_insensitively() {
    let text = format!("{HEADER}\n    <icon B />\n    <icon d />\n{FOOTER}");
    let out = insert_entry(&text, "    <icon C />").expect("insertion must succeed");
    assert_eq!(
        out,
        format!("{HEADER}\n    <icon B />\n    <icon C />\n    <icon d />\n{FOOTER}")
    );
}

#[test]
fn insert_sorts_an_unsorted_interior() {
    let text = format!("{HEADER}\n    <icon d />\n    <icon B />\n{FOOTER}");
    let out = insert_entry(&text, "    <icon a />").expect("insertion must succeed");
    assert_eq!(
        out,
        format!("{HEADER}\n    <icon a />\n    <icon B />\n    <icon d />\n{FOOTER}")
    );
}

#[test]
fn insert_preserves_trailing_newline() {
    let text = format!("{HEADER}\n    <icon b />\n{FOOTER}\n");
    let out = insert_entry(&text, "    <icon a />").expect("insertion must succeed");
    assert_eq!(out, format!("{HEADER}\n    <icon a />\n    <icon b />\n{FOOTER}\n"));
}

#[test]
fn insert_rejects_too_short_text() {
    assert!(insert_entry("just-one-line", "    <icon a />").is_none());
}

#[test]
fn insert_rejects_line_with_newline() {
    let text = format!("{HEADER}\n{FOOTER}");
    assert!(insert_entry(&text, "two\nlines").is_none());
}

#[test]
fn round_trip_insert_then_remove_restores_file() {
    let text = format!("{HEADER}\n    <icon a />\n    <icon c />\n{FOOTER}\n");
    let line = "    <icon b />";
    let inserted = insert_entry(&text, line).expect("insertion must succeed");
    let removed = remove_entry(&inserted, line).expect("removal must succeed");
    assert_eq!(removed, text);
}

#[test]
fn remove_of_missing_line_is_none() {
    let text = format!("{HEADER}\n    <icon a />\n{FOOTER}");
    assert!(remove_entry(&text, "    <icon b />").is_none());
}

#[test]
fn remove_takes_first_matching_interior_line() {
    let text = format!("{HEADER}\n    <icon a />\n    <icon b />\n{FOOTER}");
    let out = remove_entry(&text, "    <icon a />").expect("removal must succeed");
    assert_eq!(out, format!("{HEADER}\n    <icon b />\n{FOOTER}"));
}

#[test]
fn header_and_footer_never_sort_into_interior() {
    // The header would sort after the entry and the footer before it if they
    // took part in the ordering.
    let text = "zzz-header\n    <icon m />\naaa-footer";
    let out = insert_entry(text, "    <icon a />").expect("insertion must succeed");
    assert_eq!(out, "zzz-header\n    <icon a />\n    <icon m />\naaa-footer");
}
