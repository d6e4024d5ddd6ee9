use core::cmp::Ordering;
use journal_store::database::PathConfig;
use journal_store::file_operations::{
    compare_filenames, default_name_string, extract_number, initial_file_text,
};
use journal_store::numerals::u32_to_string;

#[test]
fn extract_number_returns_first_digit_run() {
    assert_eq!(extract_number("Entry_12.txt"), Some(12));
    assert_eq!(extract_number("notes.txt"), None);
    assert_eq!(extract_number("a1b2.txt"), Some(1));
}

#[test]
fn extract_number_edges() {
    assert_eq!(extract_number(""), None);
    assert_eq!(extract_number("007.txt"), Some(7));
    assert_eq!(extract_number("42"), Some(42));
    assert_eq!(extract_number("x4294967295y"), Some(4294967295));
    // a run too large for u32 counts as no number
    assert_eq!(extract_number("99999999999.txt"), None);
    assert_eq!(extract_number("x4294967296"), None);
}

#[test]
fn compare_filenames_numbered_after_plain() {
    assert_eq!(compare_filenames("Entry_2.txt", "notes.txt"), Ordering::Greater);
    assert_eq!(compare_filenames("notes.txt", "Entry_2.txt"), Ordering::Less);
}

#[test]
fn compare_filenames_numeric_not_lexicographic() {
    assert_eq!(compare_filenames("Entry_2.txt", "Entry_10.txt"), Ordering::Less);
    assert_eq!(compare_filenames("Entry_10.txt", "Entry_2.txt"), Ordering::Greater);
    assert_eq!(compare_filenames("Entry_3.txt", "Page_3.txt"), Ordering::Equal);
}

#[test]
fn compare_filenames_plain_names_lexicographic() {
    assert_eq!(compare_filenames("abc", "abd"), Ordering::Less);
    assert_eq!(compare_filenames("abd", "abc"), Ordering::Greater);
    assert_eq!(compare_filenames("abc", "abc"), Ordering::Equal);
    assert_eq!(compare_filenames("ab", "abc"), Ordering::Less);
}

#[test]
fn u32_rendering_is_decimal() {
    assert_eq!(u32_to_string(0).as_str(), "0");
    assert_eq!(u32_to_string(7).as_str(), "7");
    assert_eq!(u32_to_string(120).as_str(), "120");
    assert_eq!(u32_to_string(4294967295).as_str(), "4294967295");
}

#[test]
fn default_names_follow_the_scheme() {
    assert_eq!(default_name_string(1).as_str(), "Entry_1.txt");
    assert_eq!(default_name_string(12).as_str(), "Entry_12.txt");
    assert_eq!(extract_number(default_name_string(37).as_str()), Some(37));
}

#[test]
fn path_config_lays_out_the_journal() {
    let config = PathConfig::new("/home/someone/journal");
    assert_eq!(config.db.as_str(), "/home/someone/journal/db.sqlite");
    assert_eq!(config.entry_dir.as_str(), "/home/someone/journal/entries");
    assert_eq!(config.main_dir.as_str(), "/home/someone/journal");
    assert_eq!(
        config.get_entry_path("Entry_1.txt").as_str(),
        "/home/someone/journal/entries/Entry_1.txt"
    );
}

#[test]
fn initial_text_is_date_blank_separator() {
    let text = initial_file_text("Wed, 18 Feb 2015 23:16:09 GMT");
    let mut lines = text.lines();
    assert_eq!(lines.next(), Some("Wed, 18 Feb 2015 23:16:09 GMT"));
    assert_eq!(lines.next(), Some(""));
    let sep = lines.next().unwrap();
    assert_eq!(sep.len(), 118);
    assert!(sep.chars().all(|c| c == '='));
    assert_eq!(lines.next(), None);
    assert!(text.ends_with('\n'));
}
