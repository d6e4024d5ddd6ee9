use journal_store::dates::DateStamp;
use journal_store::file_operations::{
    get_entry, get_last_accessed, sort_entries_by_date, sort_entries_by_number, Entry,
};

fn plain(name: &str, number: Option<u32>) -> Entry {
    Entry {
        name: name.to_string(),
        path: format!("/j/entries/{}", name),
        number,
        entry_date: None,
        access_date: None,
    }
}

fn stamp(raw: &str, epoch: i64) -> DateStamp {
    DateStamp { raw: raw.to_string(), epoch }
}

#[test]
fn sort_by_number_puts_numbered_first_ascending() {
    let mut v = vec![plain("c", None), plain("b", Some(3)), plain("a", Some(1))];
    sort_entries_by_number(&mut v);
    let names: Vec<&str> = v.iter().map(|e| e.name.as_str()).collect();
    assert_eq!(names, ["a", "b", "c"]);
    assert_eq!(v[0].number, Some(1));
    assert_eq!(v[1].number, Some(3));
    assert_eq!(v[2].number, None);
}

#[test]
fn sort_by_number_is_stable_on_ties() {
    let mut v = vec![
        plain("first", None),
        plain("x", Some(2)),
        plain("second", None),
        plain("y", Some(2)),
    ];
    sort_entries_by_number(&mut v);
    let names: Vec<&str> = v.iter().map(|e| e.name.as_str()).collect();
    assert_eq!(names, ["x", "y", "first", "second"]);
}

#[test]
fn sort_by_date_puts_dated_first_chronological() {
    let mut v = vec![plain("undated", None), plain("late", None), plain("early", None)];
    v[1].entry_date = Some(stamp("later", 200));
    v[2].entry_date = Some(stamp("earlier", 100));
    sort_entries_by_date(&mut v, false);
    let names: Vec<&str> = v.iter().map(|e| e.name.as_str()).collect();
    assert_eq!(names, ["early", "late", "undated"]);
}

#[test]
fn sort_by_date_uses_the_selected_key() {
    let mut v = vec![plain("a", None), plain("b", None)];
    v[0].entry_date = Some(stamp("d1", 100));
    v[0].access_date = Some(stamp("d2", 900));
    v[1].entry_date = Some(stamp("d3", 200));
    v[1].access_date = Some(stamp("d4", 300));
    sort_entries_by_date(&mut v, true);
    let names: Vec<&str> = v.iter().map(|e| e.name.as_str()).collect();
    assert_eq!(names, ["b", "a"]);
}

#[test]
fn last_accessed_picks_the_latest_access() {
    let mut a = plain("a", None);
    let mut b = plain("b", None);
    let c = plain("c", None);
    a.access_date = Some(stamp("older", 100));
    b.access_date = Some(stamp("newer", 500));
    let r = get_last_accessed(vec![a, b, c]).unwrap();
    assert_eq!(r.name.as_str(), "b");
}

#[test]
fn last_accessed_breaks_ties_toward_the_later_entry() {
    let mut a = plain("a", None);
    let mut b = plain("b", None);
    a.access_date = Some(stamp("same", 100));
    b.access_date = Some(stamp("same", 100));
    let r = get_last_accessed(vec![a, b]).unwrap();
    assert_eq!(r.name.as_str(), "b");
}

#[test]
fn last_accessed_is_absent_without_access_dates() {
    assert!(get_last_accessed(vec![plain("a", None), plain("b", Some(1))]).is_none());
    assert!(get_last_accessed(Vec::new()).is_none());
}

#[test]
fn get_entry_finds_by_name() {
    let v = vec![plain("a", None), plain("b", Some(2)), plain("c", None)];
    let found = get_entry(v, "b").unwrap();
    assert_eq!(found.number, Some(2));
    let v2 = vec![plain("a", None)];
    assert!(get_entry(v2, "missing").is_none());
}
