use journal_store::database::{EntryDB, PathConfig, ScannedFile};
use journal_store::errors::StoreError;
use journal_store::file_operations::{initial_file_text, Entry};

// A root that is never created on disk: the target paths then never exist,
// so creation is not derailed by leftover files.
fn fresh_store() -> EntryDB {
    let config = PathConfig::new("/tmp/journal_store_absent_root");
    let mut db = EntryDB::new_in_memory(config).unwrap();
    db.init_tables().unwrap();
    db
}

fn bare_entry(name: &str, number: Option<u32>) -> Entry {
    Entry {
        name: name.to_string(),
        path: format!("/tmp/journal_store_absent_root/entries/{}", name),
        number,
        entry_date: None,
        access_date: None,
    }
}

fn names_of(db: &EntryDB) -> Vec<String> {
    let mut names: Vec<String> = db.get_entries().unwrap().into_iter().map(|e| e.name).collect();
    names.sort();
    names
}

#[test]
fn next_number_on_empty_index_is_one() {
    let db = fresh_store();
    assert_eq!(db.next_number().unwrap(), 1);
}

#[test]
fn next_number_is_one_past_the_largest() {
    let mut db = fresh_store();
    for n in [2u32, 5, 1] {
        let name = format!("Entry_{}.txt", n);
        db.add_entry_to_db(&bare_entry(&name, Some(n))).unwrap();
    }
    assert_eq!(db.next_number().unwrap(), 6);
}

#[test]
fn next_number_ignores_number_less_entries() {
    let mut db = fresh_store();
    db.add_entry_to_db(&bare_entry("notes.txt", None)).unwrap();
    assert_eq!(db.next_number().unwrap(), 1);
}

#[test]
fn operations_fail_before_the_schema_exists() {
    let config = PathConfig::new("/tmp/journal_store_absent_root");
    let db = EntryDB::new_in_memory(config).unwrap();
    assert_eq!(db.next_number(), Err(StoreError::IndexUnavailable));
    assert_eq!(db.get_entries().unwrap_err(), StoreError::IndexUnavailable);
}

#[test]
fn create_roundtrip_lists_one_fresh_entry() {
    let mut db = fresh_store();
    let next = db.next_number().unwrap();
    let entry = db.create_default_entry().unwrap();
    assert_eq!(entry.number, Some(next));
    assert_eq!(entry.name.as_str(), "Entry_1.txt");
    assert_eq!(
        entry.path.as_str(),
        "/tmp/journal_store_absent_root/entries/Entry_1.txt"
    );
    let listed = db.get_entries().unwrap();
    assert_eq!(listed.len(), 1);
    assert_eq!(listed[0].name.as_str(), "Entry_1.txt");
    assert_eq!(listed[0].number, Some(next));
    // the first line of the file the shell is to write parses back to the
    // stored creation date
    let text = initial_file_text(entry.entry_string().as_str());
    let first_line = text.lines().next().unwrap();
    let parsed = chrono::DateTime::parse_from_rfc2822(first_line).unwrap();
    assert_eq!(parsed.timestamp(), entry.entry_date.as_ref().unwrap().epoch);
    assert_eq!(
        parsed.timestamp(),
        chrono::DateTime::parse_from_rfc2822(listed[0].entry_string().as_str())
            .unwrap()
            .timestamp()
    );
}

#[test]
fn next_number_follows_the_maximum_of_what_remains() {
    let mut db = fresh_store();
    let a = db.create_default_entry().unwrap();
    let b = db.create_default_entry().unwrap();
    assert_eq!(a.number, Some(1));
    assert_eq!(b.number, Some(2));
    // the next number is always one past the largest stored number, so it
    // climbs while entries stay, and follows the maximum down when the
    // largest entry is deleted
    db.delete_entry(&b).unwrap();
    assert_eq!(db.next_number().unwrap(), 2);
}

#[test]
fn create_custom_has_no_number() {
    let mut db = fresh_store();
    let entry = db.create_custom_entry("reading-list").unwrap();
    assert_eq!(entry.number, None);
    assert_eq!(entry.name.as_str(), "reading-list");
    assert!(entry.entry_date.is_some());
    let listed = db.get_entries().unwrap();
    assert_eq!(listed.len(), 1);
    assert_eq!(listed[0].number, None);
}

#[test]
fn create_collides_on_an_existing_row() {
    let mut db = fresh_store();
    db.create_custom_entry("a").unwrap();
    assert_eq!(db.create_custom_entry("a").unwrap_err(), StoreError::NameCollision);
    assert_eq!(names_of(&db), ["a"]);
}

#[test]
fn delete_removes_row_and_reports_absence() {
    let mut db = fresh_store();
    let entry = db.create_custom_entry("gone").unwrap();
    db.delete_entry(&entry).unwrap();
    assert!(db.get_entries().unwrap().is_empty());
    // deleting again fails cleanly instead of panicking
    assert_eq!(db.delete_entry(&entry).unwrap_err(), StoreError::MissingEntry);
}

#[test]
fn rename_moves_row_and_entry() {
    let mut db = fresh_store();
    let mut entry = db.create_custom_entry("old-name").unwrap();
    db.change_name(&mut entry, "new-name").unwrap();
    assert_eq!(entry.name.as_str(), "new-name");
    assert_eq!(
        entry.path.as_str(),
        "/tmp/journal_store_absent_root/entries/new-name"
    );
    assert_eq!(names_of(&db), ["new-name"]);
}

#[test]
fn rename_to_a_taken_name_fails_and_changes_nothing() {
    let mut db = fresh_store();
    let mut e1 = db.create_custom_entry("e1").unwrap();
    db.create_custom_entry("x").unwrap();
    db.change_name(&mut e1, "x").unwrap_err();
    let mut e2 = db.create_custom_entry("e2").unwrap();
    db.change_name(&mut e2, "x").unwrap_err();
    // renaming to the pre-existing name fails with a conflict and the
    // entry set is unchanged, however often it is retried
    assert_eq!(db.change_name(&mut e2, "x").unwrap_err(), StoreError::RenameConflict);
    assert_eq!(e2.name.as_str(), "e2");
    assert_eq!(names_of(&db), ["e1", "e2", "x"]);
}

#[test]
fn touch_access_persists_and_is_idempotent() {
    let mut db = fresh_store();
    let mut entry = db.create_custom_entry("touched").unwrap();
    db.update_entry_access_date(&mut entry).unwrap();
    let first = entry.access_date.as_ref().unwrap().epoch;
    db.update_entry_access_date(&mut entry).unwrap();
    let second = entry.access_date.as_ref().unwrap().epoch;
    assert!(second >= first);
    let listed = db.get_entries().unwrap();
    let stamp = listed[0].access_date.as_ref().unwrap();
    assert_eq!(
        chrono::DateTime::parse_from_rfc2822(stamp.raw.as_str()).unwrap().timestamp(),
        second
    );
}

#[test]
fn tags_create_once_and_associate_once() {
    let mut db = fresh_store();
    let entry = db.create_custom_entry("tagged").unwrap();
    db.add_tag("travel").unwrap();
    assert_eq!(db.add_tag("travel").unwrap_err(), StoreError::NameCollision);
    db.assign_tag(&entry, "travel").unwrap();
    assert_eq!(
        db.assign_tag(&entry, "travel").unwrap_err(),
        StoreError::DuplicateAssociation
    );
    // a fresh tag is created on the way
    db.assign_tag(&entry, "food").unwrap();
    assert_eq!(db.assign_tag(&entry, "food").unwrap_err(), StoreError::DuplicateAssociation);
}

#[test]
fn assign_tag_needs_the_entry_row() {
    let mut db = fresh_store();
    let ghost = bare_entry("never-created", None);
    assert_eq!(db.assign_tag(&ghost, "travel").unwrap_err(), StoreError::MissingEntry);
}

#[test]
fn deleting_an_entry_drops_its_associations() {
    let mut db = fresh_store();
    let entry = db.create_custom_entry("short-lived").unwrap();
    db.assign_tag(&entry, "travel").unwrap();
    db.delete_entry(&entry).unwrap();
    let entry2 = db.create_custom_entry("short-lived").unwrap();
    // were the association still there, re-assigning would be a duplicate
    db.assign_tag(&entry2, "travel").unwrap();
}

#[test]
fn renaming_an_entry_carries_its_associations() {
    let mut db = fresh_store();
    let mut entry = db.create_custom_entry("before").unwrap();
    db.assign_tag(&entry, "travel").unwrap();
    db.change_name(&mut entry, "after").unwrap();
    // the association followed the rename, so assigning again under the
    // new name is a duplicate
    assert_eq!(
        db.assign_tag(&entry, "travel").unwrap_err(),
        StoreError::DuplicateAssociation
    );
}

#[test]
fn rebuild_numbers_and_sorts_scanned_files() {
    let mut db = fresh_store();
    let files = vec![
        ScannedFile { name: "notes.txt".to_string(), first_line: None },
        ScannedFile {
            name: "Entry_3.txt".to_string(),
            first_line: Some("Wed, 18 Feb 2015 23:16:09 GMT".to_string()),
        },
        ScannedFile { name: "Entry_1.txt".to_string(), first_line: Some("not a date".to_string()) },
    ];
    let report = db.rebuild_database(&files).unwrap();
    let numbers: Vec<Option<u32>> = report.iter().map(|(e, _)| e.number).collect();
    assert_eq!(numbers, [Some(1), Some(3), None]);
    assert!(report.iter().all(|(_, inserted)| *inserted));
    let e3 = report.iter().find(|(e, _)| e.name.as_str() == "Entry_3.txt").unwrap();
    assert_eq!(e3.0.entry_date.as_ref().unwrap().epoch, 1424301369);
    let e1 = report.iter().find(|(e, _)| e.name.as_str() == "Entry_1.txt").unwrap();
    assert!(e1.0.entry_date.is_none());
    assert_eq!(names_of(&db), ["Entry_1.txt", "Entry_3.txt", "notes.txt"]);
}

#[test]
fn rebuild_against_nonempty_index_reports_conflicts_per_row() {
    let mut db = fresh_store();
    db.add_entry_to_db(&bare_entry("Entry_1.txt", Some(1))).unwrap();
    let files = vec![
        ScannedFile { name: "Entry_1.txt".to_string(), first_line: None },
        ScannedFile { name: "1_copy.txt".to_string(), first_line: None },
        ScannedFile { name: "notes.txt".to_string(), first_line: None },
    ];
    let report = db.rebuild_database(&files).unwrap();
    // sorted by number: Entry_1 and 1_copy both carry number 1
    assert_eq!(report.len(), 3);
    // the name conflict and the number conflict are reported, the rest inserted
    let by_name = |n: &str| report.iter().find(|(e, _)| e.name.as_str() == n).unwrap().1;
    assert!(!by_name("Entry_1.txt"));
    assert!(!by_name("1_copy.txt"));
    assert!(by_name("notes.txt"));
    assert_eq!(names_of(&db), ["Entry_1.txt", "notes.txt"]);
}
