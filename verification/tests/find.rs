use cliutils::find::{
    entry_filename, select_name, select_type, selected, EntryPath, EntryType, FileName, Kind,
};
use cliutils::pattern::Pattern;

const DIR: Kind = Kind { is_dir: true, is_file: false, is_symlink: false };
const FILE: Kind = Kind { is_dir: false, is_file: true, is_symlink: false };
const LINK: Kind = Kind { is_dir: false, is_file: false, is_symlink: true };

fn patterns(sources: &[&str]) -> Option<Vec<Pattern>> {
    Some(sources.iter().map(|s| Pattern { source: s.to_string(), insensitive: false }).collect())
}

#[test]
fn entries_are_selected_by_type() {
    assert!(select_type(&DIR, &None));
    assert!(select_type(&FILE, &None));
    assert!(!select_type(&FILE, &Some(vec![])));
    assert!(select_type(&FILE, &Some(vec![EntryType::File])));
    assert!(!select_type(&FILE, &Some(vec![EntryType::Dir, EntryType::Link])));
    assert!(select_type(&LINK, &Some(vec![EntryType::Dir, EntryType::Link])));
    assert!(select_type(&DIR, &Some(vec![EntryType::File, EntryType::Dir])));
    assert!(!select_type(&DIR, &Some(vec![EntryType::File])));
}

#[test]
fn entries_are_selected_by_name() {
    assert!(select_name("a.txt", &None));
    assert!(!select_name("a.txt", &patterns(&[])));
    assert!(select_name("a.txt", &patterns(&[r".*\.txt"])));
    assert!(!select_name("a.txt", &patterns(&[r".*\.csv"])));
    assert!(select_name("a.txt", &patterns(&[r".*\.csv", "^a"])));
    assert!(!select_name("a.txt", &patterns(&["*.txt"])));
    assert!(select_name("a.txt", &patterns(&["*.txt", "txt"])));
    assert!(selected(&FILE, "a.txt", &Some(vec![EntryType::File]), &patterns(&["a"])));
    assert!(!selected(&DIR, "a.txt", &Some(vec![EntryType::File]), &patterns(&["a"])));
    assert!(!selected(&FILE, "b.txt", &Some(vec![EntryType::File]), &patterns(&["a"])));
    assert!(selected(&LINK, "b.txt", &None, &None));
}

#[test]
fn type_letters() {
    for t in [EntryType::Dir, EntryType::File, EntryType::Link] {
        assert_eq!(EntryType::from_value(&t.letter().to_string()), Some(t));
    }
    assert_eq!(EntryType::Dir.letter(), 'd');
    assert_eq!(EntryType::File.letter(), 'f');
    assert_eq!(EntryType::Link.letter(), 'l');
    assert_eq!(EntryType::from_value("x"), None);
    assert_eq!(EntryType::from_value(""), None);
    assert_eq!(EntryType::from_value("dd"), None);
}

fn path(shown: &str, name: Option<FileName>) -> EntryPath {
    EntryPath { shown: shown.to_string(), is_current: false, is_parent: false, file_name: name }
}

#[test]
fn names_of_entries() {
    let name = |text: &str| Some(FileName { shown: format!("{text:?}"), text: Some(text.to_string()) });
    assert_eq!(entry_filename(&path("\"a/b.txt\"", name("b.txt"))), Ok("b.txt".to_string()));
    let current = EntryPath { is_current: true, ..path("\".\"", None) };
    assert_eq!(entry_filename(&current), Ok(".".to_string()));
    let parent = EntryPath { is_parent: true, ..path("\"..\"", None) };
    assert_eq!(entry_filename(&parent), Ok("..".to_string()));
    assert_eq!(
        entry_filename(&path("\"a/..\"", None)),
        Err("Failed to get file_name from \"a/..\"".to_string())
    );
    let odd = Some(FileName { shown: "\"\\xFF\"".to_string(), text: None });
    assert_eq!(
        entry_filename(&path("\"a/\\xFF\"", odd)),
        Err("Failed to convert file_name \"\\xFF\" to str".to_string())
    );
}
