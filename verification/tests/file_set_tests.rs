use tess::file_set::{FileSet, FileSetError};

fn fs(names: &[&str]) -> FileSet {
    FileSet::new(names.iter().map(|s| s.to_string()).collect())
}

#[test]
fn new_with_paths_sets_current_zero() {
    let f = fs(&["a.log", "b.log", "c.log"]);
    assert_eq!(f.current_index(), 0);
    assert_eq!(f.current(), Some("a.log"));
}

#[test]
fn len_reports_total() {
    let f = fs(&["a.log", "b.log", "c.log"]);
    assert_eq!(f.len(), 3);
}

#[test]
fn next_advances_index() {
    let mut f = fs(&["a.log", "b.log", "c.log"]);
    assert_eq!(f.next().unwrap(), "b.log");
    assert_eq!(f.current_index(), 1);
    assert_eq!(f.next().unwrap(), "c.log");
    assert_eq!(f.current_index(), 2);
}

#[test]
fn next_at_last_returns_no_next_file_error() {
    let mut f = fs(&["a.log"]);
    assert_eq!(f.next().unwrap_err(), FileSetError::NoNextFile);
    assert_eq!(f.current_index(), 0);
}

#[test]
fn prev_decrements_index() {
    let mut f = fs(&["a.log", "b.log"]);
    f.next().unwrap();
    assert_eq!(f.prev().unwrap(), "a.log");
    assert_eq!(f.current_index(), 0);
}

#[test]
fn prev_at_first_returns_no_previous_file_error() {
    let mut f = fs(&["a.log", "b.log"]);
    assert_eq!(f.prev().unwrap_err(), FileSetError::NoPreviousFile);
    assert_eq!(f.current_index(), 0);
}

#[test]
fn first_resets_to_zero() {
    let mut f = fs(&["a.log", "b.log", "c.log"]);
    f.next().unwrap();
    f.next().unwrap();
    assert_eq!(f.first(), Some("a.log"));
    assert_eq!(f.current_index(), 0);
}

#[test]
fn last_jumps_to_count_minus_one() {
    let mut f = fs(&["a.log", "b.log", "c.log"]);
    assert_eq!(f.last(), Some("c.log"));
    assert_eq!(f.current_index(), 2);
}

#[test]
fn append_and_switch_grows_list_and_moves_cursor() {
    let mut f = fs(&["a.log"]);
    let new_path = f.append_and_switch("b.log".to_string()).to_string();
    assert_eq!(new_path, "b.log");
    assert_eq!(f.len(), 2);
    assert_eq!(f.current_index(), 1);
}

#[test]
fn delete_current_drops_entry_and_advances() {
    let mut f = fs(&["a.log", "b.log", "c.log"]);
    f.next().unwrap();
    let new_path = f.delete_current().unwrap().to_string();
    assert_eq!(new_path, "c.log");
    assert_eq!(f.len(), 2);
    assert_eq!(f.current_index(), 1);
}

#[test]
fn delete_current_at_end_moves_back() {
    let mut f = fs(&["a.log", "b.log"]);
    f.next().unwrap();
    let new_path = f.delete_current().unwrap().to_string();
    assert_eq!(new_path, "a.log");
    assert_eq!(f.len(), 1);
    assert_eq!(f.current_index(), 0);
}

#[test]
fn delete_current_at_start_stays_at_zero() {
    let mut f = fs(&["a.log", "b.log", "c.log"]);
    let new_path = f.delete_current().unwrap().to_string();
    assert_eq!(new_path, "b.log");
    assert_eq!(f.len(), 2);
    assert_eq!(f.current_index(), 0);
}

#[test]
fn delete_current_with_single_file_returns_would_empty_error() {
    let mut f = fs(&["a.log"]);
    assert_eq!(f.delete_current().unwrap_err(), FileSetError::WouldEmpty);
    assert_eq!(f.len(), 1);
}

#[test]
fn empty_fileset_returns_none_for_current() {
    let f = FileSet::new(Vec::new());
    assert_eq!(f.current(), None);
    assert!(f.is_empty());
    assert_eq!(f.len(), 0);
}

#[test]
fn set_current_index_changes_cursor() {
    let mut f = fs(&["a.log", "b.log", "c.log"]);
    f.set_current_index(2);
    assert_eq!(f.current(), Some("c.log"));
    f.set_current_index(99);
    assert_eq!(f.current_index(), 2);
}

#[test]
fn next_on_empty_returns_no_next_file_error() {
    let mut f = FileSet::new(Vec::new());
    assert_eq!(f.next().unwrap_err(), FileSetError::NoNextFile);
}

#[test]
fn prev_on_empty_returns_no_previous_file_error() {
    let mut f = FileSet::new(Vec::new());
    assert_eq!(f.prev().unwrap_err(), FileSetError::NoPreviousFile);
}

#[test]
fn file_set_error_messages() {
    assert_eq!(FileSetError::NoNextFile.message(), "no next file");
    assert_eq!(FileSetError::NoPreviousFile.message(), "no previous file");
    assert_eq!(FileSetError::WouldEmpty.message(), "cannot remove last file");
}

#[test]
fn next_then_prev_returns_to_start() {
    let mut f = fs(&["a.log", "b.log", "c.log"]);
    f.next().unwrap();
    f.prev().unwrap();
    assert_eq!(f.current_index(), 0);
    assert_eq!(f.current(), Some("a.log"));
}
