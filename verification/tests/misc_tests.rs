use tess::diff::{align, pairs_from_ops, DiffClass, DiffPair, EditOp};
use tess::git::{blob_outcome, classify, show_spec, BlobOutcome, FailKind, GitFile};
use tess::layout::{check_section, parse_header_spec, parse_tab_stops, SectionFlags};

#[test]
fn classify_not_in_head() {
    assert!(matches!(classify("fatal: path 'foo.rs' does not exist in 'HEAD'"), FailKind::NotInHead));
    assert!(matches!(classify("fatal: path 'x' exists on disk, but not in 'HEAD'"), FailKind::NotInHead));
}

#[test]
fn classify_no_commits() {
    assert!(matches!(classify("fatal: bad revision 'HEAD'"), FailKind::NoCommits));
    assert!(matches!(classify("fatal: ambiguous argument 'HEAD': unknown revision"), FailKind::NoCommits));
}

#[test]
fn classify_other() {
    assert!(matches!(classify("fatal: something unexpected"), FailKind::Other));
}

#[test]
fn blob_outcome_maps_results() {
    let f = GitFile { repo_root: "/r".into(), rel_path: "a.txt".into() };
    let spec = show_spec(&f);
    assert_eq!(spec, "HEAD:a.txt");
    assert!(matches!(blob_outcome(&spec, true, b"v1\n".to_vec(), ""), Ok(BlobOutcome::Bytes(b)) if b == b"v1\n"));
    assert!(matches!(blob_outcome(&spec, false, Vec::new(), "fatal: path 'a' does not exist in 'HEAD'"), Ok(BlobOutcome::NotInHead)));
    assert_eq!(blob_outcome(&spec, false, Vec::new(), "  boom \n").unwrap_err(), "git show HEAD:a.txt: boom");
}

#[test]
fn parse_tab_stops_accepts_ascending_list() {
    assert_eq!(parse_tab_stops("4,8,16").unwrap(), vec![4, 8, 16]);
    assert_eq!(parse_tab_stops("4").unwrap(), vec![4]);
}

#[test]
fn parse_tab_stops_rejects_bad_input() {
    assert!(parse_tab_stops("").is_err());
    assert!(parse_tab_stops("0").is_err());
    assert!(parse_tab_stops("4,x").is_err());
    assert!(parse_tab_stops("8,4").is_err());
    assert!(parse_tab_stops("4,4").is_err());
}

#[test]
fn parse_tab_stops_trims_pieces() {
    assert_eq!(parse_tab_stops(" 4 , 8").unwrap(), vec![4, 8]);
    assert_eq!(parse_tab_stops("4,x").unwrap_err(), "--tabs: invalid number `x`");
}

#[test]
fn parse_header_spec_forms() {
    assert_eq!(parse_header_spec("3").unwrap(), (3, 0));
    assert_eq!(parse_header_spec("3,2").unwrap(), (3, 2));
    assert_eq!(parse_header_spec("x").unwrap_err(), "--header: not a number `x`");
    assert_eq!(parse_header_spec("1,y").unwrap_err(), "--header: bad C `y`");
    assert_eq!(parse_header_spec("1,2,3").unwrap_err(), "--header takes L or L,C");
    // A missing field is 0.
    assert_eq!(parse_header_spec("5,").unwrap(), (5, 0));
    assert_eq!(parse_header_spec(",3").unwrap(), (0, 3));
    assert_eq!(parse_header_spec(",").unwrap(), (0, 0));
    assert_eq!(parse_header_spec("").unwrap(), (0, 0));
}

fn section(file: Option<&str>) -> SectionFlags {
    SectionFlags {
        file: file.map(|s| s.to_string()),
        has_filter: false,
        has_format: false,
        has_display: false,
        has_or_flags: false,
        ignore_case: false,
        ignore_case_always: false,
    }
}

#[test]
fn sections_missing_file_errs() {
    let err = check_section(0, &section(None));
    assert!(err.is_err());
    assert_eq!(err.unwrap_err(), "pane 2: no file given");
}

#[test]
fn sections_filter_without_format_errs() {
    let s = SectionFlags { has_filter: true, ..section(Some("a.txt")) };
    assert_eq!(check_section(1, &s).unwrap_err(), "pane 3: --filter requires --format");
}

#[test]
fn sections_or_flags_rejected() {
    let s = SectionFlags { has_or_flags: true, ..section(Some("a.txt")) };
    assert!(check_section(0, &s).is_err());
    assert!(check_section(0, &section(Some("a.txt"))).is_ok());
}

#[test]
fn both_empty_is_empty() {
    assert!(align(&[], &[]).is_empty());
}

fn classes(p: &[DiffPair]) -> Vec<DiffClass> {
    p.iter().map(|x| x.class).collect()
}

#[test]
fn identical_files_are_all_equal() {
    let a = [1u64, 2, 3];
    let pairs = align(&a, &a);
    assert_eq!(pairs.len(), 3);
    assert!(pairs.iter().all(|p| p.class == DiffClass::Equal));
    assert_eq!(pairs[0], DiffPair { left: Some(0), right: Some(0), class: DiffClass::Equal });
    assert_eq!(pairs[2], DiffPair { left: Some(2), right: Some(2), class: DiffClass::Equal });
}

#[test]
fn pure_insertion_on_right() {
    let pairs = align(&[1u64, 3], &[1u64, 2, 3]);
    assert_eq!(classes(&pairs), vec![DiffClass::Equal, DiffClass::Added, DiffClass::Equal]);
    let added = pairs.iter().find(|p| p.class == DiffClass::Added).unwrap();
    assert_eq!(added.left, None);
    assert_eq!(added.right, Some(1));
}

#[test]
fn pure_deletion_on_left() {
    let pairs = align(&[1u64, 2, 3], &[1u64, 3]);
    assert_eq!(classes(&pairs), vec![DiffClass::Equal, DiffClass::Removed, DiffClass::Equal]);
    let removed = pairs.iter().find(|p| p.class == DiffClass::Removed).unwrap();
    assert_eq!(removed.left, Some(1));
    assert_eq!(removed.right, None);
}

#[test]
fn one_for_one_change_is_changed() {
    let pairs = align(&[1u64, 8, 3], &[1u64, 9, 3]);
    assert_eq!(classes(&pairs), vec![DiffClass::Equal, DiffClass::Changed, DiffClass::Equal]);
    let ch = pairs.iter().find(|p| p.class == DiffClass::Changed).unwrap();
    assert_eq!((ch.left, ch.right), (Some(1), Some(1)));
}

#[test]
fn replace_with_surplus_splits_into_changed_then_added() {
    let pairs = align(&[8u64], &[9u64, 10]);
    assert_eq!(classes(&pairs), vec![DiffClass::Changed, DiffClass::Added]);
    assert_eq!((pairs[0].left, pairs[0].right), (Some(0), Some(0)));
    assert_eq!((pairs[1].left, pairs[1].right), (None, Some(1)));
}

#[test]
fn replace_with_surplus_splits_into_changed_then_removed() {
    let pairs = align(&[8u64, 11], &[9u64]);
    assert_eq!(classes(&pairs), vec![DiffClass::Changed, DiffClass::Removed]);
    assert_eq!((pairs[1].left, pairs[1].right), (Some(1), None));
}

#[test]
fn empty_vs_nonempty_is_all_added() {
    let pairs = align(&[], &[1u64, 2]);
    assert_eq!(classes(&pairs), vec![DiffClass::Added, DiffClass::Added]);
}

#[test]
fn pairs_from_ops_replacement_splits_surplus() {
    let ops = [EditOp::Replace { old_index: 2, old_len: 3, new_index: 5, new_len: 1 }];
    let pairs = pairs_from_ops(&ops);
    assert_eq!(pairs, vec![
        DiffPair { left: Some(2), right: Some(5), class: DiffClass::Changed },
        DiffPair { left: Some(3), right: None, class: DiffClass::Removed },
        DiffPair { left: Some(4), right: None, class: DiffClass::Removed },
    ]);
}

#[test]
fn align_shows_every_line_of_both_sides_once_in_order() {
    let left = [1u64, 1, 0, 2, 7, 7, 5];
    let right = [2u64, 1, 0, 0, 0, 0, 5, 9];
    let pairs = align(&left, &right);
    let lefts: Vec<usize> = pairs.iter().filter_map(|p| p.left).collect();
    let rights: Vec<usize> = pairs.iter().filter_map(|p| p.right).collect();
    assert_eq!(lefts, (0..left.len()).collect::<Vec<_>>());
    assert_eq!(rights, (0..right.len()).collect::<Vec<_>>());
    for p in pairs.iter().filter(|p| p.class == DiffClass::Equal) {
        assert_eq!(left[p.left.unwrap()], right[p.right.unwrap()]);
    }
}
