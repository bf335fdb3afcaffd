use win_make_ro::launch::orphaned_list;
use win_make_ro::report::{merge_reports, TargetReport};
use win_make_ro::paths_list::{decode_paths_list, encode_paths_list};
use win_make_ro::report::{
    finish, label, registry, report_errors, status, Finish, EXIT_ERRORS, EXIT_OK,
};
use win_make_ro::menu::LockState;

fn w(s: &str) -> Vec<u16> {
    s.encode_utf16().collect()
}

#[test]
fn a_path_list_reads_back_as_written() {
    let paths = vec![w(r"C:\one.txt"), w(r"C:\two.txt"), vec![b'x' as u16, 0xD800]];
    let bytes = encode_paths_list(&paths);
    assert_eq!(&bytes[..4], &[b'C', 0, b':', 0]);
    assert_eq!(decode_paths_list(&bytes), Some(paths));
    assert_eq!(decode_paths_list(&Vec::new()), Some(Vec::new()));
    assert_eq!(decode_paths_list(&vec![1, 2, 3]), None, "odd length is no UTF-16");
    assert_eq!(decode_paths_list(&vec![b'a', 0, 0, 0, b'b', 0]), Some(vec![w("a"), w("b")]));
}

#[test]
fn status_prints_one_line_per_path() {
    let paths = vec![w(r"C:\a"), w(r"C:\b"), w(r"C:\c")];
    let states = vec![Some(LockState::Explicit), None, Some(LockState::Inherited)];
    let r = status(&states, &paths);
    assert_eq!(r.lines, vec!["locked\tC:\\a", "error\tC:\\b", "inherited\tC:\\c"]);
    assert_eq!(r.code, EXIT_ERRORS);
    let ok = status(&vec![Some(LockState::Unlocked)], &vec![w("x")]);
    assert_eq!(ok.code, EXIT_OK);
    assert_eq!(label(LockState::Unlocked), "unlocked");
}

#[test]
fn long_error_lists_are_cut_short() {
    let few: Vec<String> = vec!["a".into(), "b".into()];
    assert_eq!(report_errors(&few), "a\nb");
    let many: Vec<String> = (0..25).map(|i| format!("e{i}")).collect();
    let text = report_errors(&many);
    assert_eq!(text.lines().count(), 21);
    assert!(text.ends_with("\ne19\n... and 5 more"), "{text}");
}

#[test]
fn exit_codes_follow_the_outcome() {
    assert_eq!(registry(&Ok(())), EXIT_OK);
    assert_eq!(registry(&Err("denied".into())), EXIT_ERRORS);
    assert_eq!(finish(true, false, 3), Finish::Elevate);
    assert_eq!(finish(true, true, 3), Finish::Failed);
    assert_eq!(finish(false, false, 0), Finish::Done);
}

#[test]
fn target_reports_merge_in_target_order() {
    let reports = vec![
        TargetReport { changed: 2, skipped: 1, needs_elevation: false, errors: vec!["a".to_string()] },
        TargetReport { changed: 0, skipped: 0, needs_elevation: true, errors: vec![] },
        TargetReport { changed: 5, skipped: 3, needs_elevation: false, errors: vec!["b".to_string(), "c".to_string()] },
    ];
    let total = merge_reports(&reports);
    assert_eq!((total.changed, total.skipped, total.needs_elevation), (7, 4, true));
    assert_eq!(total.errors, vec!["a", "b", "c"]);
    let none = merge_reports(&Vec::new());
    assert_eq!((none.changed, none.skipped, none.needs_elevation), (0, 0, false));
    assert!(none.errors.is_empty());
}

#[test]
fn a_list_nothing_will_read_is_removed() {
    let file: Vec<u16> = r"C:\t\x.paths".encode_utf16().collect();
    assert_eq!(orphaned_list(Some(file.clone()), false), Some(file.clone()));
    assert_eq!(orphaned_list(Some(file), true), None);
    assert_eq!(orphaned_list(None, false), None);
}
