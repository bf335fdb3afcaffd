use win_make_ro::order::ordered;

fn order(paths: &[&str]) -> Vec<String> {
    let v: Vec<Vec<u16>> = paths.iter().map(|p| p.encode_utf16().collect()).collect();
    ordered(&v).iter().map(|p| String::from_utf16_lossy(p)).collect()
}

#[test]
fn a_parent_comes_before_its_child() {
    let child = r"C:\root\sub\file.txt";
    let parent = r"C:\root";
    assert_eq!(order(&[child, parent]), vec![parent.to_string(), child.to_string()]);
    assert_eq!(order(&[parent, child]), vec![parent.to_string(), child.to_string()]);
}

#[test]
fn duplicates_collapse() {
    assert_eq!(order(&[r"C:\a", r"C:\a"]), vec![r"C:\a".to_string()]);
}

#[test]
fn unrelated_paths_are_all_kept() {
    assert_eq!(order(&[r"C:\b", r"C:\a"]).len(), 2);
}

#[test]
fn spellings_of_one_path_collapse_and_siblings_sort_by_component() {
    assert_eq!(order(&[r"C:\a\", r"C:/a", r"C:\a"]).len(), 1);
    // `-` sorts below `\` as a unit, but components compare whole.
    assert_eq!(
        order(&[r"C:\root-x", r"C:\root\a", r"C:\root"]),
        vec![r"C:\root".to_string(), r"C:\root\a".to_string(), r"C:\root-x".to_string()]
    );
}

fn order_units(paths: &[Vec<u16>]) -> Vec<Vec<u16>> {
    ordered(&paths.to_vec())
}

#[test]
fn names_compare_by_code_point() {
    let private_use: Vec<u16> = r"C:\".encode_utf16().chain([0xE000]).collect();
    let beyond_bmp: Vec<u16> = r"C:\".encode_utf16().chain([0xD800, 0xDC00]).collect();
    assert_eq!(order_units(&[beyond_bmp.clone(), private_use.clone()]), vec![private_use.clone(), beyond_bmp.clone()]);
    assert_eq!(order_units(&[private_use.clone(), beyond_bmp.clone()]), vec![private_use, beyond_bmp]);
}

#[test]
fn a_lone_surrogate_sorts_at_its_own_value() {
    let lone: Vec<u16> = r"C:\".encode_utf16().chain([0xD800]).collect();
    let below: Vec<u16> = r"C:\".encode_utf16().chain([0xD7FF]).collect();
    let above: Vec<u16> = r"C:\".encode_utf16().chain([0xE000]).collect();
    assert_eq!(order_units(&[above.clone(), lone.clone(), below.clone()]), vec![below, lone, above]);
}

#[test]
fn the_drive_letter_is_compared_without_case() {
    assert_eq!(
        order(&[r"C:\root\sub", r"c:\root"]),
        vec![r"c:\root".to_string(), r"C:\root\sub".to_string()]
    );
    // The first spelling given is the one kept.
    assert_eq!(order(&[r"c:\a", r"C:\a"]), vec![r"c:\a".to_string()]);
}

#[test]
fn prefixes_sort_by_kind() {
    assert_eq!(
        order(&[r"C:\x", r"\\server\share\x", r"\\?\C:\x"]),
        vec![r"\\?\C:\x".to_string(), r"\\server\share\x".to_string(), r"C:\x".to_string()]
    );
}

#[test]
fn dot_is_dropped_and_dot_dot_sorts_before_names() {
    assert_eq!(order(&[r"C:\a\.\b", r"C:\a\b"]), vec![r"C:\a\.\b".to_string()]);
    assert_eq!(order(&[r"C:\a\b", r"C:\a\.."]), vec![r"C:\a\..".to_string(), r"C:\a\b".to_string()]);
}

#[test]
fn the_order_does_not_depend_on_the_order_given() {
    let given = [r"C:\b", r"C:\a\x", r"\\srv\share\d", r"C:\a"];
    let mut backwards = given;
    backwards.reverse();
    assert_eq!(order(&given), order(&backwards));
    assert_eq!(
        order(&given),
        vec![r"\\srv\share\d".to_string(), r"C:\a".to_string(), r"C:\a\x".to_string(), r"C:\b".to_string()]
    );
}
