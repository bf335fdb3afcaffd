use std::path::Path;

use win_make_ro::reinstall::{
    binary, destination, parent, same_directory, staged_name, superseded, superseded_name, Restart,
};

fn w(s: &str) -> Vec<u16> {
    s.encode_utf16().collect()
}

fn on_disk(d: &Vec<u16>) -> bool {
    Path::new(&String::from_utf16_lossy(d)).is_dir()
}

#[test]
fn a_restart_that_was_never_asked_for_does_not_claim_anything_else() {
    let said = Restart::NotRequested.describe();
    assert_eq!(said, "no previous registration; Explorer restart not requested");
    assert!(!said.contains("loaded"), "{said}");
}

#[test]
fn only_a_real_restart_says_it_restarted() {
    assert_eq!(Restart::Restarted.describe(), "Explorer restarted");
    for other in [
        Restart::NotRequested,
        Restart::Skipped("elevated".into()),
        Restart::Pending("process 7".into()),
        Restart::Failed("it did not close".into()),
    ] {
        let said = other.describe();
        assert!(!said.starts_with("Explorer restarted"), "{said}");
    }
}

#[test]
fn running_out_of_patience_does_not_read_as_a_failure() {
    let said = Restart::Pending("process 7".into()).describe();
    assert!(said.contains("still running"), "{said}");
    assert!(!said.contains("failed"), "{said}");
    assert!(!said.contains("not restarted"), "{said}");
}

#[test]
fn an_existing_registration_decides_where_the_binaries_go() {
    let installed = w(r"C:\installed\here\ro_shellext.dll");
    let from = w(r"C:\somewhere\else");
    // The file system reports the registered directory as present.
    let present = |d: &Vec<u16>| *d == w(r"C:\installed\here");
    assert_eq!(destination(Some(installed), &from, present), w(r"C:\installed\here"));
}

#[test]
fn without_a_registration_the_binaries_stay_where_they_are() {
    let from = w(r"C:\somewhere\else");
    assert_eq!(destination(None, &from, on_disk), from);
}

#[test]
fn a_registration_pointing_nowhere_is_ignored() {
    let from = w(r"C:\somewhere\else");
    let gone = w(r"C:\no\such\directory\ro_shellext.dll");
    assert_eq!(destination(Some(gone), &from, on_disk), from);
}

#[test]
fn a_directory_is_the_same_as_itself_however_it_is_spelled() {
    let plain = w(r"C:\inst");
    let roundabout = w(r"C:\inst\sub\..");
    // Resolving collapses `sub\..`.
    let resolve = |d: &Vec<u16>| if *d == w(r"C:\inst\sub\..") { Some(w(r"C:\inst")) } else { Some(d.clone()) };
    assert!(same_directory(&plain, &roundabout, resolve));
    assert!(!same_directory(&plain, &w(r"C:\inst\sub"), resolve));
    // Unresolvable: compared as given, component by component.
    assert!(same_directory(&w(r"C:\inst\"), &w("C:/inst"), |_: &Vec<u16>| None));
}

#[test]
fn parents_of_paths() {
    assert_eq!(parent(&w(r"C:\dir\ro_shellext.dll")), Some(w(r"C:\dir")));
    assert_eq!(parent(&w(r"C:\ro_shellext.dll")), Some(w(r"C:\")));
    assert_eq!(parent(&w("/tmp/x/ro_shellext.dll")), Some(w("/tmp/x")));
    assert_eq!(parent(&w("ro_shellext.dll")), Some(Vec::new()));
    assert_eq!(parent(&Vec::new()), None);
}

#[test]
fn only_the_binaries_we_renamed_are_swept() {
    let mine = ["win-make-ro.exe.123-456.old", "ro_shellext.dll.7-8.old"];
    let theirs = ["ro_shellext.dll", "win-make-ro.exe", "notes.old", "something.dll.old"];
    for name in mine {
        assert!(superseded(name), "{name} would survive");
    }
    for name in theirs {
        assert!(!superseded(name), "{name} was not ours to delete");
    }
}

#[test]
fn what_a_swap_sets_aside_is_what_a_sweep_removes() {
    for i in 0..2 {
        let b = binary(i);
        let aside = superseded_name(b, "123-456");
        assert_eq!(aside, format!("{b}.123-456.old"));
        assert!(superseded(&aside));
        let staged = staged_name(b, "123-456");
        assert!(staged.ends_with(".new"));
        assert!(!superseded(&staged));
    }
}

#[test]
fn a_parent_goes_by_components() {
    assert_eq!(parent(&w(r"C:\dir\")), Some(w(r"C:\")));
    assert_eq!(parent(&w(r"C:\dir\\x")), Some(w(r"C:\dir")));
    assert_eq!(parent(&w(r"C:\a\.\")), Some(w(r"C:\")));
    assert_eq!(parent(&w(r"C:\")), None);
    assert_eq!(parent(&w("C:")), None);
    assert_eq!(parent(&w(r"\\server\share\x")), Some(w(r"\\server\share\")));
    assert_eq!(parent(&w(r"\\server\share")), None);
    assert_eq!(parent(&w(r".\x")), Some(w(".")));
    assert_eq!(parent(&w(".")), Some(Vec::new()));
    assert_eq!(parent(&w(r"a\..")), Some(w("a")));
}
