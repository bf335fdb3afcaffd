use std::collections::BTreeMap;

use win_make_ro::reinstall::{sweep, Restart};
use win_make_ro::swap::{swap, Swap, SwapAction, SwapEvent};

fn w(s: &str) -> Vec<u16> {
    s.encode_utf16().collect()
}

fn text(p: &[u16]) -> String {
    String::from_utf16_lossy(p)
}

const NAMES: [&str; 2] = ["win-make-ro.exe", "ro_shellext.dll"];

/// A file system in memory: path to contents, and paths that refuse to be
/// renamed or removed, as a file locked by another process does.
struct Disk {
    files: BTreeMap<Vec<u16>, Vec<u8>>,
    locked: Vec<Vec<u16>>,
}

impl Disk {
    fn new(old: Option<&[u8]>) -> Disk {
        let mut files = BTreeMap::new();
        for name in NAMES {
            files.insert(w(&format!(r"C:\new\{name}")), b"new".to_vec());
            if let Some(bytes) = old {
                files.insert(w(&format!(r"C:\installed\{name}")), bytes.to_vec());
            }
        }
        Disk { files, locked: Vec::new() }
    }

    /// Runs one swap to its end and returns what it finished with.
    fn run(&mut self) -> Result<Vec<Vec<u16>>, String> {
        let (mut machine, mut action) = Swap::start(&w(r"C:\new"), &w(r"C:\installed"), "1-2");
        loop {
            let event = match action {
                SwapAction::IsFile(p) | SwapAction::Exists(p) => SwapEvent::Answer(self.files.contains_key(&p)),
                SwapAction::Copy(a, b) => match self.files.get(&a).cloned() {
                    Some(bytes) => {
                        self.files.insert(b, bytes);
                        SwapEvent::Done(Ok(()))
                    }
                    None => SwapEvent::Done(Err(format!("{} not found", text(&a)))),
                },
                SwapAction::Rename(a, b) => {
                    if self.locked.contains(&a) || self.locked.contains(&b) {
                        SwapEvent::Done(Err("Access is denied.".to_string()))
                    } else {
                        match self.files.remove(&a) {
                            Some(bytes) => {
                                self.files.insert(b, bytes);
                                SwapEvent::Done(Ok(()))
                            }
                            None => SwapEvent::Done(Err("not found".to_string())),
                        }
                    }
                }
                SwapAction::Remove(p) => {
                    if self.locked.contains(&p) {
                        SwapEvent::Done(Err("Access is denied.".to_string()))
                    } else if self.files.remove(&p).is_some() {
                        SwapEvent::Done(Ok(()))
                    } else {
                        SwapEvent::Done(Err("not found".to_string()))
                    }
                }
                SwapAction::Finish(outcome) => return outcome,
            };
            action = swap(&mut machine, event);
        }
    }

    fn installed(&self) -> Vec<String> {
        self.files
            .keys()
            .map(|k| text(k))
            .filter(|k| k.starts_with(r"C:\installed\"))
            .map(|k| k[r"C:\installed\".len()..].to_string())
            .collect()
    }

    fn read(&self, name: &str) -> Option<&[u8]> {
        self.files.get(&w(&format!(r"C:\installed\{name}"))).map(|v| v.as_slice())
    }
}

fn untouched() -> Vec<String> {
    let mut v: Vec<String> = NAMES.iter().map(|s| s.to_string()).collect();
    v.sort();
    v
}

#[test]
fn the_old_binaries_are_renamed_aside_not_overwritten() {
    let mut disk = Disk::new(Some(b"old"));
    let superseded = disk.run().unwrap();
    for name in NAMES {
        assert_eq!(disk.read(name), Some(&b"new"[..]), "{name} was not replaced");
    }
    assert_eq!(
        superseded,
        vec![w(r"C:\installed\win-make-ro.exe.1-2.old"), w(r"C:\installed\ro_shellext.dll.1-2.old")]
    );
    for p in &superseded {
        assert_eq!(disk.files.get(p).map(|v| v.as_slice()), Some(&b"old"[..]), "{} lost its contents", text(p));
    }
    assert!(!disk.installed().iter().any(|n| n.ends_with(".new")), "{:?}", disk.installed());
}

#[test]
fn an_empty_destination_just_receives_the_binaries() {
    let mut disk = Disk::new(None);
    assert!(disk.run().unwrap().is_empty(), "nothing was there to set aside");
    for name in NAMES {
        assert_eq!(disk.read(name), Some(&b"new"[..]));
    }
    assert_eq!(disk.installed(), untouched());
}

#[test]
fn a_missing_source_stops_before_anything_moves() {
    let mut disk = Disk::new(Some(b"old"));
    disk.files.remove(&w(r"C:\new\ro_shellext.dll"));
    assert_eq!(disk.run(), Err(r"C:\new\ro_shellext.dll is not there to install".to_string()));
    for name in NAMES {
        assert_eq!(disk.read(name), Some(&b"old"[..]), "{name} was touched");
    }
    assert_eq!(disk.installed(), untouched(), "a staged copy was left behind");
}

#[test]
fn a_failure_on_the_second_binary_puts_the_first_one_back() {
    let mut disk = Disk::new(Some(b"old"));
    disk.locked.push(w(r"C:\installed\ro_shellext.dll"));
    let outcome = disk.run();
    assert_eq!(outcome, Err("Access is denied.".to_string()), "the locked file was replaced anyway");
    for name in NAMES {
        assert_eq!(disk.read(name), Some(&b"old"[..]), "{name} was left replaced");
    }
    assert_eq!(disk.installed(), untouched(), "staged or superseded copies were left behind");
}

#[test]
fn a_rollback_that_cannot_restore_says_what_was_left_replaced() {
    let mut disk = Disk::new(Some(b"old"));
    // The second rename aside fails; then the first binary's new copy cannot
    // be removed again either.
    disk.locked.push(w(r"C:\installed\ro_shellext.dll"));
    let mut machine_disk = disk;
    let (mut machine, mut action) = Swap::start(&w(r"C:\new"), &w(r"C:\installed"), "1-2");
    let mut seen_removal_of_first = false;
    let outcome = loop {
        let event = match action {
            SwapAction::IsFile(p) | SwapAction::Exists(p) => SwapEvent::Answer(machine_disk.files.contains_key(&p)),
            SwapAction::Copy(a, b) => {
                let bytes = machine_disk.files[&a].clone();
                machine_disk.files.insert(b, bytes);
                SwapEvent::Done(Ok(()))
            }
            SwapAction::Rename(a, b) => {
                if machine_disk.locked.contains(&a) {
                    SwapEvent::Done(Err("Access is denied.".to_string()))
                } else {
                    let bytes = machine_disk.files.remove(&a).unwrap();
                    machine_disk.files.insert(b, bytes);
                    SwapEvent::Done(Ok(()))
                }
            }
            SwapAction::Remove(p) => {
                if p == w(r"C:\installed\win-make-ro.exe") {
                    seen_removal_of_first = true;
                    SwapEvent::Done(Err("in use".to_string()))
                } else {
                    machine_disk.files.remove(&p);
                    SwapEvent::Done(Ok(()))
                }
            }
            SwapAction::Finish(outcome) => break outcome,
        };
        action = swap(&mut machine, event);
    };
    assert!(seen_removal_of_first);
    assert_eq!(
        outcome,
        Err(r"Access is denied.; and these were left replaced: C:\installed\win-make-ro.exe".to_string())
    );
}

#[test]
fn only_the_binaries_we_renamed_are_removed() {
    let mine = ["win-make-ro.exe.123-456.old", "ro_shellext.dll.7-8.old"];
    let theirs = ["ro_shellext.dll", "win-make-ro.exe", "notes.old", "something.dll.old"];
    let names: Vec<Option<String>> =
        mine.iter().chain(theirs.iter()).map(|n| Some(n.to_string())).collect();
    assert_eq!(sweep(&names), vec![0, 1]);
}

#[test]
fn a_directory_that_is_not_there_is_not_an_error() {
    // A directory that cannot be listed lists nothing, and nothing is removed.
    assert!(sweep(&Vec::new()).is_empty());
}

#[test]
fn a_name_that_is_not_unicode_is_never_swept() {
    let names = vec![None, Some("ro_shellext.dll.1-2.old".to_string()), Some("ro_shellext.dll.1-2.new".to_string())];
    assert_eq!(sweep(&names), vec![1]);
}

#[test]
fn a_restart_of_any_kind_is_described() {
    assert_eq!(Restart::Skipped("why".into()).describe(), "Explorer not restarted: why");
    assert_eq!(Restart::Failed("why".into()).describe(), "Explorer restart failed: why");
}
