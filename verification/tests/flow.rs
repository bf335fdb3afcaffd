use win_make_ro::flow::{reinstall, FlowAction, FlowEvent, Reinstall};
use win_make_ro::reinstall::{Restart, Summary};

fn w(s: &str) -> Vec<u16> {
    s.encode_utf16().collect()
}

/// The world a reinstall runs in, as answers.
struct World {
    exe: Result<Vec<u16>, String>,
    present: Vec<Vec<u16>>,
    registered: bool,
    same: bool,
    swapped: Result<Vec<Vec<u16>>, String>,
    registration: Result<(), String>,
    restart: Restart,
    stuck: Vec<Vec<u16>>,
}

impl World {
    fn new() -> World {
        World {
            exe: Ok(w(r"C:\pkg\win-make-ro.exe")),
            present: vec![w(r"C:\pkg\win-make-ro.exe"), w(r"C:\pkg\ro_shellext.dll")],
            registered: true,
            same: false,
            swapped: Ok(vec![w(r"D:\dist\ro_shellext.dll.1-2.old")]),
            registration: Ok(()),
            restart: Restart::Restarted,
            stuck: Vec::new(),
        }
    }

    /// Runs a reinstall and returns every action it asked for, the last one
    /// being its outcome.
    fn run(self, to: Option<Vec<u16>>) -> (Vec<String>, Result<Summary, String>) {
        let World { exe, present, registered, same, swapped, registration, restart, stuck } = self;
        let mut restart = Some(restart);
        let mut swapped = Some(swapped);
        let mut registration = Some(registration);
        let mut exe = Some(exe);
        let mut asked = Vec::new();
        let (mut flow, mut action) = Reinstall::begin(to);
        loop {
            let event = match action {
                FlowAction::LocateSelf => {
                    asked.push("locate".to_string());
                    FlowEvent::Located(exe.take().unwrap())
                }
                FlowAction::IsFile(p) => {
                    asked.push(format!("is file {}", String::from_utf16_lossy(&p)));
                    FlowEvent::Answer(present.contains(&p))
                }
                FlowAction::IsRegistered => {
                    asked.push("registered?".to_string());
                    FlowEvent::Answer(registered)
                }
                FlowAction::Sweep(d) => {
                    asked.push(format!("sweep {}", String::from_utf16_lossy(&d)));
                    FlowEvent::Swept(stuck.clone())
                }
                FlowAction::SameDirectory(a, b) => {
                    asked.push(format!("same {} {}", String::from_utf16_lossy(&a), String::from_utf16_lossy(&b)));
                    FlowEvent::Answer(same)
                }
                FlowAction::Swap(a, b) => {
                    asked.push(format!("swap {} {}", String::from_utf16_lossy(&a), String::from_utf16_lossy(&b)));
                    FlowEvent::Swapped(swapped.take().unwrap())
                }
                FlowAction::Register(p) => {
                    asked.push(format!("register {}", String::from_utf16_lossy(&p)));
                    FlowEvent::Registered(registration.take().unwrap())
                }
                FlowAction::RestartExplorer => {
                    asked.push("restart".to_string());
                    FlowEvent::Restarted(restart.take().unwrap())
                }
                FlowAction::Finish(outcome) => return (asked, outcome),
            };
            let (next, next_action) = reinstall(flow, event);
            flow = next;
            action = next_action;
        }
    }
}

#[test]
fn here_registers_in_place_and_copies_nothing() {
    let (asked, outcome) = World::new().run(None);
    assert_eq!(
        asked,
        vec![
            "locate",
            r"is file C:\pkg\win-make-ro.exe",
            r"is file C:\pkg\ro_shellext.dll",
            "registered?",
            r"sweep C:\pkg",
            r"register C:\pkg\ro_shellext.dll",
            "restart",
            r"sweep C:\pkg",
        ]
    );
    let summary = outcome.unwrap();
    assert_eq!(summary.to, w(r"C:\pkg"));
    assert_eq!(summary.restart, Restart::Restarted);
    assert!(summary.left_behind.is_empty());
}

#[test]
fn a_named_destination_receives_the_pair() {
    let (asked, outcome) = World::new().run(Some(w(r"D:\dist")));
    assert_eq!(
        asked,
        vec![
            "locate",
            r"is file C:\pkg\win-make-ro.exe",
            r"is file C:\pkg\ro_shellext.dll",
            "registered?",
            r"sweep D:\dist",
            r"same C:\pkg D:\dist",
            r"swap C:\pkg D:\dist",
            r"register D:\dist\ro_shellext.dll",
            "restart",
            r"sweep D:\dist",
        ]
    );
    assert_eq!(outcome.unwrap().to, w(r"D:\dist"));
}

#[test]
fn a_named_destination_that_is_this_directory_is_not_copied_over_itself() {
    let mut world = World::new();
    world.same = true;
    let (asked, _) = world.run(Some(w(r"C:\pkg\.")));
    assert!(!asked.iter().any(|a| a.starts_with("swap")), "{asked:?}");
}

#[test]
fn a_first_install_leaves_explorer_alone() {
    let mut world = World::new();
    world.registered = false;
    let (asked, outcome) = world.run(Some(w(r"D:\dist")));
    assert!(!asked.contains(&"restart".to_string()), "{asked:?}");
    let summary = outcome.unwrap();
    assert_eq!(summary.restart, Restart::NotRequested);
    assert_eq!(summary.left_behind, vec![w(r"D:\dist\ro_shellext.dll.1-2.old")]);
}

#[test]
fn a_skipped_or_failed_restart_keeps_the_installation() {
    for outcome in [Restart::Skipped("elevated".into()), Restart::Failed("no".into()), Restart::Pending("7".into())] {
        let mut world = World::new();
        world.restart = outcome;
        let (asked, result) = world.run(Some(w(r"D:\dist")));
        let summary = result.unwrap();
        assert!(summary.restart != Restart::Restarted);
        assert_eq!(summary.left_behind, vec![w(r"D:\dist\ro_shellext.dll.1-2.old")]);
        assert_eq!(asked.last().unwrap(), "restart", "no sweep while Explorer may hold the copy");
    }
}

#[test]
fn copies_still_in_use_after_the_restart_are_reported() {
    let mut world = World::new();
    world.stuck = vec![w(r"C:\pkg\ro_shellext.dll.1-2.old")];
    let (_, outcome) = world.run(None);
    assert_eq!(outcome.unwrap().left_behind, vec![w(r"C:\pkg\ro_shellext.dll.1-2.old")]);
}

#[test]
fn each_failure_says_what_failed() {
    let mut world = World::new();
    world.exe = Err("gone".into());
    assert_eq!(world.run(None).1.unwrap_err(), "cannot locate own executable: gone");

    let mut world = World::new();
    world.exe = Ok(Vec::new());
    assert_eq!(world.run(None).1.unwrap_err(), "the executable has no directory to install from");

    let mut world = World::new();
    world.present.pop();
    assert_eq!(world.run(None).1.unwrap_err(), r"C:\pkg\ro_shellext.dll is not there to install");

    let mut world = World::new();
    world.swapped = Err("disk full".into());
    assert_eq!(world.run(Some(w(r"D:\dist"))).1.unwrap_err(), r"cannot install into D:\dist: disk full");

    let mut world = World::new();
    world.registration = Err("denied".into());
    assert_eq!(world.run(None).1.unwrap_err(), r"cannot register C:\pkg: denied");
}
