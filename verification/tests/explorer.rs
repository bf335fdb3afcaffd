use win_make_ro::explorer::{
    close_and_start, restart,
    CloseAction, CloseAndStart, CloseEvent, RestartWatch, WatchAction, WatchEvent, CLOSE_TIMEOUT_MS,
    REPORT_AFTER_MS,
};
use win_make_ro::reinstall::Restart;

#[test]
fn the_exchange_waits_for_the_old_shell_before_starting_one() {
    let (s, a) = CloseAndStart::begin();
    assert_eq!(a, CloseAction::CheckElevation);
    let (s, a) = close_and_start(s, CloseEvent::Elevation(Ok(false)));
    assert_eq!(a, CloseAction::FindShell);
    let (s, a) = close_and_start(s, CloseEvent::Shell(Ok(true)));
    assert_eq!(a, CloseAction::AskToClose);
    let (s, a) = close_and_start(s, CloseEvent::Asked(Ok(())));
    assert_eq!(a, CloseAction::WaitUntilGone(CLOSE_TIMEOUT_MS));
    let (s, a) = close_and_start(s, CloseEvent::Gone(Ok(())));
    assert_eq!(a, CloseAction::StartShell);
    let (_, a) = close_and_start(s, CloseEvent::Started(Ok(())));
    assert_eq!(a, CloseAction::Finish(Ok(())));
}

#[test]
fn an_elevated_process_never_starts_the_shell() {
    let (s, _) = CloseAndStart::begin();
    let (_, a) = close_and_start(s, CloseEvent::Elevation(Ok(true)));
    assert!(matches!(a, CloseAction::Finish(Err(_))));
    let (s, _) = CloseAndStart::begin();
    let (_, a) = close_and_start(s, CloseEvent::Elevation(Err("no token".into())));
    assert_eq!(a, CloseAction::Finish(Err("cannot tell whether this process is elevated: no token".into())));
}

#[test]
fn a_shell_that_will_not_close_is_not_doubled() {
    let (s, _) = CloseAndStart::begin();
    let (s, _) = close_and_start(s, CloseEvent::Elevation(Ok(false)));
    let (s, _) = close_and_start(s, CloseEvent::Shell(Ok(true)));
    let (s, _) = close_and_start(s, CloseEvent::Asked(Ok(())));
    let (_, a) = close_and_start(s, CloseEvent::Gone(Err("still running".into())));
    assert_eq!(a, CloseAction::Finish(Err("still running".into())));
    let (s, _) = CloseAndStart::begin();
    let (s, _) = close_and_start(s, CloseEvent::Elevation(Ok(false)));
    let (_, a) = close_and_start(s, CloseEvent::Shell(Ok(false)));
    assert_eq!(a, CloseAction::StartShell, "no shell running: just start one");
}

#[test]
fn the_watch_reports_what_happened() {
    let (s, _) = RestartWatch::begin();
    let (s, a) = restart(s, WatchEvent::Elevation(Ok(false)));
    assert_eq!(a, WatchAction::LocateSelf);
    let (s, a) = restart(s, WatchEvent::Located(Ok(())));
    assert_eq!(a, WatchAction::SpawnChild);
    let (s, a) = restart(s, WatchEvent::Spawned(Ok(7)));
    assert_eq!(a, WatchAction::WaitForChild(REPORT_AFTER_MS));
    let (_, a) = restart(s, WatchEvent::Waited(false));
    assert_eq!(
        a,
        WatchAction::Report(Restart::Pending(
            "Explorer has not closed yet; it will be started again as soon as it does (process 7)".into()
        ))
    );

    let (s, _) = RestartWatch::begin();
    let (s, _) = restart(s, WatchEvent::Elevation(Ok(false)));
    let (s, _) = restart(s, WatchEvent::Located(Ok(())));
    let (s, _) = restart(s, WatchEvent::Spawned(Ok(7)));
    let (s, a) = restart(s, WatchEvent::Waited(true));
    assert_eq!(a, WatchAction::CollectExit);
    let (_, a) = restart(s, WatchEvent::Exited(Ok(Some(0))));
    assert_eq!(a, WatchAction::Report(Restart::Restarted));

    let (s, _) = RestartWatch::begin();
    let (s, _) = restart(s, WatchEvent::Elevation(Ok(false)));
    let (s, _) = restart(s, WatchEvent::Located(Ok(())));
    let (s, _) = restart(s, WatchEvent::Spawned(Ok(7)));
    let (s, _) = restart(s, WatchEvent::Waited(true));
    let (_, a) = restart(s, WatchEvent::Exited(Ok(Some(-3))));
    assert_eq!(a, WatchAction::Report(Restart::Failed("the Explorer restart gave up with exit code -3".into())));
}

#[test]
fn an_elevated_watch_skips_the_restart() {
    let (s, _) = RestartWatch::begin();
    let (_, a) = restart(s, WatchEvent::Elevation(Ok(true)));
    assert!(matches!(a, WatchAction::Report(Restart::Skipped(_))));
}
