use win_make_ro::args::{Args, ArgsError, Parse};
use win_make_ro::command::Command;

fn w(s: &str) -> Vec<u16> {
    s.encode_utf16().collect()
}

/// Parses, supplying `listed` as the contents of any path list named.
fn parse_listing(s: &[&str], listed: Option<&[&str]>) -> Result<Args, ArgsError> {
    let argv: Vec<Vec<u16>> = s.iter().map(|a| w(a)).collect();
    match Args::parse(&argv, &None) {
        Parse::Parsed(a) => Ok(a),
        Parse::Failed(e) => Err(e),
        Parse::ReadList(_) => {
            let contents = listed.expect("a list was named but none supplied");
            let list = Some(Ok(contents.iter().map(|p| w(p)).collect()));
            match Args::parse(&argv, &list) {
                Parse::Parsed(a) => Ok(a),
                Parse::Failed(e) => Err(e),
                Parse::ReadList(_) => panic!("asked for the list twice"),
            }
        }
    }
}

fn parse(s: &[&str]) -> Result<Args, ArgsError> {
    parse_listing(s, None)
}

/// Parses what `to_argv` produced, with the same list contents.
fn reparse(a: &Args) -> Args {
    let argv = a.to_argv();
    let list = Some(Ok(a.paths.clone()));
    match Args::parse(&argv, &list) {
        Parse::Parsed(b) => b,
        other => panic!("re-encoded arguments did not parse: {other:?}"),
    }
}

#[test]
fn parses_command_options_and_paths() {
    let a = parse(&["lock", "--gui", "C:\\a", "D:\\b"]).unwrap();
    assert_eq!(a.command, Command::Lock);
    assert!(a.gui);
    assert!(!a.no_elevate);
    assert_eq!(a.paths, vec![w("C:\\a"), w("D:\\b")]);
}

#[test]
fn double_dash_ends_options() {
    let a = parse(&["unlock", "--", "--gui"]).unwrap();
    assert!(!a.gui);
    assert_eq!(a.paths, vec![w("--gui")]);
}

#[test]
fn rejects_unknown_command_option_and_missing_paths() {
    assert!(parse(&[]).is_err());
    assert!(parse(&["frobnicate"]).is_err());
    assert!(parse(&["lock", "--nope", "x"]).is_err());
    assert!(parse(&["lock"]).is_err());
    assert!(parse(&["install", "x"]).is_err());
    assert!(parse(&["install"]).is_ok());
    assert!(parse(&["reinstall", "x"]).is_err());
    assert!(parse(&["reinstall"]).is_ok());
    assert_eq!(parse(&["restart-explorer"]).unwrap().command, Command::RestartExplorer);
    assert!(parse(&["restart-explorer", "x"]).is_err());
}

#[test]
fn argv_round_trips() {
    let a = parse(&["unlock", "--gui", "--no-elevate", "--", "C:\\a b", "--x"]).unwrap();
    let b = reparse(&a);
    assert_eq!(a, b);
}

#[test]
fn a_reinstall_destination_is_explicit_and_round_trips() {
    let plain = parse(&["reinstall"]).unwrap();
    assert_eq!(plain.to, None, "no destination is inferred");
    assert_eq!(parse(&["reinstall", "--here"]).unwrap(), plain, "--here is what bare means");

    let to = parse(&["reinstall", "--to", r"D:\dist"]).unwrap();
    assert_eq!(to.to, Some(w(r"D:\dist")));
    assert_eq!(reparse(&to), to);

    assert!(parse(&["reinstall", "--to"]).is_err(), "--to needs a directory");
    assert!(parse(&["reinstall", "--here", "--to", r"D:\dist"]).is_err(), "both at once");
    assert!(parse(&["reinstall", "--to", "a", "--to", "b"]).is_err(), "twice");
    assert!(parse(&["install", "--here"]).is_err(), "not an option of install");
    assert!(parse(&["lock", "--to", "a", "x"]).is_err(), "not an option of lock");
}

#[test]
fn a_path_list_cannot_be_mixed_with_other_targets() {
    let listed: &[&str] = &[r"C:\listed.txt"];
    let name = r"C:\temp\selection.paths";
    assert!(parse_listing(&["lock", "--paths-from", name, r"C:\extra.txt"], Some(listed)).is_err());
    assert!(parse_listing(&["lock", r"C:\extra.txt", "--paths-from", name], Some(listed)).is_err());
    assert!(parse_listing(&["lock", "--paths-from", name, "--paths-from", name], Some(listed)).is_err());
    assert!(parse_listing(&["lock", "--paths-from", name, "--consume-paths-from", name], Some(listed))
        .is_err());
    assert!(parse_listing(&["lock", "--paths-from", name], Some(listed)).is_ok());
}

#[test]
fn the_claim_on_the_list_survives_re_encoding() {
    let listed: &[&str] = &[r"C:\one.txt"];
    let name = r"C:\temp\selection.paths";
    for (opt, consume) in [("--paths-from", false), ("--consume-paths-from", true)] {
        let a = parse_listing(&["lock", opt, name], Some(listed)).unwrap();
        assert_eq!(a.consume_paths_file, consume, "{opt}");
        let argv = a.to_argv();
        assert!(argv.iter().any(|x| *x == w(opt)), "{opt} was not re-emitted: {argv:?}");
        assert_eq!(reparse(&a), a, "{opt}");
    }
}

#[test]
fn a_path_list_survives_re_encoding_for_a_child() {
    let listed: &[&str] = &[r"C:\one.txt", r"C:\two.txt"];
    let a = parse_listing(&["lock", "--gui", "--paths-from", r"C:\temp\selection.paths"], Some(listed))
        .unwrap();
    assert_eq!(a.paths.len(), 2);
    assert_eq!(reparse(&a), a);
}

#[test]
fn lone_surrogate_path_survives() {
    let odd: Vec<u16> = vec![b'x' as u16, 0xD800];
    let argv = vec![w("lock"), w("--"), odd.clone()];
    let a = match Args::parse(&argv, &None) {
        Parse::Parsed(a) => a,
        other => panic!("{other:?}"),
    };
    assert_eq!(a.paths, vec![odd]);
    assert_eq!(reparse(&a), a);
}

#[test]
fn an_option_that_is_not_unicode_is_a_path() {
    let odd: Vec<u16> = vec![b'-' as u16, b'-' as u16, 0xDC00];
    let argv = vec![w("lock"), odd.clone()];
    match Args::parse(&argv, &None) {
        Parse::Parsed(a) => assert_eq!(a.paths, vec![odd]),
        other => panic!("{other:?}"),
    }
}

#[test]
fn the_list_is_asked_for_by_name() {
    let argv = vec![w("lock"), w("--consume-paths-from"), w(r"C:\t\x.paths")];
    match Args::parse(&argv, &None) {
        Parse::ReadList(f) => assert_eq!(f, w(r"C:\t\x.paths")),
        other => panic!("{other:?}"),
    }
    let unreadable = Some(Err("access is denied".to_string()));
    match Args::parse(&argv, &unreadable) {
        Parse::Failed(e) => assert_eq!(
            e.message(),
            r"--consume-paths-from C:\t\x.paths: access is denied"
        ),
        other => panic!("{other:?}"),
    }
}

#[test]
fn every_refusal_says_why() {
    let msg = |s: &[&str]| parse(s).unwrap_err().message();
    assert_eq!(msg(&[]), "missing command");
    assert_eq!(msg(&["frobnicate"]), "unknown command: frobnicate");
    assert_eq!(msg(&["lock", "--nope", "x"]), "unknown option: --nope");
    assert_eq!(msg(&["lock"]), "lock: at least one path required");
    assert_eq!(msg(&["install", "x"]), "install: takes no paths");
    assert_eq!(msg(&["reinstall", "--to"]), "--to needs a directory");
    assert_eq!(msg(&["lock", "--paths-from"]), "--paths-from needs a file");
    assert_eq!(msg(&["reinstall", "--to", "a", "--to", "b"]), "--to can only be given once");
    assert_eq!(msg(&["reinstall", "--here", "--to", "a"]), "--here and --to name different destinations");
    assert_eq!(msg(&["install", "--here"]), "install: --here and --to are only for reinstall");
    assert_eq!(
        parse_listing(&["lock", "x", "--paths-from", "f"], Some(&["y"])).unwrap_err().message(),
        "a path list cannot be combined with paths on the command line"
    );
    assert_eq!(
        parse_listing(&["lock", "--paths-from", "f", "--paths-from", "f"], Some(&["y"]))
            .unwrap_err()
            .message(),
        "a path list can only be given once"
    );
}

#[test]
fn commands_parse_from_their_own_names() {
    for c in [
        Command::Lock,
        Command::Unlock,
        Command::Status,
        Command::Install,
        Command::Reinstall,
        Command::Uninstall,
        Command::RestartExplorer,
    ] {
        assert_eq!(Command::parse(c.as_str()), Some(c));
    }
    assert_eq!(Command::parse("Lock"), None);
    assert!(Command::Status.takes_paths());
    assert!(!Command::RestartExplorer.takes_paths());
}

#[test]
fn the_consumed_list_is_the_one_handed_over() {
    let listed: &[&str] = &[r"C:\one.txt"];
    let mine = parse_listing(&["lock", "--paths-from", "f"], Some(listed)).unwrap();
    assert_eq!(mine.list_to_remove(), None);
    let handed = parse_listing(&["lock", "--consume-paths-from", "f"], Some(listed)).unwrap();
    assert_eq!(handed.list_to_remove(), Some(w("f")));
}

#[test]
fn a_named_list_is_the_whole_selection() {
    let a = parse_listing(&["unlock", "--paths-from", r"C:\t\x.paths"], Some(&[r"C:\a", r"D:\b"])).unwrap();
    assert_eq!(a.paths, vec![w(r"C:\a"), w(r"D:\b")]);
    assert_eq!(a.paths_file, Some(w(r"C:\t\x.paths")));
    assert!(parse_listing(&["unlock", r"C:\typed", "--paths-from", "f"], Some(&[r"C:\a"])).is_err());
}

#[test]
fn re_encoded_arguments_need_no_list() {
    let a = parse(&["lock", "--gui", r"C:\a", r"D:\b"]).unwrap();
    match Args::parse(&a.to_argv(), &None) {
        Parse::Parsed(b) => assert_eq!(b, a),
        other => panic!("{other:?}"),
    }
}
