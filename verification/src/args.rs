//! The helper's command line: parsing it, and encoding it again for a child.
//!
//! Arguments are UTF-16 unit sequences: a path that is not valid Unicode has
//! to survive intact, so nothing here goes through `String`. Only an argument
//! that is valid Unicode can be an option; anything else is a path.
//!
//! `--paths-from <file>` and `--consume-paths-from <file>` bring the whole
//! selection in a file. Reading the file is the caller's business: when the
//! scan reaches the file's name and no contents were supplied, [`Args::parse`]
//! answers [`Parse::ReadList`], and the caller parses again with what it read.

use vstd::prelude::*;

use crate::command::Command;
use crate::units::{
    ascii_units, copy_units, is_valid_utf16, lossy_string, units_are, units_list,
    units_of, utf16_lossy, valid_utf16,
};

verus! {

/// The options the helper understands.
#[derive(Debug, Clone, Copy, PartialEq, Eq, Structural)]
pub enum Opt {
    /// `--`: everything after it is a path.
    EndOfOptions,
    Gui,
    NoElevate,
    PathsFrom,
    ConsumePathsFrom,
    To,
    Here,
}

impl Opt {
    pub open spec fn spelling(self) -> Seq<char> {
        match self {
            Opt::EndOfOptions => seq!['-', '-'],
            Opt::Gui => seq!['-', '-', 'g', 'u', 'i'],
            Opt::NoElevate => seq!['-', '-', 'n', 'o', '-', 'e', 'l', 'e', 'v', 'a', 't', 'e'],
            Opt::PathsFrom => seq!['-', '-', 'p', 'a', 't', 'h', 's', '-', 'f', 'r', 'o', 'm'],
            Opt::ConsumePathsFrom => seq![
                '-', '-', 'c', 'o', 'n', 's', 'u', 'm', 'e', '-', 'p', 'a', 't', 'h', 's', '-',
                'f', 'r', 'o', 'm',
            ],
            Opt::To => seq!['-', '-', 't', 'o'],
            Opt::Here => seq!['-', '-', 'h', 'e', 'r', 'e'],
        }
    }

    /// The option as an argument.
    pub open spec fn units(self) -> Seq<u16> {
        ascii_units(self.spelling())
    }

    /// The option that brings a path list, by whether the list is handed over.
    pub open spec fn list_opt(consume: bool) -> Opt {
        if consume {
            Opt::ConsumePathsFrom
        } else {
            Opt::PathsFrom
        }
    }

    pub fn text(self) -> (r: &'static str)
        ensures
            r@ == self.spelling(),
    {
        match self {
            Opt::EndOfOptions => {
                proof { reveal_strlit("--"); }
                assert("--"@ =~= self.spelling());
                "--"
            },
            Opt::Gui => {
                proof { reveal_strlit("--gui"); }
                assert("--gui"@ =~= self.spelling());
                "--gui"
            },
            Opt::NoElevate => {
                proof { reveal_strlit("--no-elevate"); }
                assert("--no-elevate"@ =~= self.spelling());
                "--no-elevate"
            },
            Opt::PathsFrom => {
                proof { reveal_strlit("--paths-from"); }
                assert("--paths-from"@ =~= self.spelling());
                "--paths-from"
            },
            Opt::ConsumePathsFrom => {
                proof { reveal_strlit("--consume-paths-from"); }
                assert("--consume-paths-from"@ =~= self.spelling());
                "--consume-paths-from"
            },
            Opt::To => {
                proof { reveal_strlit("--to"); }
                assert("--to"@ =~= self.spelling());
                "--to"
            },
            Opt::Here => {
                proof { reveal_strlit("--here"); }
                assert("--here"@ =~= self.spelling());
                "--here"
            },
        }
    }

    fn is(self, a: &Vec<u16>) -> (r: bool)
        ensures
            r == (a@ == self.units()),
    {
        units_are(a.as_slice(), self.text())
    }

    fn to_units(self) -> (r: Vec<u16>)
        ensures
            r@ == self.units(),
    {
        units_of(self.text())
    }
}

/// Whether an argument is valid Unicode and starts with `--`, which is what
/// makes an unrecognised one an unknown option rather than a path.
pub open spec fn looks_like_option(a: Seq<u16>) -> bool {
    valid_utf16(a) && a.len() >= 2 && a[0] == 0x2D && a[1] == 0x2D
}

/// The command an argument names, if it names one.
pub open spec fn command_of(w: Seq<u16>) -> Option<Command> {
    if w == ascii_units(Command::Lock.word()) {
        Some(Command::Lock)
    } else if w == ascii_units(Command::Unlock.word()) {
        Some(Command::Unlock)
    } else if w == ascii_units(Command::Status.word()) {
        Some(Command::Status)
    } else if w == ascii_units(Command::Install.word()) {
        Some(Command::Install)
    } else if w == ascii_units(Command::Reinstall.word()) {
        Some(Command::Reinstall)
    } else if w == ascii_units(Command::Uninstall.word()) {
        Some(Command::Uninstall)
    } else if w == ascii_units(Command::RestartExplorer.word()) {
        Some(Command::RestartExplorer)
    } else {
        None
    }
}

/// A parsed command line.
#[derive(Debug, Clone, PartialEq, Eq)]
pub struct Args {
    pub command: Command,
    pub paths: Vec<Vec<u16>>,
    pub gui: bool,
    /// Never re-launch elevated (also set on the elevated child).
    pub no_elevate: bool,
    /// Where `paths` came from, when a selection was too large for a command
    /// line.
    pub paths_file: Option<Vec<u16>>,
    /// Whether that file was handed over to be removed once it has been read.
    /// A list the caller named themselves is theirs and is left alone.
    pub consume_paths_file: bool,
    /// `reinstall --to <dir>`: the directory to install into.
    pub to: Option<Vec<u16>>,
}

/// What an [`Args`] means.
#[verifier::ext_equal]
pub struct ArgsView {
    pub command: Command,
    pub paths: Seq<Seq<u16>>,
    pub gui: bool,
    pub no_elevate: bool,
    pub paths_file: Option<Seq<u16>>,
    pub consume_paths_file: bool,
    pub to: Option<Seq<u16>>,
}

pub open spec fn opt_units(o: Option<Vec<u16>>) -> Option<Seq<u16>> {
    match o {
        Some(w) => Some(w@),
        None => None,
    }
}

impl View for Args {
    type V = ArgsView;

    open spec fn view(&self) -> ArgsView {
        ArgsView {
            command: self.command,
            paths: units_list(self.paths@),
            gui: self.gui,
            no_elevate: self.no_elevate,
            paths_file: opt_units(self.paths_file),
            consume_paths_file: self.consume_paths_file,
            to: opt_units(self.to),
        }
    }
}

/// Why a command line was refused.
#[derive(Debug, Clone, PartialEq, Eq)]
pub enum ArgsError {
    MissingCommand,
    UnknownCommand(Vec<u16>),
    /// The path list could not be read; `reason` is what reading it said.
    UnreadableList { consume: bool, file: Vec<u16>, reason: String },
    ListGivenTwice,
    ToGivenTwice,
    UnknownOption(Vec<u16>),
    ListNeedsFile { consume: bool },
    ToNeedsDirectory,
    HereAndTo,
    DestinationOutsideReinstall(Command),
    ListAndPaths,
    PathsRequired(Command),
    PathsRefused(Command),
}

/// What an [`ArgsError`] means.
pub enum ArgsFault {
    MissingCommand,
    UnknownCommand(Seq<u16>),
    UnreadableList { consume: bool, file: Seq<u16>, reason: String },
    ListGivenTwice,
    ToGivenTwice,
    UnknownOption(Seq<u16>),
    ListNeedsFile { consume: bool },
    ToNeedsDirectory,
    HereAndTo,
    DestinationOutsideReinstall(Command),
    ListAndPaths,
    PathsRequired(Command),
    PathsRefused(Command),
}

impl View for ArgsError {
    type V = ArgsFault;

    open spec fn view(&self) -> ArgsFault {
        match self {
            ArgsError::MissingCommand => ArgsFault::MissingCommand,
            ArgsError::UnknownCommand(w) => ArgsFault::UnknownCommand(w@),
            ArgsError::UnreadableList { consume, file, reason } => ArgsFault::UnreadableList {
                consume: *consume,
                file: file@,
                reason: *reason,
            },
            ArgsError::ListGivenTwice => ArgsFault::ListGivenTwice,
            ArgsError::ToGivenTwice => ArgsFault::ToGivenTwice,
            ArgsError::UnknownOption(w) => ArgsFault::UnknownOption(w@),
            ArgsError::ListNeedsFile { consume } => ArgsFault::ListNeedsFile { consume: *consume },
            ArgsError::ToNeedsDirectory => ArgsFault::ToNeedsDirectory,
            ArgsError::HereAndTo => ArgsFault::HereAndTo,
            ArgsError::DestinationOutsideReinstall(c) => ArgsFault::DestinationOutsideReinstall(
                *c,
            ),
            ArgsError::ListAndPaths => ArgsFault::ListAndPaths,
            ArgsError::PathsRequired(c) => ArgsFault::PathsRequired(*c),
            ArgsError::PathsRefused(c) => ArgsFault::PathsRefused(*c),
        }
    }
}

impl ArgsFault {
    /// The message a person is shown.
    pub open spec fn message(self) -> Seq<char> {
        match self {
            ArgsFault::MissingCommand => "missing command"@,
            ArgsFault::UnknownCommand(w) => "unknown command: "@ + utf16_lossy(w),
            ArgsFault::UnreadableList { consume, file, reason } => Opt::list_opt(consume).spelling()
                + " "@ + utf16_lossy(file) + ": "@ + reason@,
            ArgsFault::ListGivenTwice => "a path list can only be given once"@,
            ArgsFault::ToGivenTwice => "--to can only be given once"@,
            ArgsFault::UnknownOption(w) => "unknown option: "@ + utf16_lossy(w),
            ArgsFault::ListNeedsFile { consume } => Opt::list_opt(consume).spelling()
                + " needs a file"@,
            ArgsFault::ToNeedsDirectory => "--to needs a directory"@,
            ArgsFault::HereAndTo => "--here and --to name different destinations"@,
            ArgsFault::DestinationOutsideReinstall(c) => c.word()
                + ": --here and --to are only for reinstall"@,
            ArgsFault::ListAndPaths => "a path list cannot be combined with paths on the command line"@,
            ArgsFault::PathsRequired(c) => c.word() + ": at least one path required"@,
            ArgsFault::PathsRefused(c) => c.word() + ": takes no paths"@,
        }
    }
}

impl ArgsError {
    /// The message a person is shown.
    pub fn message(&self) -> (r: String)
        ensures
            r@ == self@.message(),
    {
        match self {
            ArgsError::MissingCommand => String::from_str("missing command"),
            ArgsError::UnknownCommand(w) => {
                let mut s = String::from_str("unknown command: ");
                let tail = lossy_string(w.as_slice());
                s.append(tail.as_str());
                s
            },
            ArgsError::UnreadableList { consume, file, reason } => {
                let mut s = String::from_str(list_opt(*consume).text());
                s.append(" ");
                let name = lossy_string(file.as_slice());
                s.append(name.as_str());
                s.append(": ");
                s.append(reason.as_str());
                s
            },
            ArgsError::ListGivenTwice => String::from_str("a path list can only be given once"),
            ArgsError::ToGivenTwice => String::from_str("--to can only be given once"),
            ArgsError::UnknownOption(w) => {
                let mut s = String::from_str("unknown option: ");
                let tail = lossy_string(w.as_slice());
                s.append(tail.as_str());
                s
            },
            ArgsError::ListNeedsFile { consume } => {
                let mut s = String::from_str(list_opt(*consume).text());
                s.append(" needs a file");
                s
            },
            ArgsError::ToNeedsDirectory => String::from_str("--to needs a directory"),
            ArgsError::HereAndTo => String::from_str("--here and --to name different destinations"),
            ArgsError::DestinationOutsideReinstall(c) => {
                let mut s = String::from_str(c.as_str());
                s.append(": --here and --to are only for reinstall");
                s
            },
            ArgsError::ListAndPaths => String::from_str(
                "a path list cannot be combined with paths on the command line",
            ),
            ArgsError::PathsRequired(c) => {
                let mut s = String::from_str(c.as_str());
                s.append(": at least one path required");
                s
            },
            ArgsError::PathsRefused(c) => {
                let mut s = String::from_str(c.as_str());
                s.append(": takes no paths");
                s
            },
        }
    }
}

fn list_opt(consume: bool) -> (r: Opt)
    ensures
        r == Opt::list_opt(consume),
{
    if consume {
        Opt::ConsumePathsFrom
    } else {
        Opt::PathsFrom
    }
}

/// The outcome of one parse.
#[derive(Debug)]
pub enum Parse {
    Parsed(Args),
    Failed(ArgsError),
    /// The arguments name a path list whose contents were not supplied: read
    /// this file and parse again with what it holds.
    ReadList(Vec<u16>),
}

/// What a [`Parse`] means.
pub enum ParseView {
    Parsed(ArgsView),
    Failed(ArgsFault),
    ReadList(Seq<u16>),
}

impl View for Parse {
    type V = ParseView;

    open spec fn view(&self) -> ParseView {
        match self {
            Parse::Parsed(a) => ParseView::Parsed(a@),
            Parse::Failed(e) => ParseView::Failed(e@),
            Parse::ReadList(f) => ParseView::ReadList(f@),
        }
    }
}

/// The contents of the path list as the caller supplied them: `None` when not
/// read yet, else the entries or why reading failed.
pub open spec fn list_view(list: Option<Result<Vec<Vec<u16>>, String>>) -> Option<
    Result<Seq<Seq<u16>>, String>,
> {
    match list {
        None => None,
        Some(Ok(v)) => Some(Ok(units_list(v@))),
        Some(Err(e)) => Some(Err(e)),
    }
}

/// The scan's state between two arguments.
#[verifier::ext_equal]
pub struct Scan {
    pub args: ArgsView,
    pub opts_done: bool,
    /// An option that wants a file was just seen: `Some(consume)`.
    pub want_list: Option<bool>,
    pub want_to: bool,
    pub here: bool,
    /// A path was given on the command line itself.
    pub typed: bool,
}

pub open spec fn start_scan(command: Command) -> Scan {
    Scan {
        args: ArgsView {
            command,
            paths: Seq::empty(),
            gui: false,
            no_elevate: false,
            paths_file: None,
            consume_paths_file: false,
            to: None,
        },
        opts_done: false,
        want_list: None,
        want_to: false,
        here: false,
        typed: false,
    }
}

/// One argument of the scan: the next state, or the outcome if it ends here.
pub open spec fn step(
    st: Scan,
    a: Seq<u16>,
    list: Option<Result<Seq<Seq<u16>>, String>>,
) -> Result<Scan, ParseView> {
    if st.want_to {
        Ok(Scan { want_to: false, args: ArgsView { to: Some(a), ..st.args }, ..st })
    } else if st.want_list is Some {
        let consume = st.want_list->0;
        match list {
            None => Err(ParseView::ReadList(a)),
            Some(Err(reason)) => Err(
                ParseView::Failed(ArgsFault::UnreadableList { consume, file: a, reason }),
            ),
            Some(Ok(listed)) => Ok(
                Scan {
                    want_list: None,
                    args: ArgsView {
                        paths: st.args.paths + listed,
                        paths_file: Some(a),
                        consume_paths_file: consume,
                        ..st.args
                    },
                    ..st
                },
            ),
        }
    } else if st.opts_done {
        Ok(Scan { typed: true, args: ArgsView { paths: st.args.paths.push(a), ..st.args }, ..st })
    } else if a == Opt::EndOfOptions.units() {
        Ok(Scan { opts_done: true, ..st })
    } else if a == Opt::Gui.units() {
        Ok(Scan { args: ArgsView { gui: true, ..st.args }, ..st })
    } else if a == Opt::NoElevate.units() {
        Ok(Scan { args: ArgsView { no_elevate: true, ..st.args }, ..st })
    } else if a == Opt::PathsFrom.units() || a == Opt::ConsumePathsFrom.units() {
        if st.args.paths_file is Some {
            Err(ParseView::Failed(ArgsFault::ListGivenTwice))
        } else {
            Ok(Scan { want_list: Some(a == Opt::ConsumePathsFrom.units()), ..st })
        }
    } else if a == Opt::To.units() {
        if st.args.to is Some {
            Err(ParseView::Failed(ArgsFault::ToGivenTwice))
        } else {
            Ok(Scan { want_to: true, ..st })
        }
    } else if a == Opt::Here.units() {
        Ok(Scan { here: true, ..st })
    } else if looks_like_option(a) {
        Err(ParseView::Failed(ArgsFault::UnknownOption(a)))
    } else {
        Ok(Scan { typed: true, args: ArgsView { paths: st.args.paths.push(a), ..st.args }, ..st })
    }
}

/// The scan over the remaining arguments.
pub open spec fn scan(
    st: Scan,
    rest: Seq<Seq<u16>>,
    list: Option<Result<Seq<Seq<u16>>, String>>,
) -> Result<Scan, ParseView>
    decreases rest.len(),
{
    if rest.len() == 0 {
        Ok(st)
    } else {
        match step(st, rest[0], list) {
            Ok(next) => scan(next, rest.drop_first(), list),
            Err(out) => Err(out),
        }
    }
}

/// The checks made once every argument has been seen.
pub open spec fn finish(st: Scan) -> ParseView {
    let a = st.args;
    if st.want_list is Some {
        ParseView::Failed(ArgsFault::ListNeedsFile { consume: st.want_list->0 })
    } else if st.want_to {
        ParseView::Failed(ArgsFault::ToNeedsDirectory)
    } else if st.here && a.to is Some {
        ParseView::Failed(ArgsFault::HereAndTo)
    } else if (st.here || a.to is Some) && a.command != Command::Reinstall {
        ParseView::Failed(ArgsFault::DestinationOutsideReinstall(a.command))
    } else if a.paths_file is Some && st.typed {
        ParseView::Failed(ArgsFault::ListAndPaths)
    } else if a.command.wants_paths() && a.paths.len() == 0 {
        ParseView::Failed(ArgsFault::PathsRequired(a.command))
    } else if !a.command.wants_paths() && a.paths.len() != 0 {
        ParseView::Failed(ArgsFault::PathsRefused(a.command))
    } else {
        ParseView::Parsed(a)
    }
}

/// What a command line means, given the contents of the path list it may name.
pub open spec fn parse_spec(
    argv: Seq<Seq<u16>>,
    list: Option<Result<Seq<Seq<u16>>, String>>,
) -> ParseView {
    if argv.len() == 0 {
        ParseView::Failed(ArgsFault::MissingCommand)
    } else {
        match command_of(argv[0]) {
            None => ParseView::Failed(ArgsFault::UnknownCommand(argv[0])),
            Some(c) => match scan(start_scan(c), argv.drop_first(), list) {
                Ok(st) => finish(st),
                Err(out) => out,
            },
        }
    }
}

/// The arguments that re-create an [`ArgsView`]: options first, then the
/// list file if there is one, else `--` and the paths.
pub open spec fn argv_spec(a: ArgsView) -> Seq<Seq<u16>> {
    seq![ascii_units(a.command.word())] + (if a.gui {
        seq![Opt::Gui.units()]
    } else {
        Seq::empty()
    }) + (if a.no_elevate {
        seq![Opt::NoElevate.units()]
    } else {
        Seq::empty()
    }) + (match a.to {
        Some(d) => seq![Opt::To.units(), d],
        None => Seq::empty(),
    }) + (match a.paths_file {
        Some(f) => seq![Opt::list_opt(a.consume_paths_file).units(), f],
        None => seq![Opt::EndOfOptions.units()] + a.paths,
    })
}

/// What every successful parse produces.
pub open spec fn well_formed(a: ArgsView) -> bool {
    &&& a.to is Some ==> a.command == Command::Reinstall
    &&& a.consume_paths_file ==> a.paths_file is Some
    &&& a.command.wants_paths() <==> a.paths.len() > 0
}

/// Appends copies of `items` to `v`.
pub fn append_all(v: &mut Vec<Vec<u16>>, items: &Vec<Vec<u16>>)
    ensures
        units_list(final(v)@) == units_list(old(v)@) + units_list(items@),
{
    let ghost start = v@;
    let mut i: usize = 0;
    while i < items.len()
        invariant
            i <= items.len(),
            v@.len() == start.len() + i,
            forall|j: int| 0 <= j < start.len() ==> (#[trigger] v@[j])@ == start[j]@,
            forall|j: int| 0 <= j < i ==> (#[trigger] v@[start.len() + j])@ == items@[j]@,
        decreases items.len() - i,
    {
        v.push(copy_units(&items[i]));
        i = i + 1;
    }
    proof {
        lemma_units_list_concat(v@, units_list(start), units_list(items@));
    }
}

fn command_from(w: &Vec<u16>) -> (r: Option<Command>)
    ensures
        r == command_of(w@),
{
    let all = [
        Command::Lock,
        Command::Unlock,
        Command::Status,
        Command::Install,
        Command::Reinstall,
        Command::Uninstall,
        Command::RestartExplorer,
    ];
    let mut i: usize = 0;
    while i < 7
        invariant
            i <= 7,
            all@ == seq![
                Command::Lock,
                Command::Unlock,
                Command::Status,
                Command::Install,
                Command::Reinstall,
                Command::Uninstall,
                Command::RestartExplorer,
            ],
            forall|j: int| 0 <= j < i ==> w@ != ascii_units((#[trigger] all@[j]).word()),
        decreases 7 - i,
    {
        let c = all[i];
        if units_are(w.as_slice(), c.as_str()) {
            return Some(c);
        }
        i = i + 1;
    }
    None
}

impl Args {
    /// Parses the helper's arguments (without the program name).
    ///
    /// `list` holds the contents of the path list the arguments name, once
    /// the caller has read it; with `None` the parse stops at the list's
    /// name and asks for it.
    pub fn parse(argv: &Vec<Vec<u16>>, list: &Option<Result<Vec<Vec<u16>>, String>>) -> (r:
        Parse)
        ensures
            r@ == parse_spec(units_list(argv@), list_view(*list)),
            r matches Parse::Parsed(a) ==> well_formed(a@),
            r matches Parse::Parsed(a) ==> (a.paths_file is Some ==> list_view(*list) == Some(
                Ok::<Seq<Seq<u16>>, String>(a@.paths),
            )),
    {
        proof {
            lemma_parsed_is_well_formed(units_list(argv@), list_view(*list));
            lemma_list_is_the_selection(units_list(argv@), list_view(*list));
        }
        let ghost all = units_list(argv@);
        if argv.len() == 0 {
            return Parse::Failed(ArgsError::MissingCommand);
        }
        let command = match command_from(&argv[0]) {
            Some(c) => c,
            None => return Parse::Failed(ArgsError::UnknownCommand(copy_units(&argv[0]))),
        };
        let mut args = Args {
            command,
            paths: Vec::new(),
            gui: false,
            no_elevate: false,
            paths_file: None,
            consume_paths_file: false,
            to: None,
        };
        let mut opts_done = false;
        let mut want_list: Option<bool> = None;
        let mut want_to = false;
        let mut here = false;
        let mut typed = false;
        let ghost lv = list_view(*list);
        assert(units_list(args.paths@) =~= Seq::<Seq<u16>>::empty());
        assert(all.drop_first().subrange(0, 0) =~= Seq::<Seq<u16>>::empty());
        let mut i: usize = 1;
        while i < argv.len()
            invariant
                1 <= i <= argv.len(),
                all == units_list(argv@),
                lv == list_view(*list),
                args.command == command,
                command_of(all[0]) == Some(command),
                scan(start_scan(command), all.subrange(1, i as int), lv) == Ok::<Scan, ParseView>(
                    Scan { args: args@, opts_done, want_list, want_to, here, typed },
                ),
            decreases argv.len() - i,
        {
            let ghost before = Scan { args: args@, opts_done, want_list, want_to, here, typed };
            let a = &argv[i];
            proof {
                lemma_scan_snoc(start_scan(command), all.subrange(1, i as int), all[i as int], lv);
                assert(all.subrange(1, i as int).push(all[i as int]) =~= all.subrange(1, i + 1));
                assert(all[i as int] == a@);
            }
            if want_to {
                want_to = false;
                args.to = Some(copy_units(a));
            } else if want_list.is_some() {
                let consume = want_list.unwrap();
                match list {
                    None => {
                        proof { lemma_stopped_parse(command, all, i as int, lv); }
                        return Parse::ReadList(copy_units(a));
                    },
                    Some(Err(reason)) => {
                        proof { lemma_stopped_parse(command, all, i as int, lv); }
                        return Parse::Failed(
                            ArgsError::UnreadableList {
                                consume,
                                file: copy_units(a),
                                reason: reason.clone(),
                            },
                        );
                    },
                    Some(Ok(listed)) => {
                        append_all(&mut args.paths, listed);
                        args.paths_file = Some(copy_units(a));
                        args.consume_paths_file = consume;
                        want_list = None;
                    },
                }
            } else if opts_done {
                typed = true;
                args.paths.push(copy_units(a));
                assert(units_list(args.paths@) =~= before.args.paths.push(a@));
            } else if Opt::EndOfOptions.is(a) {
                opts_done = true;
            } else if Opt::Gui.is(a) {
                args.gui = true;
            } else if Opt::NoElevate.is(a) {
                args.no_elevate = true;
            } else if Opt::PathsFrom.is(a) || Opt::ConsumePathsFrom.is(a) {
                if args.paths_file.is_some() {
                    proof { lemma_stopped_parse(command, all, i as int, lv); }
                    return Parse::Failed(ArgsError::ListGivenTwice);
                }
                want_list = Some(Opt::ConsumePathsFrom.is(a));
            } else if Opt::To.is(a) {
                if args.to.is_some() {
                    proof { lemma_stopped_parse(command, all, i as int, lv); }
                    return Parse::Failed(ArgsError::ToGivenTwice);
                }
                want_to = true;
            } else if Opt::Here.is(a) {
                here = true;
            } else if is_valid_utf16(a.as_slice()) && a.len() >= 2 && a[0] == 0x2D && a[1]
                == 0x2D {
                proof { lemma_stopped_parse(command, all, i as int, lv); }
                return Parse::Failed(ArgsError::UnknownOption(copy_units(a)));
            } else {
                typed = true;
                args.paths.push(copy_units(a));
                assert(units_list(args.paths@) =~= before.args.paths.push(a@));
            }
            i = i + 1;
            proof {
                assert(Scan { args: args@, opts_done, want_list, want_to, here, typed } =~= step(
                    before,
                    all[(i - 1) as int],
                    lv,
                )->Ok_0);
            }
        }
        assert(all.subrange(1, argv.len() as int) =~= all.drop_first());
        if want_list.is_some() {
            return Parse::Failed(ArgsError::ListNeedsFile { consume: want_list.unwrap() });
        }
        if want_to {
            return Parse::Failed(ArgsError::ToNeedsDirectory);
        }
        if here && args.to.is_some() {
            return Parse::Failed(ArgsError::HereAndTo);
        }
        if (here || args.to.is_some()) && command != Command::Reinstall {
            return Parse::Failed(ArgsError::DestinationOutsideReinstall(command));
        }
        if args.paths_file.is_some() && typed {
            return Parse::Failed(ArgsError::ListAndPaths);
        }
        if command.takes_paths() && args.paths.len() == 0 {
            return Parse::Failed(ArgsError::PathsRequired(command));
        }
        if !command.takes_paths() && args.paths.len() != 0 {
            return Parse::Failed(ArgsError::PathsRefused(command));
        }
        Parse::Parsed(args)
    }

    /// The path list to remove once the run is over: only one that was
    /// handed over is ours; a file the caller named is theirs.
    pub fn list_to_remove(&self) -> (r: Option<Vec<u16>>)
        ensures
            r is Some <==> self.consume_paths_file && self.paths_file is Some,
            r matches Some(f) ==> Some(f@) == opt_units(self.paths_file),
    {
        if self.consume_paths_file {
            match &self.paths_file {
                Some(f) => Some(copy_units(f)),
                None => None,
            }
        } else {
            None
        }
    }

    /// A copy of the command line.
    pub fn clone_args(&self) -> (r: Args)
        ensures
            r@ == self@,
    {
        let paths = crate::units::copy_list(&self.paths);
        let paths_file = match &self.paths_file {
            Some(f) => Some(copy_units(f)),
            None => None,
        };
        let to = match &self.to {
            Some(d) => Some(copy_units(d)),
            None => None,
        };
        Args {
            command: self.command,
            paths,
            gui: self.gui,
            no_elevate: self.no_elevate,
            paths_file,
            consume_paths_file: self.consume_paths_file,
            to,
        }
    }

    /// Re-encodes for a child process; options first, then `--`, then paths.
    /// The list stays in its file when there is one, under the same option,
    /// so the child inherits the same claim on the file.
    pub fn to_argv(&self) -> (r: Vec<Vec<u16>>)
        ensures
            units_list(r@) == argv_spec(self@),
    {
        let mut v: Vec<Vec<u16>> = Vec::new();
        v.push(units_of(self.command.as_str()));
        if self.gui {
            v.push(Opt::Gui.to_units());
        }
        if self.no_elevate {
            v.push(Opt::NoElevate.to_units());
        }
        match &self.to {
            Some(dir) => {
                v.push(Opt::To.to_units());
                v.push(copy_units(dir));
            },
            None => {},
        }
        match &self.paths_file {
            Some(file) => {
                v.push(list_opt(self.consume_paths_file).to_units());
                v.push(copy_units(file));
            },
            None => {
                v.push(Opt::EndOfOptions.to_units());
                append_all(&mut v, &self.paths);
            },
        }
        assert(units_list(v@) =~= argv_spec(self@));
        v
    }
}

proof fn lemma_units_list_concat(v: Seq<Vec<u16>>, a: Seq<Seq<u16>>, b: Seq<Seq<u16>>)
    requires
        v.len() == a.len() + b.len(),
        forall|j: int| 0 <= j < a.len() ==> (#[trigger] v[j])@ == a[j],
        forall|j: int| 0 <= j < b.len() ==> (#[trigger] v[a.len() + j])@ == b[j],
    ensures
        units_list(v) == a + b,
{
    assert forall|j: int| 0 <= j < v.len() implies #[trigger] units_list(v)[j] == (a + b)[j] by {
        if j >= a.len() {
            assert(v[a.len() + (j - a.len())]@ == b[j - a.len()]);
        }
    }
    assert(units_list(v) =~= a + b);
}

/// Scanning one more argument is one more step.
pub proof fn lemma_scan_snoc(
    st: Scan,
    xs: Seq<Seq<u16>>,
    x: Seq<u16>,
    list: Option<Result<Seq<Seq<u16>>, String>>,
)
    ensures
        scan(st, xs.push(x), list) == match scan(st, xs, list) {
            Ok(s) => step(s, x, list),
            Err(o) => Err(o),
        },
    decreases xs.len(),
{
    let ys = xs.push(x);
    assert(ys[0] == if xs.len() == 0 { x } else { xs[0] });
    if xs.len() == 0 {
        assert(ys.drop_first() =~= Seq::<Seq<u16>>::empty());
        match step(st, x, list) {
            Ok(next) => {
                assert(scan(next, ys.drop_first(), list) == Ok::<Scan, ParseView>(next));
            },
            Err(_) => {},
        }
    } else {
        assert(ys.drop_first() =~= xs.drop_first().push(x));
        match step(st, xs[0], list) {
            Ok(next) => lemma_scan_snoc(next, xs.drop_first(), x, list),
            Err(_) => {},
        }
    }
}

/// Once the scan has stopped, the arguments after that point do not matter.
pub proof fn lemma_scan_stops(
    st: Scan,
    xs: Seq<Seq<u16>>,
    ys: Seq<Seq<u16>>,
    list: Option<Result<Seq<Seq<u16>>, String>>,
)
    requires
        scan(st, xs, list) is Err,
    ensures
        scan(st, xs + ys, list) == scan(st, xs, list),
    decreases xs.len(),
{
    if xs.len() > 0 {
        assert((xs + ys)[0] == xs[0]);
        assert((xs + ys).drop_first() =~= xs.drop_first() + ys);
        match step(st, xs[0], list) {
            Ok(next) => lemma_scan_stops(next, xs.drop_first(), ys, list),
            Err(_) => {},
        }
    }
}

/// A scan that stops at argument `i` decides the whole parse.
proof fn lemma_stopped_parse(
    c: Command,
    all: Seq<Seq<u16>>,
    i: int,
    list: Option<Result<Seq<Seq<u16>>, String>>,
)
    requires
        1 <= i < all.len(),
        command_of(all[0]) == Some(c),
        scan(start_scan(c), all.subrange(1, i + 1), list) is Err,
    ensures
        parse_spec(all, list) == scan(start_scan(c), all.subrange(1, i + 1), list)->Err_0,
{
    lemma_scan_stops(start_scan(c), all.subrange(1, i + 1), all.subrange(i + 1, all.len() as int), list);
    assert(all.subrange(1, i + 1) + all.subrange(i + 1, all.len() as int) =~= all.drop_first());
}

/// The command word, as an argument, names its command.
pub proof fn lemma_command_units(c: Command)
    ensures
        command_of(ascii_units(c.word())) == Some(c),
{
    let w = ascii_units(c.word());
    let lock = ascii_units(Command::Lock.word());
    let unlock = ascii_units(Command::Unlock.word());
    let install = ascii_units(Command::Install.word());
    let reinstall = ascii_units(Command::Reinstall.word());
    assert(w.len() == c.word().len());
    assert(w[0] == c.word()[0] as u16);
    assert(w[2] == c.word()[2] as u16);
    assert(lock[0] == 'l' as u16);
    assert(unlock[0] == 'u' as u16);
    assert(install[0] == 'i' as u16);
    assert(reinstall[2] == 'i' as u16);
    match c {
        Command::Lock => {},
        Command::Unlock => {
            assert(w[0] != lock[0]);
        },
        Command::Status => {
            assert(w.len() != lock.len());
            assert(w[0] != unlock[0]);
        },
        Command::Install => {},
        Command::Reinstall => {
            assert(w.len() != install.len());
        },
        Command::Uninstall => {
            assert(reinstall[0] == 'r' as u16);
            assert(w[0] != reinstall[0]);
        },
        Command::RestartExplorer => {},
    }
}

/// Scanning two runs of arguments is scanning the first and then the second.
pub proof fn lemma_scan_concat(
    st: Scan,
    xs: Seq<Seq<u16>>,
    ys: Seq<Seq<u16>>,
    list: Option<Result<Seq<Seq<u16>>, String>>,
)
    ensures
        scan(st, xs + ys, list) == match scan(st, xs, list) {
            Ok(s) => scan(s, ys, list),
            Err(o) => Err(o),
        },
    decreases xs.len(),
{
    if xs.len() == 0 {
        assert(xs + ys =~= ys);
    } else {
        assert((xs + ys)[0] == xs[0]);
        assert((xs + ys).drop_first() =~= xs.drop_first() + ys);
        match step(st, xs[0], list) {
            Ok(next) => lemma_scan_concat(next, xs.drop_first(), ys, list),
            Err(_) => {},
        }
    }
}

/// Scanning a single argument is one step.
pub proof fn lemma_scan_one(st: Scan, x: Seq<u16>, list: Option<Result<Seq<Seq<u16>>, String>>)
    ensures
        scan(st, seq![x], list) == step(st, x, list),
{
    assert(seq![x].drop_first() =~= Seq::<Seq<u16>>::empty());
    match step(st, x, list) {
        Ok(next) => {
            assert(scan(next, seq![x].drop_first(), list) == Ok::<Scan, ParseView>(next));
        },
        Err(_) => {},
    }
}

/// After `--`, every argument is a path.
pub proof fn lemma_scan_paths(
    st: Scan,
    ps: Seq<Seq<u16>>,
    list: Option<Result<Seq<Seq<u16>>, String>>,
)
    requires
        st.opts_done,
        !st.want_to,
        st.want_list is None,
    ensures
        scan(st, ps, list) == Ok::<Scan, ParseView>(
            Scan {
                typed: st.typed || ps.len() > 0,
                args: ArgsView { paths: st.args.paths + ps, ..st.args },
                ..st
            },
        ),
    decreases ps.len(),
{
    if ps.len() == 0 {
        assert(st.args.paths + ps =~= st.args.paths);
        assert(Scan { typed: st.typed || ps.len() > 0, args: ArgsView { paths: st.args.paths + ps, ..st.args }, ..st } =~= st);
    } else {
        let next = Scan {
            typed: true,
            args: ArgsView { paths: st.args.paths.push(ps[0]), ..st.args },
            ..st
        };
        lemma_scan_paths(next, ps.drop_first(), list);
        assert(st.args.paths.push(ps[0]) + ps.drop_first() =~= st.args.paths + ps);
    }
}

/// Distinct options are distinct arguments.
proof fn lemma_opts_distinct()
    ensures
        Opt::EndOfOptions.units().len() == 2,
        Opt::Gui.units().len() == 5,
        Opt::NoElevate.units().len() == 12,
        Opt::PathsFrom.units().len() == 12,
        Opt::ConsumePathsFrom.units().len() == 20,
        Opt::To.units().len() == 4,
        Opt::Here.units().len() == 6,
        Opt::NoElevate.units() != Opt::PathsFrom.units(),
{
    assert(Opt::NoElevate.units()[2] == 'n' as u16);
    assert(Opt::PathsFrom.units()[2] == 'p' as u16);
}

/// Re-encoding a well-formed command line and parsing it again, with the same
/// list contents the file held, gives back the same command line: what an
/// elevated child is handed names every target the parent was given.
pub proof fn lemma_argv_round_trip(a: ArgsView)
    requires
        well_formed(a),
    ensures
        parse_spec(argv_spec(a), Some(Ok::<Seq<Seq<u16>>, String>(a.paths))) == ParseView::Parsed(a),
{
    let list = Some(Ok::<Seq<Seq<u16>>, String>(a.paths));
    let argv = argv_spec(a);
    lemma_command_units(a.command);
    lemma_opts_distinct();
    let g: Seq<Seq<u16>> = if a.gui { seq![Opt::Gui.units()] } else { Seq::empty() };
    let n: Seq<Seq<u16>> = if a.no_elevate { seq![Opt::NoElevate.units()] } else { Seq::empty() };
    let t: Seq<Seq<u16>> = match a.to { Some(d) => seq![Opt::To.units(), d], None => Seq::empty() };
    let l: Seq<Seq<u16>> = match a.paths_file {
        Some(f) => seq![Opt::list_opt(a.consume_paths_file).units(), f],
        None => seq![Opt::EndOfOptions.units()] + a.paths,
    };
    assert(argv[0] == ascii_units(a.command.word()));
    assert(argv.drop_first() =~= g + n + t + l);

    let s0 = start_scan(a.command);
    // --gui
    let s1 = Scan { args: ArgsView { gui: a.gui, ..s0.args }, ..s0 };
    lemma_scan_one(s0, Opt::Gui.units(), list);
    assert(scan(s0, g, list) == Ok::<Scan, ParseView>(s1)) by {
        if !a.gui {
            assert(s1 =~= s0);
        }
    }
    // --no-elevate
    let s2 = Scan { args: ArgsView { no_elevate: a.no_elevate, ..s1.args }, ..s1 };
    lemma_scan_one(s1, Opt::NoElevate.units(), list);
    assert(scan(s1, n, list) == Ok::<Scan, ParseView>(s2)) by {
        if !a.no_elevate {
            assert(s2 =~= s1);
        }
    }
    // --to <dir>
    let s3 = Scan { args: ArgsView { to: a.to, ..s2.args }, ..s2 };
    assert(scan(s2, t, list) == Ok::<Scan, ParseView>(s3)) by {
        match a.to {
            Some(d) => {
                let mid = Scan { want_to: true, ..s2 };
                lemma_scan_one(s2, Opt::To.units(), list);
                lemma_scan_one(mid, d, list);
                lemma_scan_concat(s2, seq![Opt::To.units()], seq![d], list);
                assert(seq![Opt::To.units()] + seq![d] =~= t);
                assert(step(mid, d, list) == Ok::<Scan, ParseView>(s3)) by {
                    assert(Scan { want_to: false, args: ArgsView { to: Some(d), ..mid.args }, ..mid } =~= s3);
                }
            },
            None => {
                assert(s3 =~= s2);
            },
        }
    }
    // the list file, or `--` and the paths
    let s4 = match a.paths_file {
        Some(f) => Scan {
            args: ArgsView { paths: a.paths, paths_file: Some(f), consume_paths_file: a.consume_paths_file, ..s3.args },
            ..s3
        },
        None => Scan {
            opts_done: true,
            typed: a.paths.len() > 0,
            args: ArgsView { paths: a.paths, ..s3.args },
            ..s3
        },
    };
    assert(scan(s3, l, list) == Ok::<Scan, ParseView>(s4)) by {
        match a.paths_file {
            Some(f) => {
                let o = Opt::list_opt(a.consume_paths_file);
                let mid = Scan { want_list: Some(a.consume_paths_file), ..s3 };
                assert(o.units() != Opt::EndOfOptions.units());
                assert(o.units() != Opt::Gui.units());
                assert(o.units() != Opt::NoElevate.units());
                assert((o.units() == Opt::ConsumePathsFrom.units()) == a.consume_paths_file);
                lemma_scan_one(s3, o.units(), list);
                lemma_scan_one(mid, f, list);
                lemma_scan_concat(s3, seq![o.units()], seq![f], list);
                assert(seq![o.units()] + seq![f] =~= l);
                assert(step(mid, f, list) == Ok::<Scan, ParseView>(s4)) by {
                    assert(Seq::<Seq<u16>>::empty() + a.paths =~= a.paths);
                    assert(Scan {
                        want_list: None,
                        args: ArgsView {
                            paths: mid.args.paths + a.paths,
                            paths_file: Some(f),
                            consume_paths_file: a.consume_paths_file,
                            ..mid.args
                        },
                        ..mid
                    } =~= s4);
                }
            },
            None => {
                let mid = Scan { opts_done: true, ..s3 };
                lemma_scan_one(s3, Opt::EndOfOptions.units(), list);
                lemma_scan_paths(mid, a.paths, list);
                lemma_scan_concat(s3, seq![Opt::EndOfOptions.units()], a.paths, list);
                assert(Seq::<Seq<u16>>::empty() + a.paths =~= a.paths);
                assert(Scan {
                    typed: mid.typed || a.paths.len() > 0,
                    args: ArgsView { paths: mid.args.paths + a.paths, ..mid.args },
                    ..mid
                } =~= s4);
            },
        }
    }
    lemma_scan_concat(s0, g, n, list);
    lemma_scan_concat(s0, g + n, t, list);
    lemma_scan_concat(s0, g + n + t, l, list);
    assert(s4.args =~= a);
}

/// Every command line that parses is well formed.
pub proof fn lemma_parsed_is_well_formed(
    argv: Seq<Seq<u16>>,
    list: Option<Result<Seq<Seq<u16>>, String>>,
)
    ensures
        parse_spec(argv, list) matches ParseView::Parsed(a) ==> well_formed(a),
{
    if argv.len() > 0 && command_of(argv[0]) is Some {
        let c = command_of(argv[0])->0;
        lemma_scan_keeps_claim(start_scan(c), argv.drop_first(), list);
        match scan(start_scan(c), argv.drop_first(), list) {
            Ok(st) => {
                if finish(st) is Parsed {
                    assert(finish(st) == ParseView::Parsed(st.args));
                    assert(well_formed(st.args));
                }
            },
            Err(_) => {},
        }
    }
}

/// The scan only sets the claim on a list together with the list itself, and
/// never changes the command.
proof fn lemma_scan_keeps_claim(st: Scan, rest: Seq<Seq<u16>>, list: Option<Result<Seq<Seq<u16>>, String>>)
    requires
        st.args.consume_paths_file ==> st.args.paths_file is Some,
    ensures
        scan(st, rest, list) matches Ok(s) ==> (s.args.consume_paths_file ==> s.args.paths_file is Some)
            && s.args.command == st.args.command,
        scan(st, rest, list) matches Err(o) ==> !(o is Parsed),
    decreases rest.len(),
{
    if rest.len() > 0 {
        match step(st, rest[0], list) {
            Ok(next) => lemma_scan_keeps_claim(next, rest.drop_first(), list),
            Err(_) => {},
        }
    }
}

/// What a scan keeps of a path list: once a list is read, the paths are its
/// entries until a path is typed beside them; before, nothing but typed paths
/// are there; and a list is only asked for while none has been read.
pub open spec fn list_kept(st: Scan, list: Option<Result<Seq<Seq<u16>>, String>>) -> bool {
    &&& st.args.paths_file is Some ==> (list matches Some(Ok(l)) && (!st.typed ==> st.args.paths == l))
    &&& (st.args.paths_file is None && !st.typed) ==> st.args.paths.len() == 0
    &&& st.want_list is Some ==> st.args.paths_file is None
}

proof fn lemma_scan_keeps_list(st: Scan, rest: Seq<Seq<u16>>, list: Option<Result<Seq<Seq<u16>>, String>>)
    requires
        list_kept(st, list),
    ensures
        scan(st, rest, list) matches Ok(s) ==> list_kept(s, list),
    decreases rest.len(),
{
    if rest.len() > 0 {
        match step(st, rest[0], list) {
            Ok(next) => {
                if st.want_list is Some && !st.want_to && !st.typed {
                    if let Some(Ok(l)) = list {
                        assert(st.args.paths + l =~= l);
                    }
                }
                lemma_scan_keeps_list(next, rest.drop_first(), list);
            },
            Err(_) => {},
        }
    }
}

/// A command line that names a path list works on exactly the list's
/// entries: no path typed beside the list survives the parse.
pub proof fn lemma_list_is_the_selection(argv: Seq<Seq<u16>>, list: Option<Result<Seq<Seq<u16>>, String>>)
    ensures
        parse_spec(argv, list) matches ParseView::Parsed(a) ==> (a.paths_file is Some ==> list == Some(
            Ok::<Seq<Seq<u16>>, String>(a.paths),
        )),
{
    if argv.len() > 0 && command_of(argv[0]) is Some {
        let c = command_of(argv[0])->0;
        lemma_scan_keeps_list(start_scan(c), argv.drop_first(), list);
        lemma_scan_keeps_claim(start_scan(c), argv.drop_first(), list);
    }
}

/// Once a path list has been read the scan never forgets it.
proof fn lemma_scan_keeps_list_file(st: Scan, rest: Seq<Seq<u16>>, list: Option<Result<Seq<Seq<u16>>, String>>)
    requires
        st.args.paths_file is Some,
    ensures
        scan(st, rest, list) matches Ok(s) ==> s.args.paths_file is Some,
    decreases rest.len(),
{
    if rest.len() > 0 {
        match step(st, rest[0], list) {
            Ok(next) => lemma_scan_keeps_list_file(next, rest.drop_first(), list),
            Err(_) => {},
        }
    }
}

/// A scan that ends without a list file never consulted the list.
proof fn lemma_scan_without_list(st: Scan, rest: Seq<Seq<u16>>, list: Option<Result<Seq<Seq<u16>>, String>>)
    requires
        st.args.paths_file is None,
    ensures
        scan(st, rest, list) matches Ok(s) ==> (s.args.paths_file is None ==> scan(st, rest, None) == scan(
            st,
            rest,
            list,
        )),
    decreases rest.len(),
{
    if rest.len() > 0 {
        let none: Option<Result<Seq<Seq<u16>>, String>> = None;
        if !st.want_to && st.want_list is Some {
            match step(st, rest[0], list) {
                Ok(next) => {
                    lemma_scan_keeps_list_file(next, rest.drop_first(), list);
                },
                Err(_) => {},
            }
        } else {
            assert(step(st, rest[0], list) == step(st, rest[0], none));
            match step(st, rest[0], list) {
                Ok(next) => lemma_scan_without_list(next, rest.drop_first(), list),
                Err(_) => {},
            }
        }
    }
}

/// The list is only read when a list option names it: a command line that
/// parses without naming a list parses the same way with no list supplied.
pub proof fn lemma_list_only_when_named(argv: Seq<Seq<u16>>, list: Option<Result<Seq<Seq<u16>>, String>>)
    ensures
        parse_spec(argv, list) matches ParseView::Parsed(a) ==> (a.paths_file is None ==> parse_spec(argv, None)
            == parse_spec(argv, list)),
{
    if argv.len() > 0 && command_of(argv[0]) is Some {
        let c = command_of(argv[0])->0;
        lemma_scan_without_list(start_scan(c), argv.drop_first(), list);
        lemma_scan_keeps_claim(start_scan(c), argv.drop_first(), list);
        let none: Option<Result<Seq<Seq<u16>>, String>> = None;
        match scan(start_scan(c), argv.drop_first(), list) {
            Ok(st) => {
                if finish(st) is Parsed {
                    assert(finish(st) == ParseView::Parsed(st.args));
                    if st.args.paths_file is None {
                        assert(scan(start_scan(c), argv.drop_first(), none) == scan(
                            start_scan(c),
                            argv.drop_first(),
                            list,
                        ));
                        assert(parse_spec(argv, none) == finish(st));
                    }
                }
            },
            Err(_) => {},
        }
    }
}

/// A command line that names no path list, re-encoded, parses back to
/// itself with no list at all: what an elevated child is handed needs
/// nothing but its arguments.
pub proof fn lemma_argv_round_trip_without_list(a: ArgsView)
    requires
        well_formed(a),
        a.paths_file is None,
    ensures
        parse_spec(argv_spec(a), None) == ParseView::Parsed(a),
{
    lemma_argv_round_trip(a);
    lemma_list_only_when_named(argv_spec(a), Some(Ok::<Seq<Seq<u16>>, String>(a.paths)));
}

} // verus!
