//! The order of a `reinstall`, as decisions between the steps the
//! application carries out.
//!
//! The binaries beside this executable are checked first; then anything an
//! interrupted run left behind is swept while the names are free; the pair is
//! copied only when a destination was named and is not this directory; it is
//! registered; and Explorer is restarted only when something was registered
//! before this ran. A first install has nothing loaded to replace, and
//! closing the desktop to prove it would be rude. A restart that fails or is
//! skipped does not undo the registration: the two are reported side by side.

use vstd::prelude::*;

use crate::reinstall::{binary, binary_name, parent, parent_dir, Restart, Summary, SummaryView, BINARY_COUNT};
use crate::swap::{join, join_path};
use crate::units::{ascii_units, copy_units, copy_list, lossy_string, units_list, units_of, utf16_lossy};

verus! {

/// The next thing a reinstall needs done.
#[derive(Debug)]
pub enum FlowAction {
    /// Find this executable's own path; answer with [`FlowEvent::Located`].
    LocateSelf,
    /// Is this a file? Answer with [`FlowEvent::Answer`].
    IsFile(Vec<u16>),
    /// Is the context menu registered now? Answer with [`FlowEvent::Answer`].
    IsRegistered,
    /// Remove the superseded copies in this directory (those
    /// [`crate::reinstall::sweep`] picks) and answer with the ones that would
    /// not go, [`FlowEvent::Swept`].
    Sweep(Vec<u16>),
    /// Do the two names lead to the same directory
    /// ([`crate::reinstall::same_directory`])? Answer with
    /// [`FlowEvent::Answer`].
    SameDirectory(Vec<u16>, Vec<u16>),
    /// Put the binaries of the first directory in place of those in the
    /// second ([`crate::swap::Swap`]); answer with [`FlowEvent::Swapped`].
    Swap(Vec<u16>, Vec<u16>),
    /// Register this DLL; answer with [`FlowEvent::Registered`].
    Register(Vec<u16>),
    /// Restart Explorer ([`crate::explorer::RestartWatch`]); answer with
    /// [`FlowEvent::Restarted`].
    RestartExplorer,
    /// The reinstall is over.
    Finish(Result<Summary, String>),
}

/// What the last action found.
#[derive(Debug)]
pub enum FlowEvent {
    /// This executable's path, or why it could not be found.
    Located(Result<Vec<u16>, String>),
    Answer(bool),
    /// Superseded copies that would not be deleted.
    Swept(Vec<Vec<u16>>),
    /// The superseded copies a swap made, or why it failed.
    Swapped(Result<Vec<Vec<u16>>, String>),
    Registered(Result<(), String>),
    Restarted(Restart),
}

/// What a [`FlowAction`] means.
pub enum FlowActionView {
    LocateSelf,
    IsFile(Seq<u16>),
    IsRegistered,
    Sweep(Seq<u16>),
    SameDirectory(Seq<u16>, Seq<u16>),
    Swap(Seq<u16>, Seq<u16>),
    Register(Seq<u16>),
    RestartExplorer,
    Finish(Result<SummaryView, Seq<char>>),
}

impl View for FlowAction {
    type V = FlowActionView;

    open spec fn view(&self) -> FlowActionView {
        match self {
            FlowAction::LocateSelf => FlowActionView::LocateSelf,
            FlowAction::IsFile(p) => FlowActionView::IsFile(p@),
            FlowAction::IsRegistered => FlowActionView::IsRegistered,
            FlowAction::Sweep(d) => FlowActionView::Sweep(d@),
            FlowAction::SameDirectory(a, b) => FlowActionView::SameDirectory(a@, b@),
            FlowAction::Swap(a, b) => FlowActionView::Swap(a@, b@),
            FlowAction::Register(p) => FlowActionView::Register(p@),
            FlowAction::RestartExplorer => FlowActionView::RestartExplorer,
            FlowAction::Finish(Ok(s)) => FlowActionView::Finish(Ok(s@)),
            FlowAction::Finish(Err(m)) => FlowActionView::Finish(Err(m@)),
        }
    }
}

/// Where a reinstall stands.
#[derive(Debug, Clone, Copy, PartialEq, Eq, Structural)]
pub enum Stage {
    /// Looking for this executable.
    Locating,
    /// Checking that binary `i` is beside it.
    Checking(usize),
    /// Asking whether anything is registered.
    AskingRegistered,
    /// Sweeping what an earlier run left behind.
    Sweeping,
    /// Asking whether the destination is this directory.
    Comparing,
    /// Copying the pair into the destination.
    Swapping,
    Registering,
    Restarting,
    /// Sweeping the copies the restarted Explorer let go of.
    SweepingAfter,
    Done,
}

/// A reinstall in progress.
pub struct Reinstall {
    stage: Stage,
    to: Option<Vec<u16>>,
    from: Vec<u16>,
    dest: Vec<u16>,
    was: bool,
    superseded: Vec<Vec<u16>>,
}

/// What a [`Reinstall`] means: the stage, the destination named with `--to`,
/// the directory of this executable, the directory the pair goes to, whether
/// anything was registered before, and the superseded copies a swap made.
pub struct FlowView {
    pub stage: Stage,
    pub to: Option<Seq<u16>>,
    pub from: Seq<u16>,
    pub dest: Seq<u16>,
    pub was: bool,
    pub superseded: Seq<Seq<u16>>,
}

impl View for Reinstall {
    type V = FlowView;

    closed spec fn view(&self) -> FlowView {
        FlowView {
            stage: self.stage,
            to: match self.to {
                Some(t) => Some(t@),
                None => None,
            },
            from: self.from@,
            dest: self.dest@,
            was: self.was,
            superseded: units_list(self.superseded@),
        }
    }
}

/// Binary `i` in `dir`.
pub open spec fn binary_path(dir: Seq<u16>, i: int) -> Seq<u16> {
    join(dir, ascii_units(binary_name(i)))
}

/// Where the pair goes: the directory named with `--to`, or this one.
pub open spec fn chosen(to: Option<Seq<u16>>, from: Seq<u16>) -> Seq<u16> {
    match to {
        Some(t) => t,
        None => from,
    }
}

pub open spec fn unlocated(why: Seq<char>) -> Seq<char> {
    "cannot locate own executable: "@ + why
}

pub open spec fn no_directory() -> Seq<char> {
    "the executable has no directory to install from"@
}

pub open spec fn not_there(path: Seq<u16>) -> Seq<char> {
    utf16_lossy(path) + " is not there to install"@
}

pub open spec fn not_installed(dir: Seq<u16>, why: Seq<char>) -> Seq<char> {
    "cannot install into "@ + utf16_lossy(dir) + ": "@ + why
}

pub open spec fn not_registered(dir: Seq<u16>, why: Seq<char>) -> Seq<char> {
    "cannot register "@ + utf16_lossy(dir) + ": "@ + why
}

impl FlowView {
    /// Whether `event` answers what this stage asked for.
    pub open spec fn expects(self, event: FlowEvent) -> bool {
        match self.stage {
            Stage::Locating => event is Located,
            Stage::Checking(_) | Stage::AskingRegistered | Stage::Comparing => event is Answer,
            Stage::Sweeping | Stage::SweepingAfter => event is Swept,
            Stage::Swapping => event is Swapped,
            Stage::Registering => event is Registered,
            Stage::Restarting => event is Restarted,
            Stage::Done => false,
        }
    }

    /// What holds at every stage: once the destination is known it is the
    /// one named, or this directory, and it is compared with this directory
    /// only when it was named.
    pub open spec fn well_formed(self) -> bool {
        match self.stage {
            Stage::Locating | Stage::AskingRegistered | Stage::Done => true,
            Stage::Checking(i) => i < 2,
            Stage::Comparing | Stage::Swapping => self.to is Some && self.dest == chosen(self.to, self.from),
            _ => self.dest == chosen(self.to, self.from),
        }
    }

    pub open spec fn finished(self) -> FlowView {
        FlowView { stage: Stage::Done, ..self }
    }

    pub open spec fn with_stage(self, stage: Stage) -> FlowView {
        FlowView { stage, ..self }
    }

    /// The summary a successful reinstall ends with.
    pub open spec fn summary(self, restart: Restart, left_behind: Seq<Seq<u16>>) -> FlowActionView {
        FlowActionView::Finish(Ok(SummaryView { to: self.dest, restart, left_behind }))
    }

    /// The stage after `event`, and the action it asks for.
    pub open spec fn step(self, event: FlowEvent) -> (FlowView, FlowActionView) {
        let dll = binary_path(self.dest, 1);
        match (self.stage, event) {
            (Stage::Locating, FlowEvent::Located(Err(m))) => (
                self.finished(),
                FlowActionView::Finish(Err(unlocated(m@))),
            ),
            (Stage::Locating, FlowEvent::Located(Ok(exe))) => match parent_dir(exe@) {
                Some(dir) => (
                    FlowView { stage: Stage::Checking(0), from: dir, ..self },
                    FlowActionView::IsFile(binary_path(dir, 0)),
                ),
                None => (self.finished(), FlowActionView::Finish(Err(no_directory()))),
            },
            (Stage::Checking(i), FlowEvent::Answer(present)) => if !present {
                (self.finished(), FlowActionView::Finish(Err(not_there(binary_path(self.from, i as int)))))
            } else if i + 1 < 2 {
                (
                    self.with_stage(Stage::Checking((i + 1) as usize)),
                    FlowActionView::IsFile(binary_path(self.from, i + 1)),
                )
            } else {
                (self.with_stage(Stage::AskingRegistered), FlowActionView::IsRegistered)
            },
            (Stage::AskingRegistered, FlowEvent::Answer(was)) => (
                FlowView { stage: Stage::Sweeping, dest: chosen(self.to, self.from), was, ..self },
                FlowActionView::Sweep(chosen(self.to, self.from)),
            ),
            (Stage::Sweeping, FlowEvent::Swept(_)) => if self.to is Some {
                (self.with_stage(Stage::Comparing), FlowActionView::SameDirectory(self.from, self.dest))
            } else {
                (self.with_stage(Stage::Registering), FlowActionView::Register(dll))
            },
            (Stage::Comparing, FlowEvent::Answer(same)) => if same {
                (self.with_stage(Stage::Registering), FlowActionView::Register(dll))
            } else {
                (self.with_stage(Stage::Swapping), FlowActionView::Swap(self.from, self.dest))
            },
            (Stage::Swapping, FlowEvent::Swapped(Err(m))) => (
                self.finished(),
                FlowActionView::Finish(Err(not_installed(self.dest, m@))),
            ),
            (Stage::Swapping, FlowEvent::Swapped(Ok(list))) => (
                FlowView { stage: Stage::Registering, superseded: units_list(list@), ..self },
                FlowActionView::Register(dll),
            ),
            (Stage::Registering, FlowEvent::Registered(Err(m))) => (
                self.finished(),
                FlowActionView::Finish(Err(not_registered(self.dest, m@))),
            ),
            (Stage::Registering, FlowEvent::Registered(Ok(_))) => if self.was {
                (self.with_stage(Stage::Restarting), FlowActionView::RestartExplorer)
            } else {
                (self.finished(), self.summary(Restart::NotRequested, self.superseded))
            },
            (Stage::Restarting, FlowEvent::Restarted(r)) => if r is Restarted {
                (self.with_stage(Stage::SweepingAfter), FlowActionView::Sweep(self.dest))
            } else {
                (self.finished(), self.summary(r, self.superseded))
            },
            (Stage::SweepingAfter, FlowEvent::Swept(left)) => (
                self.finished(),
                self.summary(Restart::Restarted, units_list(left@)),
            ),
            _ => (self.finished(), FlowActionView::LocateSelf),
        }
    }
}

impl Reinstall {
    /// A reinstall into `to`, the directory named with `--to`, or, without
    /// one, where this executable already is. It begins by finding itself.
    pub fn begin(to: Option<Vec<u16>>) -> (r: (Reinstall, FlowAction))
        ensures
            r.0@.stage == Stage::Locating,
            r.0@.to == match to {
                Some(t) => Some(t@),
                None => None::<Seq<u16>>,
            },
            r.0@.well_formed(),
            r.1@ == FlowActionView::LocateSelf,
    {
        let flow = Reinstall {
            stage: Stage::Locating,
            to,
            from: Vec::new(),
            dest: Vec::new(),
            was: false,
            superseded: Vec::new(),
        };
        (flow, FlowAction::LocateSelf)
    }

    fn finish(self) -> (r: Reinstall)
        ensures
            r@ == self@.finished(),
    {
        Reinstall { stage: Stage::Done, ..self }
    }

    fn summary(&self, restart: Restart, left_behind: Vec<Vec<u16>>) -> (r: FlowAction)
        ensures
            r@ == self@.summary(restart, units_list(left_behind@)),
    {
        FlowAction::Finish(Ok(Summary { to: copy_units(&self.dest), restart, left_behind }))
    }
}

/// A path shown as text, between `prefix` and `suffix`.
fn message(prefix: &str, path: &Vec<u16>, suffix: &str) -> (r: String)
    ensures
        r@ == prefix@ + utf16_lossy(path@) + suffix@,
{
    let mut m = String::from_str(prefix);
    let shown = lossy_string(path.as_slice());
    m.append(shown.as_str());
    m.append(suffix);
    m
}

fn binary_in(dir: &Vec<u16>, i: usize) -> (r: Vec<u16>)
    requires
        i < BINARY_COUNT,
    ensures
        r@ == binary_path(dir@, i as int),
{
    join_path(dir, &units_of(binary(i)))
}

/// The next stage and action once `event` is known. The destination is the
/// one named with `--to`, or this directory; the pair is copied only into a
/// named directory that is not this one; Explorer is restarted only when
/// something was registered before; and once the registration has succeeded
/// the reinstall succeeds, whatever became of Explorer.
pub fn reinstall(flow: Reinstall, event: FlowEvent) -> (r: (Reinstall, FlowAction))
    requires
        flow@.well_formed(),
        flow@.expects(event),
    ensures
        (r.0@, r.1@) == flow@.step(event),
        r.0@.well_formed(),
{
    let mut flow = flow;
    match (flow.stage, event) {
        (Stage::Locating, FlowEvent::Located(Err(m))) => {
            let mut text = String::from_str("cannot locate own executable: ");
            text.append(m.as_str());
            (flow.finish(), FlowAction::Finish(Err(text)))
        },
        (Stage::Locating, FlowEvent::Located(Ok(exe))) => match parent(&exe) {
            Some(dir) => {
                let first = binary_in(&dir, 0);
                flow.from = dir;
                flow.stage = Stage::Checking(0);
                (flow, FlowAction::IsFile(first))
            },
            None => (
                flow.finish(),
                FlowAction::Finish(Err(String::from_str("the executable has no directory to install from"))),
            ),
        },
        (Stage::Checking(i), FlowEvent::Answer(present)) => {
            if !present {
                let path = binary_in(&flow.from, i);
                let text = message("", &path, " is not there to install");
                proof {
                    reveal_strlit("");
                    assert(text@ =~= not_there(binary_path(flow@.from, i as int)));
                }
                (flow.finish(), FlowAction::Finish(Err(text)))
            } else if i + 1 < BINARY_COUNT {
                let next = binary_in(&flow.from, i + 1);
                flow.stage = Stage::Checking(i + 1);
                (flow, FlowAction::IsFile(next))
            } else {
                flow.stage = Stage::AskingRegistered;
                (flow, FlowAction::IsRegistered)
            }
        },
        (Stage::AskingRegistered, FlowEvent::Answer(was)) => {
            flow.dest = match &flow.to {
                Some(t) => copy_units(t),
                None => copy_units(&flow.from),
            };
            flow.was = was;
            flow.stage = Stage::Sweeping;
            let dest = copy_units(&flow.dest);
            (flow, FlowAction::Sweep(dest))
        },
        (Stage::Sweeping, FlowEvent::Swept(_)) => {
            if flow.to.is_some() {
                flow.stage = Stage::Comparing;
                let pair = FlowAction::SameDirectory(copy_units(&flow.from), copy_units(&flow.dest));
                (flow, pair)
            } else {
                flow.stage = Stage::Registering;
                let dll = binary_in(&flow.dest, 1);
                (flow, FlowAction::Register(dll))
            }
        },
        (Stage::Comparing, FlowEvent::Answer(same)) => {
            if same {
                flow.stage = Stage::Registering;
                let dll = binary_in(&flow.dest, 1);
                (flow, FlowAction::Register(dll))
            } else {
                flow.stage = Stage::Swapping;
                let pair = FlowAction::Swap(copy_units(&flow.from), copy_units(&flow.dest));
                (flow, pair)
            }
        },
        (Stage::Swapping, FlowEvent::Swapped(Err(m))) => {
            let mut text = message("cannot install into ", &flow.dest, ": ");
            text.append(m.as_str());
            (flow.finish(), FlowAction::Finish(Err(text)))
        },
        (Stage::Swapping, FlowEvent::Swapped(Ok(list))) => {
            flow.superseded = list;
            flow.stage = Stage::Registering;
            let dll = binary_in(&flow.dest, 1);
            (flow, FlowAction::Register(dll))
        },
        (Stage::Registering, FlowEvent::Registered(Err(m))) => {
            let mut text = message("cannot register ", &flow.dest, ": ");
            text.append(m.as_str());
            (flow.finish(), FlowAction::Finish(Err(text)))
        },
        (Stage::Registering, FlowEvent::Registered(Ok(()))) => {
            if flow.was {
                flow.stage = Stage::Restarting;
                (flow, FlowAction::RestartExplorer)
            } else {
                let left = copy_list(&flow.superseded);
                let done = flow.summary(Restart::NotRequested, left);
                (flow.finish(), done)
            }
        },
        (Stage::Restarting, FlowEvent::Restarted(outcome)) => {
            if let Restart::Restarted = outcome {
                flow.stage = Stage::SweepingAfter;
                let dest = copy_units(&flow.dest);
                (flow, FlowAction::Sweep(dest))
            } else {
                let left = copy_list(&flow.superseded);
                let done = flow.summary(outcome, left);
                (flow.finish(), done)
            }
        },
        (Stage::SweepingAfter, FlowEvent::Swept(left)) => {
            let done = flow.summary(Restart::Restarted, left);
            (flow.finish(), done)
        },
        (_, _) => {
            proof {
                assert(false);
            }
            (flow.finish(), FlowAction::LocateSelf)
        },
    }
}

/// What the order of a reinstall promises, step by step: Explorer is
/// restarted only when something was registered before; the pair is copied
/// only into the directory named with `--to`, from this executable's own
/// directory, and never without one; every sweep and every registration
/// happens in the chosen directory; and once the registration has succeeded,
/// the reinstall ends in success whatever becomes of Explorer.
pub proof fn lemma_reinstall_rules(v: FlowView, e: FlowEvent)
    requires
        v.well_formed(),
        v.expects(e),
    ensures
        ({
            let (w, a) = v.step(e);
            &&& a is RestartExplorer ==> v.was && w.was
            &&& a matches FlowActionView::Swap(f, t) ==> v.to == Some(t) && f == v.from
            &&& v.to is None ==> !(a is Swap)
            &&& a matches FlowActionView::Sweep(d) ==> d == chosen(v.to, v.from)
            &&& a matches FlowActionView::Register(p) ==> p == binary_path(chosen(v.to, v.from), 1)
            &&& v.stage is Restarting ==> (a is Sweep || a matches FlowActionView::Finish(Ok(_)))
            &&& (v.stage is Registering && e matches FlowEvent::Registered(Ok(_))) ==> (a is RestartExplorer
                || a matches FlowActionView::Finish(Ok(_)))
        }),
{
}

} // verus!
