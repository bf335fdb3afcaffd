//! Putting the new binaries in place of the ones Explorer may be using.
//!
//! A file that is mapped into a running process cannot be overwritten or
//! deleted, but it can be renamed: that touches only the directory entry, so
//! the running Explorer keeps the image it already has while the name is
//! freed for the new file.
//!
//! Both new files are first copied beside the old ones under temporary
//! names, before any existing one is disturbed, so the part that can fail on
//! content is over before the installation stops being whole. Then, binary by
//! binary, the old file is renamed aside and the staged one takes its name.
//! A failure undoes what it can and says what it could not: the rollback
//! moves files too.
//!
//! The file system is the caller's: [`swap`] says what to do next and is told
//! what happened. [`lemma_swap_outcome`] proves, against a model of the file
//! system, what a run leaves behind, and [`lemma_swap_failure_reported`] what
//! a failed one owns up to when its own rollback meets failures.

use vstd::prelude::*;

use crate::order::is_separator;
use crate::reinstall::{binary, binary_name, staged_name, staged_spec, superseded_name, superseded_name_spec, BINARY_COUNT};
use crate::units::{ascii_units, copy_units, lossy_string, units_list, units_of, utf16_lossy};

verus! {

/// `name` inside `dir`, with one separator between them.
pub open spec fn join(dir: Seq<u16>, name: Seq<u16>) -> Seq<u16> {
    if dir.len() == 0 {
        name
    } else if is_separator(dir.last()) {
        dir + name
    } else {
        dir.push(0x5C) + name
    }
}

pub fn join_path(dir: &Vec<u16>, name: &Vec<u16>) -> (r: Vec<u16>)
    ensures
        r@ == join(dir@, name@),
{
    let mut r = copy_units(dir);
    if dir.len() > 0 {
        let last = dir[dir.len() - 1];
        if !(last == 0x5C || last == 0x2F) {
            r.push(0x5C);
        }
    }
    let mut more = copy_units(name);
    r.append(&mut more);
    r
}

/// The paths one swap works with, by binary: the new copy in the source
/// directory, its staged copy, the installed name, and where the installed
/// file is set aside.
pub struct SwapPaths {
    pub src: Seq<Seq<u16>>,
    pub staged: Seq<Seq<u16>>,
    pub fin: Seq<Seq<u16>>,
    pub aside: Seq<Seq<u16>>,
}

/// The paths for installing from `from` into `to`, with `stamp` making the
/// temporary names unique.
pub open spec fn swap_paths(from: Seq<u16>, to: Seq<u16>, stamp: Seq<char>) -> SwapPaths {
    SwapPaths {
        src: Seq::new(2, |i: int| join(from, ascii_units(binary_name(i)))),
        staged: Seq::new(2, |i: int| join(to, ascii_units(staged_spec(binary_name(i), stamp)))),
        fin: Seq::new(2, |i: int| join(to, ascii_units(binary_name(i)))),
        aside: Seq::new(2, |i: int| join(to, ascii_units(superseded_name_spec(binary_name(i), stamp)))),
    }
}

/// Where a swap stands.
pub enum PhaseView {
    /// Is the new binary there?
    Check(nat),
    /// Copy it to its staged name.
    Copy(nat),
    /// Staging failed: remove staged copies `next..upto`; `have` were made.
    Discard { have: nat, upto: nat, next: nat },
    /// Is there an installed binary to set aside?
    Probe(nat),
    /// Rename the installed binary aside.
    SetAside(nat),
    /// Rename the staged binary to the installed name; `had` says whether an
    /// installed one was set aside.
    Place(nat, bool),
    /// Placing failed: rename the installed binary back.
    PutBack(nat),
    /// Undoing: remove staged copies `next..`, the exchange having stopped at `at`.
    DropStaged { at: nat, next: nat },
    /// Undoing: remove the new binary of the `d`-th exchanged pair.
    RemoveFinal { at: nat, d: nat },
    /// Undoing: rename the `d`-th set-aside binary back.
    RestoreAside { at: nat, d: nat },
    Finished(Result<Seq<Seq<u16>>, Seq<char>>),
}

/// What a [`Swap`] means.
pub struct SwapView {
    pub paths: SwapPaths,
    pub phase: PhaseView,
    /// Binaries exchanged so far whose installed copy was set aside, in order.
    pub done: Seq<nat>,
    /// Installed names the rollback could not restore.
    pub stuck: Seq<Seq<u16>>,
    /// Why the swap is being undone.
    pub cause: Seq<char>,
}

/// The next thing to do with the file system.
#[derive(Debug, PartialEq, Eq)]
pub enum SwapAction {
    /// Is this a file? Answer with [`SwapEvent::Answer`].
    IsFile(Vec<u16>),
    /// Copy the first file to the second name.
    Copy(Vec<u16>, Vec<u16>),
    /// Does this exist? Answer with [`SwapEvent::Answer`].
    Exists(Vec<u16>),
    /// Rename the first to the second, replacing it.
    Rename(Vec<u16>, Vec<u16>),
    /// Remove this file.
    Remove(Vec<u16>),
    /// The swap is over: the superseded copies it made, or why it failed.
    Finish(Result<Vec<Vec<u16>>, String>),
}

/// What an action found.
#[derive(Debug, PartialEq, Eq)]
pub enum SwapEvent {
    Answer(bool),
    Done(Result<(), String>),
}

/// What a [`SwapAction`] means.
pub enum ActionView {
    IsFile(Seq<u16>),
    Copy(Seq<u16>, Seq<u16>),
    Exists(Seq<u16>),
    Rename(Seq<u16>, Seq<u16>),
    Remove(Seq<u16>),
    Finish(Result<Seq<Seq<u16>>, Seq<char>>),
}

impl View for SwapAction {
    type V = ActionView;

    open spec fn view(&self) -> ActionView {
        match self {
            SwapAction::IsFile(p) => ActionView::IsFile(p@),
            SwapAction::Copy(a, b) => ActionView::Copy(a@, b@),
            SwapAction::Exists(p) => ActionView::Exists(p@),
            SwapAction::Rename(a, b) => ActionView::Rename(a@, b@),
            SwapAction::Remove(p) => ActionView::Remove(p@),
            SwapAction::Finish(Ok(v)) => ActionView::Finish(Ok(units_list(v@))),
            SwapAction::Finish(Err(e)) => ActionView::Finish(Err(e@)),
        }
    }
}

/// Paths joined with `, `, each shown as text.
pub open spec fn listed(paths: Seq<Seq<u16>>) -> Seq<char>
    decreases paths.len(),
{
    if paths.len() == 0 {
        Seq::empty()
    } else if paths.len() == 1 {
        utf16_lossy(paths[0])
    } else {
        listed(paths.drop_last()) + ", "@ + utf16_lossy(paths.last())
    }
}

/// The error a rollback ends with.
pub open spec fn undo_message(cause: Seq<char>, stuck: Seq<Seq<u16>>) -> Seq<char> {
    if stuck.len() == 0 {
        cause
    } else {
        cause + "; and these were left replaced: "@ + listed(stuck)
    }
}

pub open spec fn missing_message(src: Seq<u16>) -> Seq<char> {
    utf16_lossy(src) + " is not there to install"@
}

impl SwapView {
    /// The superseded copies of the exchanged binaries, in order.
    pub open spec fn set_aside(self) -> Seq<Seq<u16>> {
        Seq::new(self.done.len(), |d: int| self.paths.aside[self.done[d] as int])
    }

    /// After the undo of pair `d`: the next pair, or the end.
    pub open spec fn restore_from(self, at: nat, d: nat) -> SwapView {
        if d < self.done.len() {
            SwapView { phase: PhaseView::RemoveFinal { at, d }, ..self }
        } else {
            SwapView {
                phase: PhaseView::Finished(Err(undo_message(self.cause, self.stuck))),
                ..self
            }
        }
    }

    /// Dropping staged copies from `next` on, then restoring.
    pub open spec fn drop_from(self, at: nat, next: nat) -> SwapView {
        if next < 2 {
            SwapView { phase: PhaseView::DropStaged { at, next }, ..self }
        } else {
            self.restore_from(at, 0)
        }
    }

    /// Discarding staged copies from `next` on, then failing.
    pub open spec fn discard_from(self, have: nat, upto: nat, next: nat) -> SwapView {
        if next < upto {
            SwapView { phase: PhaseView::Discard { have, upto, next }, ..self }
        } else {
            SwapView { phase: PhaseView::Finished(Err(self.cause)), ..self }
        }
    }

    /// After binary `i` is in place: the next one, or the end.
    pub open spec fn placed(self, i: nat) -> SwapView {
        if i + 1 < 2 {
            SwapView { phase: PhaseView::Probe(i + 1), ..self }
        } else {
            SwapView { phase: PhaseView::Finished(Ok(self.set_aside())), ..self }
        }
    }

    /// What a swap in this state asks for.
    pub open spec fn action(self) -> ActionView {
        let p = self.paths;
        match self.phase {
            PhaseView::Check(i) => ActionView::IsFile(p.src[i as int]),
            PhaseView::Copy(i) => ActionView::Copy(p.src[i as int], p.staged[i as int]),
            PhaseView::Discard { have, upto, next } => ActionView::Remove(p.staged[next as int]),
            PhaseView::Probe(i) => ActionView::Exists(p.fin[i as int]),
            PhaseView::SetAside(i) => ActionView::Rename(p.fin[i as int], p.aside[i as int]),
            PhaseView::Place(i, had) => ActionView::Rename(p.staged[i as int], p.fin[i as int]),
            PhaseView::PutBack(i) => ActionView::Rename(p.aside[i as int], p.fin[i as int]),
            PhaseView::DropStaged { at, next } => ActionView::Remove(p.staged[next as int]),
            PhaseView::RemoveFinal { at, d } => ActionView::Remove(p.fin[self.done[d as int] as int]),
            PhaseView::RestoreAside { at, d } => ActionView::Rename(
                p.aside[self.done[d as int] as int],
                p.fin[self.done[d as int] as int],
            ),
            PhaseView::Finished(r) => ActionView::Finish(r),
        }
    }

    /// Whether `event` answers what this state asked for.
    pub open spec fn expects(self, event: SwapEvent) -> bool {
        match self.phase {
            PhaseView::Check(_) | PhaseView::Probe(_) => event is Answer,
            PhaseView::Finished(_) => false,
            _ => event is Done,
        }
    }

    /// The state after `event`.
    pub open spec fn next(self, event: SwapEvent) -> SwapView {
        match (self.phase, event) {
            (PhaseView::Check(i), SwapEvent::Answer(true)) => SwapView { phase: PhaseView::Copy(i), ..self },
            (PhaseView::Check(i), SwapEvent::Answer(false)) => SwapView {
                cause: missing_message(self.paths.src[i as int]),
                ..self
            }.discard_from(i, i, 0),
            (PhaseView::Copy(i), SwapEvent::Done(Ok(()))) => if i + 1 < 2 {
                SwapView { phase: PhaseView::Check(i + 1), ..self }
            } else {
                SwapView { phase: PhaseView::Probe(0), ..self }
            },
            (PhaseView::Copy(i), SwapEvent::Done(Err(e))) => SwapView { cause: e@, ..self }.discard_from(
                i,
                i + 1,
                0,
            ),
            (PhaseView::Discard { have, upto, next }, SwapEvent::Done(_)) => self.discard_from(
                have,
                upto,
                next + 1,
            ),
            (PhaseView::Probe(i), SwapEvent::Answer(true)) => SwapView { phase: PhaseView::SetAside(i), ..self },
            (PhaseView::Probe(i), SwapEvent::Answer(false)) => SwapView { phase: PhaseView::Place(i, false), ..self },
            (PhaseView::SetAside(i), SwapEvent::Done(Ok(()))) => SwapView { phase: PhaseView::Place(i, true), ..self },
            (PhaseView::SetAside(i), SwapEvent::Done(Err(e))) => SwapView { cause: e@, ..self }.drop_from(i, i),
            (PhaseView::Place(i, had), SwapEvent::Done(Ok(()))) => if had {
                SwapView { done: self.done.push(i), ..self }.placed(i)
            } else {
                self.placed(i)
            },
            (PhaseView::Place(i, had), SwapEvent::Done(Err(e))) => if had {
                SwapView { phase: PhaseView::PutBack(i), cause: e@, ..self }
            } else {
                SwapView { cause: e@, ..self }.drop_from(i, i)
            },
            (PhaseView::PutBack(i), SwapEvent::Done(_)) => self.drop_from(i, i),
            (PhaseView::DropStaged { at, next }, SwapEvent::Done(_)) => self.drop_from(at, next + 1),
            (PhaseView::RemoveFinal { at, d }, SwapEvent::Done(Ok(()))) => SwapView {
                phase: PhaseView::RestoreAside { at, d },
                ..self
            },
            (PhaseView::RemoveFinal { at, d }, SwapEvent::Done(Err(_))) => SwapView {
                stuck: self.stuck.push(self.paths.fin[self.done[d as int] as int]),
                ..self
            }.restore_from(at, d + 1),
            (PhaseView::RestoreAside { at, d }, SwapEvent::Done(Ok(()))) => self.restore_from(at, d + 1),
            (PhaseView::RestoreAside { at, d }, SwapEvent::Done(Err(_))) => SwapView {
                stuck: self.stuck.push(self.paths.fin[self.done[d as int] as int]),
                ..self
            }.restore_from(at, d + 1),
            _ => self,
        }
    }

    /// Two binaries' worth of paths, and exchanged pairs among them.
    pub open spec fn shaped(self) -> bool {
        &&& self.paths.src.len() == 2
        &&& self.paths.staged.len() == 2
        &&& self.paths.fin.len() == 2
        &&& self.paths.aside.len() == 2
        &&& forall|d: int| 0 <= d < self.done.len() ==> #[trigger] self.done[d] < 2
    }

    /// What holds of every state a swap goes through.
    pub open spec fn well_formed(self) -> bool {
        &&& self.shaped()
        &&& match self.phase {
            PhaseView::Check(i) => i < 2,
            PhaseView::Copy(i) => i < 2,
            PhaseView::Discard { have, upto, next } => next < upto <= 2,
            PhaseView::Probe(i) => i < 2,
            PhaseView::SetAside(i) => i < 2,
            PhaseView::Place(i, _) => i < 2,
            PhaseView::PutBack(i) => i < 2,
            PhaseView::DropStaged { at, next } => next < 2,
            PhaseView::RemoveFinal { at, d } => d < self.done.len(),
            PhaseView::RestoreAside { at, d } => d < self.done.len(),
            PhaseView::Finished(_) => true,
        }
    }
}

/// Where a swap stands, with the data it needs.
enum Phase {
    Check(usize),
    Copy(usize),
    Discard { have: usize, upto: usize, next: usize },
    Probe(usize),
    SetAside(usize),
    Place(usize, bool),
    PutBack(usize),
    DropStaged { at: usize, next: usize },
    RemoveFinal { at: usize, d: usize },
    RestoreAside { at: usize, d: usize },
    Finished(Result<Vec<Vec<u16>>, String>),
}

/// One swap in progress.
pub struct Swap {
    src: Vec<Vec<u16>>,
    staged: Vec<Vec<u16>>,
    fin: Vec<Vec<u16>>,
    aside: Vec<Vec<u16>>,
    phase: Phase,
    done: Vec<usize>,
    stuck: Vec<Vec<u16>>,
    cause: String,
}

impl View for Swap {
    type V = SwapView;

    closed spec fn view(&self) -> SwapView {
        SwapView {
            paths: SwapPaths {
                src: units_list(self.src@),
                staged: units_list(self.staged@),
                fin: units_list(self.fin@),
                aside: units_list(self.aside@),
            },
            phase: match self.phase {
                Phase::Check(i) => PhaseView::Check(i as nat),
                Phase::Copy(i) => PhaseView::Copy(i as nat),
                Phase::Discard { have, upto, next } => PhaseView::Discard {
                    have: have as nat,
                    upto: upto as nat,
                    next: next as nat,
                },
                Phase::Probe(i) => PhaseView::Probe(i as nat),
                Phase::SetAside(i) => PhaseView::SetAside(i as nat),
                Phase::Place(i, had) => PhaseView::Place(i as nat, had),
                Phase::PutBack(i) => PhaseView::PutBack(i as nat),
                Phase::DropStaged { at, next } => PhaseView::DropStaged {
                    at: at as nat,
                    next: next as nat,
                },
                Phase::RemoveFinal { at, d } => PhaseView::RemoveFinal { at: at as nat, d: d as nat },
                Phase::RestoreAside { at, d } => PhaseView::RestoreAside { at: at as nat, d: d as nat },
                Phase::Finished(Ok(v)) => PhaseView::Finished(Ok(units_list(v@))),
                Phase::Finished(Err(e)) => PhaseView::Finished(Err(e@)),
            },
            done: Seq::new(self.done@.len(), |d: int| self.done@[d] as nat),
            stuck: units_list(self.stuck@),
            cause: self.cause@,
        }
    }
}

impl Swap {
    fn paths_for(from: &Vec<u16>, to: &Vec<u16>, stamp: &str) -> (r: (
        Vec<Vec<u16>>,
        Vec<Vec<u16>>,
        Vec<Vec<u16>>,
        Vec<Vec<u16>>,
    ))
        ensures
            units_list(r.0@) == swap_paths(from@, to@, stamp@).src,
            units_list(r.1@) == swap_paths(from@, to@, stamp@).staged,
            units_list(r.2@) == swap_paths(from@, to@, stamp@).fin,
            units_list(r.3@) == swap_paths(from@, to@, stamp@).aside,
    {
        let ghost p = swap_paths(from@, to@, stamp@);
        let mut src: Vec<Vec<u16>> = Vec::new();
        let mut staged: Vec<Vec<u16>> = Vec::new();
        let mut fin: Vec<Vec<u16>> = Vec::new();
        let mut aside: Vec<Vec<u16>> = Vec::new();
        let mut i: usize = 0;
        while i < BINARY_COUNT
            invariant
                i <= BINARY_COUNT,
                p == swap_paths(from@, to@, stamp@),
                src@.len() == i && staged@.len() == i && fin@.len() == i && aside@.len() == i,
                forall|j: int| 0 <= j < i ==> (#[trigger] src@[j])@ == p.src[j],
                forall|j: int| 0 <= j < i ==> (#[trigger] staged@[j])@ == p.staged[j],
                forall|j: int| 0 <= j < i ==> (#[trigger] fin@[j])@ == p.fin[j],
                forall|j: int| 0 <= j < i ==> (#[trigger] aside@[j])@ == p.aside[j],
            decreases BINARY_COUNT - i,
        {
            let name = binary(i);
            let plain = units_of(name);
            src.push(join_path(from, &plain));
            fin.push(join_path(to, &plain));
            let s = staged_name(name, stamp);
            staged.push(join_path(to, &units_of(s.as_str())));
            let a = superseded_name(name, stamp);
            aside.push(join_path(to, &units_of(a.as_str())));
            i = i + 1;
        }
        assert(units_list(src@) =~= p.src);
        assert(units_list(staged@) =~= p.staged);
        assert(units_list(fin@) =~= p.fin);
        assert(units_list(aside@) =~= p.aside);
        (src, staged, fin, aside)
    }

    /// Starts a swap of the binaries in `from` into `to`; `stamp` makes the
    /// temporary names unique.
    pub fn start(from: &Vec<u16>, to: &Vec<u16>, stamp: &str) -> (r: (Swap, SwapAction))
        ensures
            r.0@ == swap_start(from@, to@, stamp@),
            r.0@.well_formed(),
            r.1@ == r.0@.action(),
    {
        let (src, staged, fin, aside) = Swap::paths_for(from, to, stamp);
        let swap = Swap {
            src,
            staged,
            fin,
            aside,
            phase: Phase::Check(0),
            done: Vec::new(),
            stuck: Vec::new(),
            cause: String::new(),
        };
        assert(swap@.done =~= Seq::<nat>::empty());
        assert(swap@.stuck =~= Seq::<Seq<u16>>::empty());
        let action = swap.action();
        (swap, action)
    }

    fn listed_text(stuck: &Vec<Vec<u16>>) -> (r: String)
        ensures
            r@ == listed(units_list(stuck@)),
    {
        let ghost all = units_list(stuck@);
        let mut text = String::new();
        let mut i: usize = 0;
        while i < stuck.len()
            invariant
                i <= stuck.len(),
                all == units_list(stuck@),
                text@ == listed(all.take(i as int)),
            decreases stuck.len() - i,
        {
            proof {
                let next = all.take(i + 1);
                assert(next.drop_last() =~= all.take(i as int));
                assert(next.last() == stuck@[i as int]@);
            }
            if i > 0 {
                text.append(", ");
            } else {
                assert(all.take(1) =~= seq![stuck@[0]@]);
            }
            let name = lossy_string(stuck[i].as_slice());
            text.append(name.as_str());
            i = i + 1;
        }
        assert(all.take(stuck.len() as int) =~= all);
        text
    }

    /// Moves to the undo of pair `d`, or ends the undo.
    fn restore_from(&mut self, at: usize, d: usize)
        requires
            old(self)@.shaped(),
            d <= old(self)@.done.len(),
        ensures
            final(self)@ == old(self)@.restore_from(at as nat, d as nat),
            final(self)@.well_formed(),
    {
        if d < self.done.len() {
            self.phase = Phase::RemoveFinal { at, d };
        } else {
            let mut message = self.cause.clone();
            if self.stuck.len() > 0 {
                message.append("; and these were left replaced: ");
                let names = Swap::listed_text(&self.stuck);
                message.append(names.as_str());
            }
            self.phase = Phase::Finished(Err(message));
        }
    }

    fn drop_from(&mut self, at: usize, next: usize)
        requires
            old(self)@.shaped(),
        ensures
            final(self)@ == old(self)@.drop_from(at as nat, next as nat),
            final(self)@.well_formed(),
    {
        if next < BINARY_COUNT {
            self.phase = Phase::DropStaged { at, next };
        } else {
            self.restore_from(at, 0);
        }
    }

    fn discard_from(&mut self, have: usize, upto: usize, next: usize)
        requires
            old(self)@.shaped(),
            upto <= 2,
        ensures
            final(self)@ == old(self)@.discard_from(have as nat, upto as nat, next as nat),
            final(self)@.well_formed(),
    {
        if next < upto {
            self.phase = Phase::Discard { have, upto, next };
        } else {
            self.phase = Phase::Finished(Err(self.cause.clone()));
        }
    }

    fn placed(&mut self, i: usize)
        requires
            old(self)@.shaped(),
            i < 2,
        ensures
            final(self)@ == old(self)@.placed(i as nat),
            final(self)@.well_formed(),
    {
        if i + 1 < BINARY_COUNT {
            self.phase = Phase::Probe(i + 1);
        } else {
            let mut out: Vec<Vec<u16>> = Vec::new();
            let mut d: usize = 0;
            while d < self.done.len()
                invariant
                    self@.shaped(),
                    d <= self.done.len(),
                    out@.len() == d,
                    forall|k: int| 0 <= k < d ==> (#[trigger] out@[k])@ == self@.set_aside()[k],
                decreases self.done.len() - d,
            {
                let k = self.done[d];
                assert(self@.done[d as int] == k as nat);
                assert(self.aside@.len() == self@.paths.aside.len());
                assert(self@.paths.aside[k as int] == self.aside@[k as int]@);
                out.push(copy_units(&self.aside[k]));
                d = d + 1;
            }
            assert(units_list(out@) =~= self@.set_aside());
            self.phase = Phase::Finished(Ok(out));
        }
    }

    /// What this swap asks for now.
    fn action(&self) -> (r: SwapAction)
        requires
            self@.well_formed(),
        ensures
            r@ == self@.action(),
    {
        match &self.phase {
            Phase::Check(i) => SwapAction::IsFile(copy_units(&self.src[*i])),
            Phase::Copy(i) => SwapAction::Copy(copy_units(&self.src[*i]), copy_units(&self.staged[*i])),
            Phase::Discard { have, upto, next } => SwapAction::Remove(copy_units(&self.staged[*next])),
            Phase::Probe(i) => SwapAction::Exists(copy_units(&self.fin[*i])),
            Phase::SetAside(i) => SwapAction::Rename(copy_units(&self.fin[*i]), copy_units(&self.aside[*i])),
            Phase::Place(i, _) => SwapAction::Rename(copy_units(&self.staged[*i]), copy_units(&self.fin[*i])),
            Phase::PutBack(i) => SwapAction::Rename(copy_units(&self.aside[*i]), copy_units(&self.fin[*i])),
            Phase::DropStaged { at, next } => SwapAction::Remove(copy_units(&self.staged[*next])),
            Phase::RemoveFinal { at, d } => {
                let k = self.done[*d];
                SwapAction::Remove(copy_units(&self.fin[k]))
            },
            Phase::RestoreAside { at, d } => {
                let k = self.done[*d];
                SwapAction::Rename(copy_units(&self.aside[k]), copy_units(&self.fin[k]))
            },
            Phase::Finished(Ok(v)) => SwapAction::Finish(Ok(crate::units::copy_list(v))),
            Phase::Finished(Err(e)) => SwapAction::Finish(Err(e.clone())),
        }
    }
}

/// Takes in what the last action found, and says what to do next. The
/// file-system model in [`lemma_swap_outcome`] says what a whole run
/// leaves behind.
pub fn swap(machine: &mut Swap, event: SwapEvent) -> (r: SwapAction)
    requires
        old(machine)@.well_formed(),
        old(machine)@.expects(event),
    ensures
        final(machine)@ == old(machine)@.next(event),
        final(machine)@.well_formed(),
        r@ == final(machine)@.action(),
{
    let ghost before = machine@;
    match (&machine.phase, event) {
        (Phase::Check(i), SwapEvent::Answer(present)) => {
            let i = *i;
            if present {
                machine.phase = Phase::Copy(i);
            } else {
                let mut m = lossy_string(machine.src[i].as_slice());
                m.append(" is not there to install");
                machine.cause = m;
                machine.discard_from(i, i, 0);
            }
        },
        (Phase::Copy(i), SwapEvent::Done(Ok(()))) => {
            let i = *i;
            if i + 1 < BINARY_COUNT {
                machine.phase = Phase::Check(i + 1);
            } else {
                machine.phase = Phase::Probe(0);
            }
        },
        (Phase::Copy(i), SwapEvent::Done(Err(e))) => {
            let i = *i;
            machine.cause = e;
            machine.discard_from(i, i + 1, 0);
        },
        (Phase::Discard { have, upto, next }, SwapEvent::Done(_)) => {
            let (have, upto, next) = (*have, *upto, *next);
            machine.discard_from(have, upto, next + 1);
        },
        (Phase::Probe(i), SwapEvent::Answer(present)) => {
            let i = *i;
            if present {
                machine.phase = Phase::SetAside(i);
            } else {
                machine.phase = Phase::Place(i, false);
            }
        },
        (Phase::SetAside(i), SwapEvent::Done(Ok(()))) => {
            let i = *i;
            machine.phase = Phase::Place(i, true);
        },
        (Phase::SetAside(i), SwapEvent::Done(Err(e))) => {
            let i = *i;
            machine.cause = e;
            machine.drop_from(i, i);
        },
        (Phase::Place(i, had), SwapEvent::Done(Ok(()))) => {
            let (i, had) = (*i, *had);
            if had {
                machine.done.push(i);
                assert(machine@.done =~= before.done.push(i as nat));
            }
            machine.placed(i);
        },
        (Phase::Place(i, had), SwapEvent::Done(Err(e))) => {
            let (i, had) = (*i, *had);
            machine.cause = e;
            if had {
                machine.phase = Phase::PutBack(i);
            } else {
                machine.drop_from(i, i);
            }
        },
        (Phase::PutBack(i), SwapEvent::Done(_)) => {
            let i = *i;
            machine.drop_from(i, i);
        },
        (Phase::DropStaged { at, next }, SwapEvent::Done(_)) => {
            let (at, next) = (*at, *next);
            machine.drop_from(at, next + 1);
        },
        (Phase::RemoveFinal { at, d }, SwapEvent::Done(Ok(()))) => {
            let (at, d) = (*at, *d);
            machine.phase = Phase::RestoreAside { at, d };
        },
        (Phase::RemoveFinal { at, d }, SwapEvent::Done(Err(_))) => {
            let (at, d) = (*at, *d);
            assert(d < machine.done.len());
            let k = machine.done[d];
            let after = d + 1;
            machine.stuck.push(copy_units(&machine.fin[k]));
            assert(machine@.stuck =~= before.stuck.push(before.paths.fin[before.done[d as int] as int]));
            machine.restore_from(at, after);
        },
        (Phase::RestoreAside { at, d }, SwapEvent::Done(Ok(()))) => {
            let (at, d) = (*at, *d);
            assert(d < machine.done.len());
            machine.restore_from(at, d + 1);
        },
        (Phase::RestoreAside { at, d }, SwapEvent::Done(Err(_))) => {
            let (at, d) = (*at, *d);
            assert(d < machine.done.len());
            let k = machine.done[d];
            let after = d + 1;
            machine.stuck.push(copy_units(&machine.fin[k]));
            assert(machine@.stuck =~= before.stuck.push(before.paths.fin[before.done[d as int] as int]));
            machine.restore_from(at, after);
        },
        (_, _) => {
            assert(false);
        },
    }
    machine.action()
}

/// A model of the file system: what each path holds, if anything.
pub open spec fn look(fs: Map<Seq<u16>, int>, x: Seq<u16>) -> Option<int> {
    if fs.dom().contains(x) {
        Some(fs[x])
    } else {
        None
    }
}

/// What an action does to the file system when `event` is its outcome. A
/// failed operation changes nothing; a rename replaces its target.
pub open spec fn effect(fs: Map<Seq<u16>, int>, a: ActionView, e: SwapEvent) -> Map<Seq<u16>, int> {
    match (a, e) {
        (ActionView::Copy(from, to), SwapEvent::Done(Ok(()))) => fs.insert(to, fs[from]),
        (ActionView::Rename(from, to), SwapEvent::Done(Ok(()))) => fs.remove(from).insert(to, fs[from]),
        (ActionView::Remove(x), SwapEvent::Done(Ok(()))) => fs.remove(x),
        _ => fs,
    }
}

/// Whether an operation reported success.
pub open spec fn succeeded(e: SwapEvent) -> bool {
    e matches SwapEvent::Done(Ok(_))
}

/// Whether `e` can be the outcome of `a` on `fs`: questions are answered
/// truly, and only an existing file can be copied or renamed.
pub open spec fn possible(fs: Map<Seq<u16>, int>, a: ActionView, e: SwapEvent) -> bool {
    match a {
        ActionView::IsFile(x) => e == SwapEvent::Answer(fs.dom().contains(x)),
        ActionView::Exists(x) => e == SwapEvent::Answer(fs.dom().contains(x)),
        ActionView::Copy(from, _) => e is Done && (succeeded(e) ==> fs.dom().contains(from)),
        ActionView::Rename(from, _) => e is Done && (succeeded(e) ==> fs.dom().contains(from)),
        ActionView::Remove(_) => e is Done,
        ActionView::Finish(_) => false,
    }
}

/// Whether the swap is undoing what it did.
pub open spec fn undoing(v: SwapView) -> bool {
    match v.phase {
        PhaseView::Discard { .. } | PhaseView::PutBack(_) | PhaseView::DropStaged { .. }
        | PhaseView::RemoveFinal { .. } | PhaseView::RestoreAside { .. } => true,
        _ => false,
    }
}

/// A swap run against a file system: the state and file system after
/// `events`.
pub open spec fn run_swap(v: SwapView, fs: Map<Seq<u16>, int>, events: Seq<SwapEvent>) -> (SwapView, Map<Seq<u16>, int>)
    decreases events.len(),
{
    if events.len() == 0 {
        (v, fs)
    } else {
        run_swap(v.next(events[0]), effect(fs, v.action(), events[0]), events.drop_first())
    }
}

/// Every event answers the action asked for and is a possible outcome of it
/// on the file system as it then is, and every step of a rollback succeeds.
pub open spec fn clean_run(v: SwapView, fs: Map<Seq<u16>, int>, events: Seq<SwapEvent>) -> bool
    decreases events.len(),
{
    events.len() == 0 || {
        &&& v.expects(events[0])
        &&& possible(fs, v.action(), events[0])
        &&& (undoing(v) ==> succeeded(events[0]))
        &&& clean_run(v.next(events[0]), effect(fs, v.action(), events[0]), events.drop_first())
    }
}

/// The eight paths of a swap are different paths.
pub open spec fn distinct_paths(p: SwapPaths) -> bool {
    let n = seq![p.src[0], p.src[1], p.staged[0], p.staged[1], p.fin[0], p.fin[1], p.aside[0], p.aside[1]];
    forall|a: int, b: int| 0 <= a < b < 8 ==> #[trigger] n[a] != #[trigger] n[b]
}

/// Nothing lies at the temporary names yet.
pub open spec fn fresh(p: SwapPaths, fs0: Map<Seq<u16>, int>) -> bool {
    forall|j: int| 0 <= j < 2 ==> !fs0.dom().contains(#[trigger] p.staged[j]) && !fs0.dom().contains(p.aside[j])
}

/// Where one binary stands.
pub enum Slot {
    /// As before the swap.
    Untouched,
    /// The new copy is staged beside the installed one.
    Staged,
    /// The new binary is installed; the old one, if any, set aside.
    Placed,
    /// The old one is set aside; the new one still staged.
    Displaced,
    /// The old one is set aside and nothing is installed.
    Emptied,
}

pub open spec fn owned(p: SwapPaths, j: int, x: Seq<u16>) -> bool {
    x == p.staged[j] || x == p.fin[j] || x == p.aside[j]
}

/// What a path of binary `j` holds in a slot.
pub open spec fn slot_look(p: SwapPaths, fs0: Map<Seq<u16>, int>, j: int, s: Slot, x: Seq<u16>) -> Option<int> {
    if x == p.staged[j] {
        match s {
            Slot::Staged | Slot::Displaced => look(fs0, p.src[j]),
            _ => None,
        }
    } else if x == p.fin[j] {
        match s {
            Slot::Untouched | Slot::Staged => look(fs0, p.fin[j]),
            Slot::Placed => look(fs0, p.src[j]),
            _ => None,
        }
    } else {
        match s {
            Slot::Placed | Slot::Displaced | Slot::Emptied => look(fs0, p.fin[j]),
            _ => None,
        }
    }
}

/// What a path holds when the binaries stand in slots `s0` and `s1`.
pub open spec fn expected(p: SwapPaths, fs0: Map<Seq<u16>, int>, s0: Slot, s1: Slot, x: Seq<u16>) -> Option<int> {
    if owned(p, 0, x) {
        slot_look(p, fs0, 0, s0, x)
    } else if owned(p, 1, x) {
        slot_look(p, fs0, 1, s1, x)
    } else {
        look(fs0, x)
    }
}

pub open spec fn restored(done: Seq<nat>, d: nat, j: int) -> bool {
    exists|k: int| 0 <= k < d && done[k] == j
}

/// Where binary `j` stands in state `v`.
pub open spec fn slot_of(v: SwapView, j: int) -> Slot {
    match v.phase {
        PhaseView::Check(i) => if j < i { Slot::Staged } else { Slot::Untouched },
        PhaseView::Copy(i) => if j < i { Slot::Staged } else { Slot::Untouched },
        PhaseView::Discard { have, upto, next } => if next <= j < have { Slot::Staged } else { Slot::Untouched },
        PhaseView::Probe(i) => if j < i { Slot::Placed } else { Slot::Staged },
        PhaseView::SetAside(i) => if j < i { Slot::Placed } else { Slot::Staged },
        PhaseView::Place(i, had) => if j < i {
            Slot::Placed
        } else if j == i && had {
            Slot::Displaced
        } else {
            Slot::Staged
        },
        PhaseView::PutBack(i) => if j < i {
            Slot::Placed
        } else if j == i {
            Slot::Displaced
        } else {
            Slot::Staged
        },
        PhaseView::DropStaged { at, next } => if j < at {
            Slot::Placed
        } else if j < next {
            Slot::Untouched
        } else {
            Slot::Staged
        },
        PhaseView::RemoveFinal { at, d } => if j < at && !restored(v.done, d, j) {
            Slot::Placed
        } else {
            Slot::Untouched
        },
        PhaseView::RestoreAside { at, d } => if j < at && j == v.done[d as int] {
            Slot::Emptied
        } else if j < at && !restored(v.done, d, j) {
            Slot::Placed
        } else {
            Slot::Untouched
        },
        PhaseView::Finished(_) => Slot::Placed,
    }
}

/// The binaries set aside so far are exactly those below `bound` that were
/// installed before, in order.
pub open spec fn done_matches(p: SwapPaths, done: Seq<nat>, fs0: Map<Seq<u16>, int>, bound: nat) -> bool {
    &&& forall|k: int| 0 <= k < done.len() ==> #[trigger] done[k] < bound && fs0.dom().contains(p.fin[done[k] as int])
    &&& forall|a: int, b: int| 0 <= a < b < done.len() ==> #[trigger] done[a] < #[trigger] done[b]
    &&& forall|j: int| 0 <= j < bound && fs0.dom().contains(#[trigger] p.fin[j]) ==> exists|k: int| 0 <= k < done.len() && done[k] == j
}

/// The exchanged pairs are binaries below `bound` that were installed before,
/// each once, in order.
pub open spec fn done_valid(p: SwapPaths, done: Seq<nat>, fs0: Map<Seq<u16>, int>, bound: nat) -> bool {
    &&& forall|k: int| 0 <= k < done.len() ==> #[trigger] done[k] < bound && fs0.dom().contains(p.fin[done[k] as int])
    &&& forall|a: int, b: int| 0 <= a < b < done.len() ==> #[trigger] done[a] < #[trigger] done[b]
}

/// The set-aside copies of the binaries that were installed before the swap,
/// in order.
pub open spec fn present_asides(p: SwapPaths, fs0: Map<Seq<u16>, int>) -> Seq<Seq<u16>> {
    (if fs0.dom().contains(p.fin[0]) { seq![p.aside[0]] } else { Seq::empty() })
        + (if fs0.dom().contains(p.fin[1]) { seq![p.aside[1]] } else { Seq::empty() })
}

/// A finished swap that succeeded: each installed name holds the new binary,
/// each binary installed before is set aside and listed, nothing is left
/// staged, and no other path changed.
pub open spec fn installed_outcome(p: SwapPaths, fs0: Map<Seq<u16>, int>, fs: Map<Seq<u16>, int>, list: Seq<Seq<u16>>) -> bool {
    &&& forall|j: int| 0 <= j < 2 ==> look(fs, #[trigger] p.fin[j]) == look(fs0, p.src[j])
    &&& forall|j: int| 0 <= j < 2 ==> look(fs, #[trigger] p.aside[j]) == look(fs0, p.fin[j])
    &&& forall|j: int| 0 <= j < 2 ==> look(fs, #[trigger] p.staged[j]) is None
    &&& list == present_asides(p, fs0)
    &&& forall|x: Seq<u16>| !owned(p, 0, x) && !owned(p, 1, x) ==> look(fs, x) == look(fs0, x)
}

/// A finished swap that failed with a clean rollback: every binary that was
/// installed before is installed again and nothing of it is set aside,
/// nothing is left staged, and no other path changed.
pub open spec fn rolled_back(p: SwapPaths, fs0: Map<Seq<u16>, int>, fs: Map<Seq<u16>, int>) -> bool {
    &&& forall|j: int| 0 <= j < 2 ==> look(fs, #[trigger] p.staged[j]) is None
    &&& forall|j: int| 0 <= j < 2 && fs0.dom().contains(#[trigger] p.fin[j]) ==> look(fs, p.fin[j]) == look(fs0, p.fin[j])
        && look(fs, p.aside[j]) is None
    &&& forall|x: Seq<u16>| !owned(p, 0, x) && !owned(p, 1, x) ==> look(fs, x) == look(fs0, x)
}

/// What every state of a clean run keeps of the file system.
pub open spec fn swap_inv(v: SwapView, fs0: Map<Seq<u16>, int>, fs: Map<Seq<u16>, int>) -> bool {
    &&& v.well_formed()
    &&& distinct_paths(v.paths)
    &&& fresh(v.paths, fs0)
    &&& v.stuck.len() == 0
    &&& match v.phase {
        PhaseView::Check(_) | PhaseView::Copy(_) => v.done.len() == 0,
        PhaseView::Discard { have, upto, next } => v.done.len() == 0 && have <= upto,
        PhaseView::Probe(i) | PhaseView::SetAside(i) | PhaseView::PutBack(i) => done_matches(v.paths, v.done, fs0, i),
        PhaseView::Place(i, had) => done_matches(v.paths, v.done, fs0, i) && had == fs0.dom().contains(v.paths.fin[i as int]),
        PhaseView::DropStaged { at, next } => done_matches(v.paths, v.done, fs0, at) && at <= next && at < 2,
        PhaseView::RemoveFinal { at, d } | PhaseView::RestoreAside { at, d } => done_matches(v.paths, v.done, fs0, at),
        PhaseView::Finished(Ok(list)) => done_matches(v.paths, v.done, fs0, 2) && list == v.set_aside(),
        PhaseView::Finished(Err(m)) => m == v.cause && done_valid(v.paths, v.done, fs0, 2),
    }
    &&& match v.phase {
        PhaseView::SetAside(i) => fs0.dom().contains(v.paths.fin[i as int]),
        PhaseView::PutBack(i) => fs0.dom().contains(v.paths.fin[i as int]),
        _ => true,
    }
    &&& match v.phase {
        PhaseView::Finished(Err(_)) => rolled_back(v.paths, fs0, fs),
        _ => holds(v.paths, fs0, slot_of(v, 0), slot_of(v, 1), fs),
    }
}

/// Every path holds what the two slots say it should.
pub open spec fn holds(p: SwapPaths, fs0: Map<Seq<u16>, int>, s0: Slot, s1: Slot, fs: Map<Seq<u16>, int>) -> bool {
    forall|x: Seq<u16>| #[trigger] look(fs, x) == expected(p, fs0, s0, s1, x)
}

/// The paths' differences as they are used below.
pub open spec fn apart(p: SwapPaths) -> bool {
    &&& p.src.len() == 2 && p.staged.len() == 2 && p.fin.len() == 2 && p.aside.len() == 2
    &&& p.staged[0] != p.staged[1]
    &&& p.fin[0] != p.fin[1]
    &&& p.aside[0] != p.aside[1]
    &&& forall|j: int, k: int| 0 <= j < 2 && 0 <= k < 2 ==> {
            &&& #[trigger] p.src[j] != #[trigger] p.staged[k]
            &&& p.src[j] != p.fin[k]
            &&& p.src[j] != p.aside[k]
            &&& p.staged[j] != p.fin[k]
            &&& p.staged[j] != p.aside[k]
            &&& p.fin[j] != p.aside[k]
        }
}

/// Binary `j` moving to slot `t`, with only its own paths changing, keeps
/// every path holding what the slots say.
proof fn lemma_move(
    p: SwapPaths,
    fs0: Map<Seq<u16>, int>,
    s0: Slot,
    s1: Slot,
    fs: Map<Seq<u16>, int>,
    fs2: Map<Seq<u16>, int>,
    j: int,
    t: Slot,
)
    requires
        apart(p),
        0 <= j < 2,
        holds(p, fs0, s0, s1, fs),
        forall|x: Seq<u16>| !owned(p, j, x) ==> #[trigger] look(fs2, x) == look(fs, x),
        look(fs2, p.staged[j]) == slot_look(p, fs0, j, t, p.staged[j]),
        look(fs2, p.fin[j]) == slot_look(p, fs0, j, t, p.fin[j]),
        look(fs2, p.aside[j]) == slot_look(p, fs0, j, t, p.aside[j]),
    ensures
        holds(p, fs0, if j == 0 { t } else { s0 }, if j == 1 { t } else { s1 }, fs2),
{
    let n0 = if j == 0 { t } else { s0 };
    let n1 = if j == 1 { t } else { s1 };
    assert forall|x: Seq<u16>| #[trigger] look(fs2, x) == expected(p, fs0, n0, n1, x) by {
        if owned(p, j, x) {
            assert(!owned(p, 1 - j, x));
        } else {
            assert(look(fs, x) == expected(p, fs0, s0, s1, x));
        }
    }
}

/// The pairwise differences of the eight paths, one by one.
proof fn lemma_apart(p: SwapPaths)
    requires
        distinct_paths(p),
    ensures
        p.src[0] != p.src[1],
        p.staged[0] != p.staged[1],
        p.fin[0] != p.fin[1],
        p.aside[0] != p.aside[1],
        forall|j: int, k: int| 0 <= j < 2 && 0 <= k < 2 ==> {
            &&& #[trigger] p.src[j] != #[trigger] p.staged[k]
            &&& p.src[j] != p.fin[k]
            &&& p.src[j] != p.aside[k]
            &&& p.staged[j] != p.fin[k]
            &&& p.staged[j] != p.aside[k]
            &&& p.fin[j] != p.aside[k]
        },
{
    let n = seq![p.src[0], p.src[1], p.staged[0], p.staged[1], p.fin[0], p.fin[1], p.aside[0], p.aside[1]];
    assert(n[0] != n[1] && n[2] != n[3] && n[4] != n[5] && n[6] != n[7]);
    assert(n[0] != n[2] && n[0] != n[3] && n[0] != n[4] && n[0] != n[5] && n[0] != n[6] && n[0] != n[7]);
    assert(n[1] != n[2] && n[1] != n[3] && n[1] != n[4] && n[1] != n[5] && n[1] != n[6] && n[1] != n[7]);
    assert(n[2] != n[4] && n[2] != n[5] && n[2] != n[6] && n[2] != n[7]);
    assert(n[3] != n[4] && n[3] != n[5] && n[3] != n[6] && n[3] != n[7]);
    assert(n[4] != n[6] && n[4] != n[7] && n[5] != n[6] && n[5] != n[7]);
}

/// The slots a clean rollback ends in leave the installation as it was.
proof fn lemma_rolled_back(p: SwapPaths, fs0: Map<Seq<u16>, int>, s0: Slot, s1: Slot, fs: Map<Seq<u16>, int>)
    requires
        apart(p),
        holds(p, fs0, s0, s1, fs),
        s0 is Untouched || (s0 is Placed && !fs0.dom().contains(p.fin[0])),
        s1 is Untouched || (s1 is Placed && !fs0.dom().contains(p.fin[1])),
    ensures
        rolled_back(p, fs0, fs),
{
    assert forall|j: int| 0 <= j < 2 implies look(fs, #[trigger] p.staged[j]) is None by {
        assert(look(fs, p.staged[j]) == expected(p, fs0, s0, s1, p.staged[j]));
    }
    assert forall|j: int| 0 <= j < 2 && fs0.dom().contains(#[trigger] p.fin[j]) implies look(fs, p.fin[j]) == look(fs0, p.fin[j])
        && look(fs, p.aside[j]) is None by {
        assert(look(fs, p.fin[j]) == expected(p, fs0, s0, s1, p.fin[j]));
        assert(look(fs, p.aside[j]) == expected(p, fs0, s0, s1, p.aside[j]));
    }
    assert forall|x: Seq<u16>| !owned(p, 0, x) && !owned(p, 1, x) implies look(fs, x) == look(fs0, x) by {
        assert(look(fs, x) == expected(p, fs0, s0, s1, x));
    }
}

/// A step while the new binaries are checked and staged, or while staging is
/// undone, keeps the invariant.
proof fn lemma_step_stage(v: SwapView, fs0: Map<Seq<u16>, int>, fs: Map<Seq<u16>, int>, e: SwapEvent)
    requires
        swap_inv(v, fs0, fs),
        v.expects(e),
        possible(fs, v.action(), e),
        undoing(v) ==> succeeded(e),
        v.phase is Check || v.phase is Copy || v.phase is Discard,
    ensures
        swap_inv(v.next(e), fs0, effect(fs, v.action(), e)),
{
    let p = v.paths;
    lemma_apart(p);
    let w = v.next(e);
    let fs2 = effect(fs, v.action(), e);
    let s0 = slot_of(v, 0);
    let s1 = slot_of(v, 1);
    match v.phase {
        PhaseView::Check(i) => {
            assert(fs2 == fs);
            if e == SwapEvent::Answer(true) {
                assert(w.phase == PhaseView::Copy(i));
                assert(slot_of(w, 0) == s0 && slot_of(w, 1) == s1);
            } else if i == 0 {
                lemma_rolled_back(p, fs0, s0, s1, fs);
            } else {
                assert(w.phase == (PhaseView::Discard { have: i, upto: i, next: 0 }));
                assert(slot_of(w, 0) == s0 && slot_of(w, 1) == s1);
            }
        },
        PhaseView::Copy(i) => {
            if succeeded(e) {
                assert(look(fs, p.src[i as int]) == expected(p, fs0, s0, s1, p.src[i as int]));
                assert(look(fs, p.fin[i as int]) == expected(p, fs0, s0, s1, p.fin[i as int]));
                assert(look(fs, p.aside[i as int]) == expected(p, fs0, s0, s1, p.aside[i as int]));
                lemma_move(p, fs0, s0, s1, fs, fs2, i as int, Slot::Staged);
            } else {
                assert(fs2 == fs);
                assert(w.phase == (PhaseView::Discard { have: i, upto: i + 1, next: 0 }));
                assert(slot_of(w, 0) == s0 && slot_of(w, 1) == s1);
            }
        },
        PhaseView::Discard { have, upto, next } => {
            assert(look(fs, p.fin[next as int]) == expected(p, fs0, s0, s1, p.fin[next as int]));
            assert(look(fs, p.aside[next as int]) == expected(p, fs0, s0, s1, p.aside[next as int]));
            lemma_move(p, fs0, s0, s1, fs, fs2, next as int, Slot::Untouched);
            if next + 1 >= upto {
                lemma_rolled_back(p, fs0, Slot::Untouched, Slot::Untouched, fs2);
            } else {
                assert(slot_of(w, 0) == (if next == 0 { Slot::Untouched } else { s0 }));
                assert(slot_of(w, 1) == (if next == 1 { Slot::Untouched } else { s1 }));
            }
        },
        _ => {},
    }
}

/// Binary `i` placed: it joins the exchanged pairs if an installed copy was
/// set aside.
proof fn lemma_done_grows(p: SwapPaths, done: Seq<nat>, fs0: Map<Seq<u16>, int>, i: nat, had: bool)
    requires
        done_matches(p, done, fs0, i),
        had == fs0.dom().contains(p.fin[i as int]),
    ensures
        done_matches(p, if had { done.push(i) } else { done }, fs0, i + 1),
{
    let d2 = if had { done.push(i) } else { done };
    assert forall|j: int| 0 <= j < i + 1 && fs0.dom().contains(#[trigger] p.fin[j]) implies exists|k: int| 0 <= k < d2.len() && d2[k] == j by {
        if j < i {
            let k = choose|k: int| 0 <= k < done.len() && done[k] == j;
            assert(d2[k] == j);
        } else {
            assert(d2[done.len() as int] == j);
        }
    }
}

/// A step while the binaries are exchanged keeps the invariant.
proof fn lemma_step_exchange(v: SwapView, fs0: Map<Seq<u16>, int>, fs: Map<Seq<u16>, int>, e: SwapEvent)
    requires
        swap_inv(v, fs0, fs),
        v.expects(e),
        possible(fs, v.action(), e),
        undoing(v) ==> succeeded(e),
        v.phase is Probe || v.phase is SetAside || v.phase is Place || v.phase is PutBack,
    ensures
        swap_inv(v.next(e), fs0, effect(fs, v.action(), e)),
{
    let p = v.paths;
    lemma_apart(p);
    let w = v.next(e);
    let fs2 = effect(fs, v.action(), e);
    let s0 = slot_of(v, 0);
    let s1 = slot_of(v, 1);
    match v.phase {
        PhaseView::Probe(i) => {
            assert(look(fs, p.fin[i as int]) == expected(p, fs0, s0, s1, p.fin[i as int]));
            assert(fs2 == fs);
            assert(slot_of(w, 0) == s0 && slot_of(w, 1) == s1);
        },
        PhaseView::SetAside(i) => {
            assert(look(fs, p.staged[i as int]) == expected(p, fs0, s0, s1, p.staged[i as int]));
            assert(look(fs, p.fin[i as int]) == expected(p, fs0, s0, s1, p.fin[i as int]));
            if succeeded(e) {
                lemma_move(p, fs0, s0, s1, fs, fs2, i as int, Slot::Displaced);
            } else {
                assert(fs2 == fs);
                assert(slot_of(w, 0) == s0 && slot_of(w, 1) == s1);
            }
        },
        PhaseView::Place(i, had) => {
            assert(look(fs, p.staged[i as int]) == expected(p, fs0, s0, s1, p.staged[i as int]));
            assert(look(fs, p.fin[i as int]) == expected(p, fs0, s0, s1, p.fin[i as int]));
            assert(look(fs, p.aside[i as int]) == expected(p, fs0, s0, s1, p.aside[i as int]));
            if succeeded(e) {
                lemma_move(p, fs0, s0, s1, fs, fs2, i as int, Slot::Placed);
                lemma_done_grows(p, v.done, fs0, i, had);
            } else {
                assert(fs2 == fs);
                assert(slot_of(w, 0) == s0 && slot_of(w, 1) == s1);
            }
        },
        PhaseView::PutBack(i) => {
            assert(look(fs, p.staged[i as int]) == expected(p, fs0, s0, s1, p.staged[i as int]));
            assert(look(fs, p.aside[i as int]) == expected(p, fs0, s0, s1, p.aside[i as int]));
            lemma_move(p, fs0, s0, s1, fs, fs2, i as int, Slot::Staged);
        },
        _ => {},
    }
}

/// A step of the rollback keeps the invariant.
proof fn lemma_step_undo(v: SwapView, fs0: Map<Seq<u16>, int>, fs: Map<Seq<u16>, int>, e: SwapEvent)
    requires
        swap_inv(v, fs0, fs),
        v.expects(e),
        possible(fs, v.action(), e),
        undoing(v) ==> succeeded(e),
        v.phase is DropStaged || v.phase is RemoveFinal || v.phase is RestoreAside,
    ensures
        swap_inv(v.next(e), fs0, effect(fs, v.action(), e)),
{
    let p = v.paths;
    lemma_apart(p);
    let w = v.next(e);
    let fs2 = effect(fs, v.action(), e);
    let s0 = slot_of(v, 0);
    let s1 = slot_of(v, 1);
    match v.phase {
        PhaseView::DropStaged { at, next } => {
            assert(look(fs, p.fin[next as int]) == expected(p, fs0, s0, s1, p.fin[next as int]));
            assert(look(fs, p.aside[next as int]) == expected(p, fs0, s0, s1, p.aside[next as int]));
            lemma_move(p, fs0, s0, s1, fs, fs2, next as int, Slot::Untouched);
            let t0 = if next == 0 { Slot::Untouched } else { s0 };
            let t1 = if next == 1 { Slot::Untouched } else { s1 };
            if next + 1 < 2 {
                assert(slot_of(w, 0) == t0 && slot_of(w, 1) == t1);
            } else if 0 < v.done.len() {
                assert(!restored(v.done, 0, 0) && !restored(v.done, 0, 1));
                assert(slot_of(w, 0) == t0 && slot_of(w, 1) == t1);
            } else {
                assert(at > 0 ==> !fs0.dom().contains(p.fin[0])) by {
                    if at > 0 && fs0.dom().contains(p.fin[0]) {
                        assert(exists|k: int| 0 <= k < v.done.len() && v.done[k] == 0);
                    }
                }
                assert(at > 1 ==> !fs0.dom().contains(p.fin[1])) by {
                    if at > 1 && fs0.dom().contains(p.fin[1]) {
                        assert(exists|k: int| 0 <= k < v.done.len() && v.done[k] == 1);
                    }
                }
                lemma_rolled_back(p, fs0, t0, t1, fs2);
            }
        },
        PhaseView::RemoveFinal { at, d } => {
            let j = v.done[d as int] as int;
            assert(j < at);
            assert(!restored(v.done, d, j)) by {
                if restored(v.done, d, j) {
                    let k = choose|k: int| 0 <= k < d && v.done[k] == j;
                    assert(v.done[k] < v.done[d as int]);
                }
            }
            assert(look(fs, p.staged[j]) == expected(p, fs0, s0, s1, p.staged[j]));
            assert(look(fs, p.aside[j]) == expected(p, fs0, s0, s1, p.aside[j]));
            lemma_move(p, fs0, s0, s1, fs, fs2, j, Slot::Emptied);
            assert(slot_of(w, 0) == (if j == 0 { Slot::Emptied } else { s0 }));
            assert(slot_of(w, 1) == (if j == 1 { Slot::Emptied } else { s1 }));
        },
        PhaseView::RestoreAside { at, d } => {
            let j = v.done[d as int] as int;
            assert(j < at);
            assert(fs0.dom().contains(p.fin[j]));
            assert(look(fs, p.staged[j]) == expected(p, fs0, s0, s1, p.staged[j]));
            assert(look(fs, p.fin[j]) == expected(p, fs0, s0, s1, p.fin[j]));
            assert(look(fs, p.aside[j]) == expected(p, fs0, s0, s1, p.aside[j]));
            lemma_move(p, fs0, s0, s1, fs, fs2, j, Slot::Untouched);
            let t0 = if j == 0 { Slot::Untouched } else { s0 };
            let t1 = if j == 1 { Slot::Untouched } else { s1 };
            assert(restored(v.done, d + 1, j)) by {
                assert(v.done[d as int] == j);
            }
            assert forall|m: int| 0 <= m < 2 && m != j implies restored(v.done, d + 1, m) == restored(v.done, d, m) by {
                if restored(v.done, d + 1, m) {
                    let k = choose|k: int| 0 <= k < d + 1 && v.done[k] == m;
                    assert(k < d);
                }
            }
            if d + 1 < v.done.len() {
                assert(slot_of(w, 0) == t0 && slot_of(w, 1) == t1);
            } else {
                assert forall|m: int| 0 <= m < at && fs0.dom().contains(#[trigger] p.fin[m]) implies restored(v.done, d + 1, m) by {
                    let k = choose|k: int| 0 <= k < v.done.len() && v.done[k] == m;
                    assert(v.done[k] == m);
                }
                assert(fs0.dom().contains(p.fin[0]) ==> restored(v.done, d + 1, 0) || at <= 0);
                assert(fs0.dom().contains(p.fin[1]) ==> restored(v.done, d + 1, 1) || at <= 1);
                lemma_rolled_back(p, fs0, t0, t1, fs2);
            }
        },
        _ => {},
    }
}

/// The set-aside copies of exactly the binaries installed before, in order,
/// are those [`present_asides`] lists.
proof fn lemma_set_aside_listed(v: SwapView, fs0: Map<Seq<u16>, int>)
    requires
        v.shaped(),
        done_matches(v.paths, v.done, fs0, 2),
    ensures
        v.set_aside() == present_asides(v.paths, fs0),
{
    let p = v.paths;
    let done = v.done;
    if done.len() > 2 {
        assert(done[0] < done[1] && done[1] < done[2]);
    }
    if done.len() == 0 {
        assert(!fs0.dom().contains(p.fin[0]) && !fs0.dom().contains(p.fin[1])) by {
            if fs0.dom().contains(p.fin[0]) {
                assert(exists|k: int| 0 <= k < done.len() && done[k] == 0);
            }
            if fs0.dom().contains(p.fin[1]) {
                assert(exists|k: int| 0 <= k < done.len() && done[k] == 1);
            }
        }
        assert(v.set_aside() =~= present_asides(p, fs0));
    } else if done.len() == 1 {
        let j = done[0] as int;
        assert(fs0.dom().contains(p.fin[j]));
        assert(!fs0.dom().contains(p.fin[1 - j])) by {
            if fs0.dom().contains(p.fin[1 - j]) {
                let k = choose|k: int| 0 <= k < done.len() && done[k] == 1 - j;
                assert(done[k] == done[0]);
            }
        }
        assert(v.set_aside() =~= present_asides(p, fs0));
    } else {
        assert(done[0] < done[1]);
        assert(done[0] == 0 && done[1] == 1);
        assert(fs0.dom().contains(p.fin[0]) && fs0.dom().contains(p.fin[1]));
        assert(v.set_aside() =~= present_asides(p, fs0));
    }
}

/// One step of a clean run keeps the invariant.
proof fn lemma_step(v: SwapView, fs0: Map<Seq<u16>, int>, fs: Map<Seq<u16>, int>, e: SwapEvent)
    requires
        swap_inv(v, fs0, fs),
        v.expects(e),
        possible(fs, v.action(), e),
        undoing(v) ==> succeeded(e),
    ensures
        swap_inv(v.next(e), fs0, effect(fs, v.action(), e)),
        v.next(e).paths == v.paths,
{
    match v.phase {
        PhaseView::Check(_) | PhaseView::Copy(_) | PhaseView::Discard { .. } => lemma_step_stage(v, fs0, fs, e),
        PhaseView::Probe(_) | PhaseView::SetAside(_) | PhaseView::Place(..) | PhaseView::PutBack(_) => {
            lemma_step_exchange(v, fs0, fs, e)
        },
        PhaseView::DropStaged { .. } | PhaseView::RemoveFinal { .. } | PhaseView::RestoreAside { .. } => {
            lemma_step_undo(v, fs0, fs, e)
        },
        PhaseView::Finished(_) => {},
    }
}

/// A clean run keeps the invariant to its end.
proof fn lemma_run(v: SwapView, fs0: Map<Seq<u16>, int>, fs: Map<Seq<u16>, int>, events: Seq<SwapEvent>)
    requires
        swap_inv(v, fs0, fs),
        clean_run(v, fs, events),
    ensures
        swap_inv(run_swap(v, fs, events).0, fs0, run_swap(v, fs, events).1),
        run_swap(v, fs, events).0.paths == v.paths,
    decreases events.len(),
{
    if events.len() > 0 {
        lemma_step(v, fs0, fs, events[0]);
        lemma_run(v.next(events[0]), fs0, effect(fs, v.action(), events[0]), events.drop_first());
    }
}

/// Where a swap starts.
pub open spec fn swap_start(from: Seq<u16>, to: Seq<u16>, stamp: Seq<char>) -> SwapView {
    SwapView {
        paths: swap_paths(from, to, stamp),
        phase: PhaseView::Check(0),
        done: Seq::empty(),
        stuck: Seq::empty(),
        cause: Seq::empty(),
    }
}

/// A swap run against a file system in which its eight paths are different
/// and its temporary names are free, where every operation of a rollback
/// succeeds: if it ends in success, each installed name holds the new binary,
/// each binary installed before is set aside under its superseded name and
/// those names are returned in order, nothing is left staged, and no other
/// path changed; if it ends in failure, every binary installed before is back
/// under its name, nothing is left staged or set aside, and no other path
/// changed.
pub proof fn lemma_swap_outcome(
    from: Seq<u16>,
    to: Seq<u16>,
    stamp: Seq<char>,
    fs0: Map<Seq<u16>, int>,
    events: Seq<SwapEvent>,
)
    requires
        distinct_paths(swap_paths(from, to, stamp)),
        fresh(swap_paths(from, to, stamp), fs0),
        clean_run(swap_start(from, to, stamp), fs0, events),
    ensures
        ({
            let (v, fs) = run_swap(swap_start(from, to, stamp), fs0, events);
            let p = swap_paths(from, to, stamp);
            &&& v.phase matches PhaseView::Finished(Ok(list)) ==> installed_outcome(p, fs0, fs, list)
            &&& v.phase matches PhaseView::Finished(Err(_)) ==> rolled_back(p, fs0, fs)
        }),
{
    let v0 = swap_start(from, to, stamp);
    let p = v0.paths;
    lemma_apart(p);
    assert forall|x: Seq<u16>| #[trigger] look(fs0, x) == expected(p, fs0, slot_of(v0, 0), slot_of(v0, 1), x) by {}
    assert(swap_inv(v0, fs0, fs0));
    lemma_run(v0, fs0, fs0, events);
    let (v, fs) = run_swap(v0, fs0, events);
    if let PhaseView::Finished(Ok(list)) = v.phase {
        lemma_set_aside_listed(v, fs0);
        let s = Slot::Placed;
        assert(slot_of(v, 0) == s && slot_of(v, 1) == s);
        assert forall|j: int| 0 <= j < 2 implies {
            &&& look(fs, #[trigger] p.fin[j]) == look(fs0, p.src[j])
            &&& look(fs, p.aside[j]) == look(fs0, p.fin[j])
            &&& look(fs, p.staged[j]) is None
        } by {
            assert(look(fs, p.fin[j]) == expected(p, fs0, s, s, p.fin[j]));
            assert(look(fs, p.aside[j]) == expected(p, fs0, s, s, p.aside[j]));
            assert(look(fs, p.staged[j]) == expected(p, fs0, s, s, p.staged[j]));
        }
        assert forall|x: Seq<u16>| !owned(p, 0, x) && !owned(p, 1, x) implies look(fs, x) == look(fs0, x) by {
            assert(look(fs, x) == expected(p, fs0, s, s, x));
        }
    }
}

/// Whether the swap is still going forward: checking, staging, exchanging,
/// or done with success.
pub open spec fn forward(v: SwapView) -> bool {
    match v.phase {
        PhaseView::Check(_) | PhaseView::Copy(_) | PhaseView::Probe(_) | PhaseView::SetAside(_)
        | PhaseView::Place(..) | PhaseView::Finished(Ok(_)) => true,
        _ => false,
    }
}

/// Whether the `k`-th exchanged pair is still to be undone.
pub open spec fn pending(v: SwapView, k: int) -> bool {
    match v.phase {
        PhaseView::RemoveFinal { d, .. } | PhaseView::RestoreAside { d, .. } => k >= d,
        PhaseView::Finished(_) => false,
        _ => true,
    }
}

/// How far the exchange got before it was undone.
pub open spec fn reached(v: SwapView) -> nat {
    match v.phase {
        PhaseView::PutBack(i) => i,
        PhaseView::DropStaged { at, .. } | PhaseView::RemoveFinal { at, .. } | PhaseView::RestoreAside { at, .. } => at,
        PhaseView::Discard { .. } => 0,
        _ => 2,
    }
}

/// What a rollback keeps track of, whatever its steps meet: each exchanged
/// pair still to be undone has the old binary under its superseded name,
/// each one undone is back under its name or listed as stuck, and a failed
/// swap's error lists exactly what is stuck.
pub open spec fn record_inv(v: SwapView, fs0: Map<Seq<u16>, int>, fs: Map<Seq<u16>, int>) -> bool {
    &&& v.well_formed()
    &&& !forward(v)
    &&& distinct_paths(v.paths)
    &&& done_valid(v.paths, v.done, fs0, reached(v))
    &&& (v.phase is Discard || v.phase is DropStaged || v.phase is PutBack) ==> v.stuck.len() == 0
    &&& v.phase matches PhaseView::DropStaged { at, .. } ==> at < 2
    &&& forall|k: int|
        0 <= k < v.done.len() && pending(v, k) ==> #[trigger] look(fs, v.paths.aside[v.done[k] as int]) == look(
            fs0,
            v.paths.fin[v.done[k] as int],
        )
    &&& forall|k: int|
        0 <= k < v.done.len() && !pending(v, k) ==> #[trigger] look(fs, v.paths.fin[v.done[k] as int]) == look(
            fs0,
            v.paths.fin[v.done[k] as int],
        ) || v.stuck.contains(v.paths.fin[v.done[k] as int])
    &&& v.phase matches PhaseView::Finished(Err(m)) ==> m == undo_message(v.cause, v.stuck)
}

/// A swap turning back, or failing, from a state that kept the invariant
/// keeps the rollback's record.
proof fn lemma_record_begins(v: SwapView, fs0: Map<Seq<u16>, int>, fs: Map<Seq<u16>, int>)
    requires
        swap_inv(v, fs0, fs),
        !forward(v),
    ensures
        record_inv(v, fs0, fs),
{
    let p = v.paths;
    lemma_apart(p);
    let s0 = slot_of(v, 0);
    let s1 = slot_of(v, 1);
    if !(v.phase is Finished) {
        assert forall|k: int| 0 <= k < v.done.len() && pending(v, k) implies #[trigger] look(
            fs,
            p.aside[v.done[k] as int],
        ) == look(fs0, p.fin[v.done[k] as int]) by {
            let j = v.done[k] as int;
            assert(look(fs, p.aside[j]) == expected(p, fs0, s0, s1, p.aside[j]));
            if let PhaseView::RemoveFinal { at, d } = v.phase {
                assert(!restored(v.done, d, j)) by {
                    if restored(v.done, d, j) {
                        let m = choose|m: int| 0 <= m < d && v.done[m] == j;
                        assert(v.done[m] < v.done[k]);
                    }
                }
            }
            if let PhaseView::RestoreAside { at, d } = v.phase {
                if k > d {
                    assert(v.done[d as int] < v.done[k]);
                    assert(!restored(v.done, d, j)) by {
                        if restored(v.done, d, j) {
                            let m = choose|m: int| 0 <= m < d && v.done[m] == j;
                            assert(v.done[m] < v.done[k]);
                        }
                    }
                }
            }
        }
        assert forall|k: int| 0 <= k < v.done.len() && !pending(v, k) implies #[trigger] look(
            fs,
            p.fin[v.done[k] as int],
        ) == look(fs0, p.fin[v.done[k] as int]) || v.stuck.contains(p.fin[v.done[k] as int]) by {
            let j = v.done[k] as int;
            assert(look(fs, p.fin[j]) == expected(p, fs0, s0, s1, p.fin[j]));
            match v.phase {
                PhaseView::RemoveFinal { at, d } => {
                    assert(restored(v.done, d, j));
                },
                PhaseView::RestoreAside { at, d } => {
                    assert(restored(v.done, d, j));
                    assert(v.done[k] < v.done[d as int]);
                },
                _ => {},
            }
        }
    } else {
        assert forall|k: int| 0 <= k < v.done.len() && !pending(v, k) implies #[trigger] look(
            fs,
            p.fin[v.done[k] as int],
        ) == look(fs0, p.fin[v.done[k] as int]) || v.stuck.contains(p.fin[v.done[k] as int]) by {
            assert(fs0.dom().contains(p.fin[v.done[k] as int]));
        }
    }
}

/// Any step of a rollback, whatever it meets, keeps the rollback's record.
proof fn lemma_record_step(v: SwapView, fs0: Map<Seq<u16>, int>, fs: Map<Seq<u16>, int>, e: SwapEvent)
    requires
        record_inv(v, fs0, fs),
        v.expects(e),
        possible(fs, v.action(), e),
    ensures
        record_inv(v.next(e), fs0, effect(fs, v.action(), e)),
        v.next(e).paths == v.paths,
{
    let p = v.paths;
    lemma_apart(p);
    let w = v.next(e);
    let fs2 = effect(fs, v.action(), e);
    match v.phase {
        PhaseView::Discard { .. } => {},
        PhaseView::PutBack(i) => {
            assert forall|k: int| 0 <= k < w.done.len() && pending(w, k) implies #[trigger] look(
                fs2,
                p.aside[w.done[k] as int],
            ) == look(fs0, p.fin[w.done[k] as int]) by {
                let j = v.done[k] as int;
                assert(j < i);
                assert(look(fs, p.aside[j]) == look(fs0, p.fin[j]));
                assert(look(fs2, p.aside[j]) == look(fs, p.aside[j]));
            }
        },
        PhaseView::DropStaged { at, next } => {
            assert forall|k: int| 0 <= k < w.done.len() && pending(w, k) implies #[trigger] look(
                fs2,
                p.aside[w.done[k] as int],
            ) == look(fs0, p.fin[w.done[k] as int]) by {
                let j = v.done[k] as int;
                assert(look(fs, p.aside[j]) == look(fs0, p.fin[j]));
                assert(look(fs2, p.aside[j]) == look(fs, p.aside[j]));
            }
        },
        PhaseView::RemoveFinal { at, d } | PhaseView::RestoreAside { at, d } => {
            let j = v.done[d as int] as int;
            assert forall|k: int| 0 <= k < w.done.len() && pending(w, k) implies #[trigger] look(
                fs2,
                p.aside[w.done[k] as int],
            ) == look(fs0, p.fin[w.done[k] as int]) by {
                let m = v.done[k] as int;
                assert(pending(v, k));
                assert(look(fs, p.aside[m]) == look(fs0, p.fin[m]));
                if k != d {
                    assert(v.done[k] != v.done[d as int]) by {
                        if k < d {
                            assert(v.done[k] < v.done[d as int]);
                        } else {
                            assert(v.done[d as int] < v.done[k]);
                        }
                    }
                }
                assert(look(fs2, p.aside[m]) == look(fs, p.aside[m]));
            }
            assert forall|k: int| 0 <= k < w.done.len() && !pending(w, k) implies #[trigger] look(
                fs2,
                p.fin[w.done[k] as int],
            ) == look(fs0, p.fin[w.done[k] as int]) || w.stuck.contains(p.fin[w.done[k] as int]) by {
                let m = v.done[k] as int;
                if k < d {
                    assert(v.done[k] < v.done[d as int]);
                    assert(!pending(v, k));
                    assert(look(fs2, p.fin[m]) == look(fs, p.fin[m]));
                    if v.stuck.contains(p.fin[m]) {
                        let n = choose|n: int| 0 <= n < v.stuck.len() && v.stuck[n] == p.fin[m];
                        assert(w.stuck[n] == p.fin[m]);
                    }
                } else {
                    assert(k == d);
                    if !succeeded(e) {
                        assert(w.stuck[w.stuck.len() - 1] == p.fin[j]);
                    } else {
                        assert(look(fs, p.aside[j]) == look(fs0, p.fin[j]));
                    }
                }
            }
        },
        _ => {},
    }
}

/// Every event answers the action asked for and is a possible outcome of it
/// on the file system as it then is; any operation may fail.
pub open spec fn honest_run(v: SwapView, fs: Map<Seq<u16>, int>, events: Seq<SwapEvent>) -> bool
    decreases events.len(),
{
    events.len() == 0 || {
        &&& v.expects(events[0])
        &&& possible(fs, v.action(), events[0])
        &&& honest_run(v.next(events[0]), effect(fs, v.action(), events[0]), events.drop_first())
    }
}

/// What an honest run keeps: the invariant while it goes forward, the
/// rollback's record once it turns back.
pub open spec fn run_inv(v: SwapView, fs0: Map<Seq<u16>, int>, fs: Map<Seq<u16>, int>) -> bool {
    if forward(v) {
        swap_inv(v, fs0, fs)
    } else {
        record_inv(v, fs0, fs)
    }
}

proof fn lemma_honest_run(v: SwapView, fs0: Map<Seq<u16>, int>, fs: Map<Seq<u16>, int>, events: Seq<SwapEvent>)
    requires
        run_inv(v, fs0, fs),
        honest_run(v, fs, events),
    ensures
        run_inv(run_swap(v, fs, events).0, fs0, run_swap(v, fs, events).1),
        run_swap(v, fs, events).0.paths == v.paths,
    decreases events.len(),
{
    if events.len() > 0 {
        let e = events[0];
        let w = v.next(e);
        let fs2 = effect(fs, v.action(), e);
        if forward(v) {
            lemma_step(v, fs0, fs, e);
            if !forward(w) {
                lemma_record_begins(w, fs0, fs2);
            }
        } else {
            lemma_record_step(v, fs0, fs, e);
        }
        lemma_honest_run(w, fs0, fs2, events.drop_first());
    }
}

/// A failed swap undoes what it can and says what it could not, whatever
/// its own rollback meets: every installed binary it had set aside is back
/// under its name, or that name is among those the error lists as left
/// replaced.
pub proof fn lemma_swap_failure_reported(
    from: Seq<u16>,
    to: Seq<u16>,
    stamp: Seq<char>,
    fs0: Map<Seq<u16>, int>,
    events: Seq<SwapEvent>,
)
    requires
        distinct_paths(swap_paths(from, to, stamp)),
        fresh(swap_paths(from, to, stamp), fs0),
        honest_run(swap_start(from, to, stamp), fs0, events),
    ensures
        ({
            let (v, fs) = run_swap(swap_start(from, to, stamp), fs0, events);
            let p = swap_paths(from, to, stamp);
            v.phase matches PhaseView::Finished(Err(m)) ==> {
                &&& m == undo_message(v.cause, v.stuck)
                &&& forall|k: int|
                    0 <= k < v.done.len() ==> look(fs, #[trigger] p.fin[v.done[k] as int]) == look(
                        fs0,
                        p.fin[v.done[k] as int],
                    ) || v.stuck.contains(p.fin[v.done[k] as int])
            }
        }),
{
    let v0 = swap_start(from, to, stamp);
    let p = v0.paths;
    lemma_apart(p);
    assert forall|x: Seq<u16>| #[trigger] look(fs0, x) == expected(p, fs0, slot_of(v0, 0), slot_of(v0, 1), x) by {}
    assert(swap_inv(v0, fs0, fs0));
    lemma_honest_run(v0, fs0, fs0, events);
    let (v, fs) = run_swap(v0, fs0, events);
    if let PhaseView::Finished(Err(m)) = v.phase {
        assert forall|k: int| 0 <= k < v.done.len() implies look(fs, #[trigger] p.fin[v.done[k] as int]) == look(
            fs0,
            p.fin[v.done[k] as int],
        ) || v.stuck.contains(p.fin[v.done[k] as int]) by {
            assert(!pending(v, k));
        }
    }
}

/// Every operation reported success.
pub open spec fn all_succeed(events: Seq<SwapEvent>) -> bool {
    forall|i: int| 0 <= i < events.len() && (#[trigger] events[i]) is Done ==> succeeded(events[i])
}

proof fn lemma_forward_run(v: SwapView, fs0: Map<Seq<u16>, int>, fs: Map<Seq<u16>, int>, events: Seq<SwapEvent>)
    requires
        swap_inv(v, fs0, fs),
        forward(v),
        honest_run(v, fs, events),
        all_succeed(events),
        fs0.dom().contains(v.paths.src[0]),
        fs0.dom().contains(v.paths.src[1]),
    ensures
        forward(run_swap(v, fs, events).0),
    decreases events.len(),
{
    if events.len() > 0 {
        let e = events[0];
        let p = v.paths;
        lemma_apart(p);
        lemma_step(v, fs0, fs, e);
        if let PhaseView::Check(i) = v.phase {
            assert(look(fs, p.src[i as int]) == expected(p, fs0, slot_of(v, 0), slot_of(v, 1), p.src[i as int]));
        }
        let rest = events.drop_first();
        assert forall|k: int| 0 <= k < rest.len() && (#[trigger] rest[k]) is Done implies succeeded(rest[k]) by {
            assert(rest[k] == events[k + 1]);
        }
        lemma_forward_run(v.next(e), fs0, effect(fs, v.action(), e), rest);
    }
}

/// A swap whose new binaries are both there, and in which no operation
/// fails, does not fail.
pub proof fn lemma_swap_succeeds_when_nothing_fails(
    from: Seq<u16>,
    to: Seq<u16>,
    stamp: Seq<char>,
    fs0: Map<Seq<u16>, int>,
    events: Seq<SwapEvent>,
)
    requires
        distinct_paths(swap_paths(from, to, stamp)),
        fresh(swap_paths(from, to, stamp), fs0),
        fs0.dom().contains(swap_paths(from, to, stamp).src[0]),
        fs0.dom().contains(swap_paths(from, to, stamp).src[1]),
        honest_run(swap_start(from, to, stamp), fs0, events),
        all_succeed(events),
    ensures
        !(run_swap(swap_start(from, to, stamp), fs0, events).0.phase matches PhaseView::Finished(Err(_))),
{
    let v0 = swap_start(from, to, stamp);
    let p = v0.paths;
    lemma_apart(p);
    assert forall|x: Seq<u16>| #[trigger] look(fs0, x) == expected(p, fs0, slot_of(v0, 0), slot_of(v0, 1), x) by {}
    assert(swap_inv(v0, fs0, fs0));
    lemma_forward_run(v0, fs0, fs0, events);
}

} // verus!
