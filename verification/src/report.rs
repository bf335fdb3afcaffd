//! What the helper tells the person who ran it: exit codes, the `status`
//! lines, and how errors are summarised.

use vstd::prelude::*;

use crate::menu::LockState;
use crate::units::{decimal, decimal_string, lossy_string, utf16_lossy};

verus! {

pub const EXIT_OK: i32 = 0;

/// Some item failed; details on stderr, or in a message box with `--gui`.
pub const EXIT_ERRORS: i32 = 1;

/// The command line was refused.
pub const EXIT_USAGE: i32 = 2;

/// At most this many errors are listed one by one.
pub const MAX_LINES: usize = 20;

/// The word `status` prints for a lock state.
pub open spec fn state_word(s: LockState) -> Seq<char> {
    match s {
        LockState::Unlocked => "unlocked"@,
        LockState::Explicit => "locked"@,
        LockState::Inherited => "inherited"@,
    }
}

pub fn label(s: LockState) -> (r: &'static str)
    ensures
        r@ == state_word(s),
{
    match s {
        LockState::Unlocked => "unlocked",
        LockState::Explicit => "locked",
        LockState::Inherited => "inherited",
    }
}

/// One line of `status` output: `<state>\t<path>`, or `error\t<path>` when
/// the item could not be read.
pub open spec fn status_line_spec(state: Option<LockState>, path: Seq<u16>) -> Seq<char> {
    let word = match state {
        Some(s) => state_word(s),
        None => "error"@,
    };
    word + "\t"@ + utf16_lossy(path)
}

/// What `status` prints and the code it exits with.
pub struct StatusReport {
    pub lines: Vec<String>,
    pub code: i32,
}

/// `status`: a line per path, and exit 1 if any path could not be read.
pub fn status(states: &Vec<Option<LockState>>, paths: &Vec<Vec<u16>>) -> (r: StatusReport)
    requires
        states.len() == paths.len(),
    ensures
        r.lines@.len() == paths.len(),
        forall|i: int| 0 <= i < paths.len() ==> (#[trigger] r.lines@[i])@ == status_line_spec(states@[i], paths@[i]@),
        r.code == if exists|i: int| 0 <= i < states.len() && #[trigger] states@[i] is None {
            EXIT_ERRORS
        } else {
            EXIT_OK
        },
{
    let mut lines: Vec<String> = Vec::new();
    let mut code = EXIT_OK;
    let mut i: usize = 0;
    while i < paths.len()
        invariant
            i <= paths.len(),
            states.len() == paths.len(),
            lines@.len() == i,
            forall|j: int| 0 <= j < i ==> (#[trigger] lines@[j])@ == status_line_spec(states@[j], paths@[j]@),
            code == if exists|j: int| 0 <= j < i && #[trigger] states@[j] is None {
                EXIT_ERRORS
            } else {
                EXIT_OK
            },
        decreases paths.len() - i,
    {
        let mut line = match states[i] {
            Some(s) => String::from_str(label(s)),
            None => {
                code = EXIT_ERRORS;
                String::from_str("error")
            },
        };
        line.append("\t");
        let name = lossy_string(paths[i].as_slice());
        line.append(name.as_str());
        lines.push(line);
        i = i + 1;
    }
    StatusReport { lines, code }
}

/// The exit code of `install` and `uninstall`; the caller shows the message
/// of a failure.
pub fn registry(r: &Result<(), String>) -> (code: i32)
    ensures
        code == if r is Ok {
            EXIT_OK
        } else {
            EXIT_ERRORS
        },
{
    match r {
        Ok(()) => EXIT_OK,
        Err(_) => EXIT_ERRORS,
    }
}

/// What the recursive operation did to one target, or to all of them.
#[derive(Debug)]
pub struct TargetReport {
    pub changed: usize,
    pub skipped: usize,
    /// Some item was refused for lack of rights.
    pub needs_elevation: bool,
    pub errors: Vec<String>,
}

pub open spec fn changed_total(reports: Seq<TargetReport>) -> int
    decreases reports.len(),
{
    if reports.len() == 0 {
        0
    } else {
        changed_total(reports.drop_last()) + reports.last().changed
    }
}

pub open spec fn skipped_total(reports: Seq<TargetReport>) -> int
    decreases reports.len(),
{
    if reports.len() == 0 {
        0
    } else {
        skipped_total(reports.drop_last()) + reports.last().skipped
    }
}

/// Every error of every target, target by target, each in its own order.
pub open spec fn all_errors(reports: Seq<TargetReport>) -> Seq<Seq<char>>
    decreases reports.len(),
{
    if reports.len() == 0 {
        Seq::empty()
    } else {
        all_errors(reports.drop_last()) + texts(reports.last().errors@)
    }
}

proof fn lemma_totals_grow(reports: Seq<TargetReport>, n: int)
    requires
        0 <= n <= reports.len(),
    ensures
        changed_total(reports.take(n)) <= changed_total(reports),
        skipped_total(reports.take(n)) <= skipped_total(reports),
    decreases reports.len() - n,
{
    if n < reports.len() {
        lemma_totals_grow(reports, n + 1);
        assert(reports.take(n + 1).drop_last() =~= reports.take(n));
    } else {
        assert(reports.take(n) =~= reports);
    }
}

/// The reports of all targets as one: counts added, the need for elevation
/// if any target had it, and every error in target order.
pub fn merge_reports(reports: &Vec<TargetReport>) -> (r: TargetReport)
    requires
        changed_total(reports@) <= usize::MAX,
        skipped_total(reports@) <= usize::MAX,
    ensures
        r.changed == changed_total(reports@),
        r.skipped == skipped_total(reports@),
        r.needs_elevation == exists|i: int| 0 <= i < reports@.len() && (#[trigger] reports@[i]).needs_elevation,
        texts(r.errors@) == all_errors(reports@),
{
    let ghost all = reports@;
    let mut total = TargetReport { changed: 0, skipped: 0, needs_elevation: false, errors: Vec::new() };
    let mut n: usize = 0;
    assert(texts(total.errors@) =~= all_errors(all.take(0)));
    while n < reports.len()
        invariant
            all == reports@,
            n <= all.len(),
            total.changed == changed_total(all.take(n as int)),
            total.skipped == skipped_total(all.take(n as int)),
            total.needs_elevation == exists|i: int| 0 <= i < n && (#[trigger] all[i]).needs_elevation,
            texts(total.errors@) == all_errors(all.take(n as int)),
            changed_total(all) <= usize::MAX,
            skipped_total(all) <= usize::MAX,
        decreases all.len() - n,
    {
        let ghost before = total.errors@;
        let r = &reports[n];
        proof {
            assert(all.take(n + 1).drop_last() =~= all.take(n as int));
            assert(all.take(n + 1).last() == all[n as int]);
            lemma_totals_grow(all, n + 1);
            assert(changed_total(all.take(n + 1)) == changed_total(all.take(n as int)) + all[n as int].changed);
            assert(skipped_total(all.take(n + 1)) == skipped_total(all.take(n as int)) + all[n as int].skipped);
        }
        total.changed = total.changed + r.changed;
        total.skipped = total.skipped + r.skipped;
        total.needs_elevation = total.needs_elevation || r.needs_elevation;
        assert(total.needs_elevation == exists|j: int| 0 <= j < n + 1 && (#[trigger] all[j]).needs_elevation) by {
            if r.needs_elevation {
                assert(all[n as int].needs_elevation);
            }
        }
        let mut i: usize = 0;
        assert(texts(before) + texts(r.errors@.take(0)) =~= texts(before));
        while i < r.errors.len()
            invariant
                i <= r.errors.len(),
                texts(total.errors@) == texts(before) + texts(r.errors@.take(i as int)),
                total.changed == changed_total(all.take(n + 1)),
                total.skipped == skipped_total(all.take(n + 1)),
                total.needs_elevation == exists|j: int| 0 <= j < n + 1 && (#[trigger] all[j]).needs_elevation,
            decreases r.errors.len() - i,
        {
            let ghost was = total.errors@;
            let e = r.errors[i].clone();
            total.errors.push(e);
            proof {
                assert(texts(total.errors@) =~= texts(was).push(r.errors@[i as int]@));
                assert(texts(r.errors@.take(i + 1)) =~= texts(r.errors@.take(i as int)).push(r.errors@[i as int]@));
            }
            i = i + 1;
            assert(texts(total.errors@) =~= texts(before) + texts(r.errors@.take(i as int)));
        }
        assert(r.errors@.take(r.errors.len() as int) =~= r.errors@);
        assert(texts(total.errors@) =~= all_errors(all.take(n + 1)));
        n = n + 1;
    }
    assert(all.take(n as int) =~= all);
    total
}

/// What `lock` and `unlock` do once every target has been worked on.
#[derive(Debug, Clone, Copy, PartialEq, Eq, Structural)]
pub enum Finish {
    /// Access was denied and re-launching elevated is allowed: run again
    /// through UAC and exit with the child's code.
    Elevate,
    /// Everything went through.
    Done,
    /// Report the errors and exit with [`EXIT_ERRORS`].
    Failed,
}

pub fn finish(needs_elevation: bool, no_elevate: bool, errors: usize) -> (r: Finish)
    ensures
        r == if needs_elevation && !no_elevate {
            Finish::Elevate
        } else if errors == 0 {
            Finish::Done
        } else {
            Finish::Failed
        },
{
    if needs_elevation && !no_elevate {
        Finish::Elevate
    } else if errors == 0 {
        Finish::Done
    } else {
        Finish::Failed
    }
}

/// The lines of an error report: at most [`MAX_LINES`] errors, then how many
/// more there were.
pub open spec fn report_lines(errors: Seq<Seq<char>>) -> Seq<Seq<char>> {
    if errors.len() > MAX_LINES {
        errors.take(MAX_LINES as int).push(
            "... and "@ + decimal((errors.len() - MAX_LINES) as nat) + " more"@,
        )
    } else {
        errors
    }
}

/// Lines joined with newlines.
pub open spec fn joined_lines(lines: Seq<Seq<char>>) -> Seq<char>
    decreases lines.len(),
{
    if lines.len() == 0 {
        Seq::empty()
    } else if lines.len() == 1 {
        lines[0]
    } else {
        joined_lines(lines.drop_last()) + "\n"@ + lines.last()
    }
}

pub open spec fn texts(v: Seq<String>) -> Seq<Seq<char>> {
    Seq::new(v.len(), |i: int| v[i]@)
}

/// The text shown for a run's errors.
pub fn report_errors(errors: &Vec<String>) -> (r: String)
    ensures
        r@ == joined_lines(report_lines(texts(errors@))),
{
    let ghost all = texts(errors@);
    let shown = if errors.len() > MAX_LINES {
        MAX_LINES
    } else {
        errors.len()
    };
    let mut text = String::new();
    let mut i: usize = 0;
    while i < shown
        invariant
            i <= shown,
            shown <= errors.len(),
            all == texts(errors@),
            text@ == joined_lines(all.take(i as int)),
        decreases shown - i,
    {
        proof {
            let next = all.take(i + 1);
            assert(next.drop_last() =~= all.take(i as int));
            assert(next.last() == errors@[i as int]@);
        }
        if i > 0 {
            text.append("\n");
        } else {
            assert(all.take(1) =~= seq![errors@[0]@]);
        }
        text.append(errors[i].as_str());
        i = i + 1;
    }
    if errors.len() > MAX_LINES {
        let ghost lines = report_lines(all);
        let more = decimal_string((errors.len() - MAX_LINES) as u64);
        text.append("\n");
        text.append("... and ");
        text.append(more.as_str());
        text.append(" more");
        proof {
            assert(lines.drop_last() =~= all.take(MAX_LINES as int));
            assert(lines.len() > 1);
        }
        assert(text@ =~= joined_lines(lines));
    } else {
        assert(all.take(errors.len() as int) =~= all);
    }
    text
}

} // verus!
