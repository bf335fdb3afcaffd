//! What the shell extension asks the helper to do.
//!
//! The helper runs as `win-make-ro <lock|unlock> --gui -- <paths...>`.
//! Explorer hands over whatever the user selected, and a few hundred long
//! names already exceed what a command line can carry; past that point the
//! list travels in a file, handed over with `--consume-paths-from`, and the
//! helper removes it once read.

use vstd::prelude::*;

use crate::args::{argv_spec, lemma_argv_round_trip, parse_spec, well_formed, ArgsView, Opt, ParseView};
use crate::command::Command;
use crate::menu::Item;
use crate::quote::{quote, quoted};
use crate::units::{ascii_units, copy_units, units_list, units_of};

verus! {

/// The longest command line Windows starts a process with, in units,
/// terminator included.
pub const COMMAND_LINE_LIMIT: usize = 32767;

/// Room kept for the helper's own name and the words before the paths.
pub const FIXED_OVERHEAD: usize = 64;

/// What the paths add to a command line: each quoted, after a space.
pub open spec fn paths_cost(paths: Seq<Seq<u16>>) -> nat
    decreases paths.len(),
{
    if paths.len() == 0 {
        0
    } else {
        quoted(paths[0]).len() + 1 + paths_cost(paths.drop_first())
    }
}

proof fn lemma_paths_cost_snoc(paths: Seq<Seq<u16>>, p: Seq<u16>)
    ensures
        paths_cost(paths.push(p)) == paths_cost(paths) + quoted(p).len() + 1,
    decreases paths.len(),
{
    if paths.len() == 0 {
        assert(paths.push(p).drop_first() =~= Seq::<Seq<u16>>::empty());
        assert(paths.push(p)[0] == p);
        assert(paths_cost(Seq::<Seq<u16>>::empty()) == 0);
    } else {
        assert(paths.push(p).drop_first() =~= paths.drop_first().push(p));
        assert(paths.push(p)[0] == paths[0]);
        lemma_paths_cost_snoc(paths.drop_first(), p);
    }
}

proof fn lemma_paths_cost_grows(paths: Seq<Seq<u16>>, i: int)
    requires
        0 <= i <= paths.len(),
    ensures
        paths_cost(paths.subrange(0, i)) <= paths_cost(paths),
    decreases paths.len() - i,
{
    if i < paths.len() {
        lemma_paths_cost_grows(paths, i + 1);
        lemma_paths_cost_snoc(paths.subrange(0, i), paths[i]);
        assert(paths.subrange(0, i).push(paths[i]) =~= paths.subrange(0, i + 1));
    } else {
        assert(paths.subrange(0, i) =~= paths);
    }
}

/// Whether `paths`, quoted, still fit on a command line that already holds
/// `fixed` units.
pub fn fits_command_line(fixed: usize, paths: &Vec<Vec<u16>>) -> (r: bool)
    ensures
        r == (fixed + paths_cost(units_list(paths@)) <= COMMAND_LINE_LIMIT),
{
    let ghost all = units_list(paths@);
    if fixed > COMMAND_LINE_LIMIT {
        return false;
    }
    let mut total: usize = fixed;
    let mut i: usize = 0;
    while i < paths.len()
        invariant
            i <= paths.len(),
            all == units_list(paths@),
            total == fixed + paths_cost(all.subrange(0, i as int)),
            total <= COMMAND_LINE_LIMIT,
        decreases paths.len() - i,
    {
        let cost = quote(paths[i].as_slice()).len();
        proof {
            lemma_paths_cost_snoc(all.subrange(0, i as int), all[i as int]);
            assert(all.subrange(0, i as int).push(all[i as int]) =~= all.subrange(0, i + 1));
        }
        if cost >= COMMAND_LINE_LIMIT - total {
            proof {
                lemma_paths_cost_grows(all, i + 1);
            }
            return false;
        }
        total = total + cost + 1;
        i = i + 1;
    }
    assert(all.subrange(0, paths.len() as int) =~= all);
    true
}

/// The arguments the helper is started with for `item`: the item's command
/// and `--gui`, then either `--` and the paths, or the list file that holds
/// them.
pub open spec fn helper_argv(c: Command, paths: Seq<Seq<u16>>, list: Option<Seq<u16>>) -> Seq<
    Seq<u16>,
> {
    seq![ascii_units(c.word()), Opt::Gui.units()] + match list {
        Some(f) => seq![Opt::ConsumePathsFrom.units(), f],
        None => seq![Opt::EndOfOptions.units()] + paths,
    }
}

/// The helper's arguments for `item`, or `None` when the item runs nothing.
pub fn helper_arguments(item: Item, paths: &Vec<Vec<u16>>, list: Option<&Vec<u16>>) -> (r: Option<
    Vec<Vec<u16>>,
>)
    ensures
        r is None <==> item.helper_command() is None,
        r matches Some(v) ==> units_list(v@) == helper_argv(
            item.helper_command()->0,
            units_list(paths@),
            match list {
                Some(f) => Some(f@),
                None => None,
            },
        ),
{
    let word = match item.command() {
        Some(w) => w,
        None => return None,
    };
    let mut v: Vec<Vec<u16>> = Vec::new();
    v.push(units_of(word));
    v.push(units_of(Opt::Gui.text()));
    match list {
        Some(f) => {
            v.push(units_of(Opt::ConsumePathsFrom.text()));
            v.push(copy_units(f));
        },
        None => {
            v.push(units_of(Opt::EndOfOptions.text()));
            crate::args::append_all(&mut v, paths);
        },
    }
    assert(units_list(v@) =~= helper_argv(
        item.helper_command()->0,
        units_list(paths@),
        match list {
            Some(f) => Some(f@),
            None => None,
        },
    ));
    Some(v)
}

/// How the helper gets the selection.
#[derive(Debug, Clone, PartialEq, Eq)]
pub enum Launch {
    /// On its command line: start it with these arguments.
    Direct(Vec<Vec<u16>>),
    /// Too large for a command line: write the list to a file and start the
    /// helper with [`helper_arguments`] naming it.
    ThroughList,
}

/// How to start the helper at `helper` for `item` on `paths`; `None` when
/// the item has no command to run.
pub fn launch(helper: &Vec<u16>, item: Item, paths: &Vec<Vec<u16>>) -> (r: Option<Launch>)
    requires
        helper.len() + FIXED_OVERHEAD <= usize::MAX,
    ensures
        r is None <==> item.helper_command() is None,
        r matches Some(Launch::Direct(v)) ==> helper.len() + FIXED_OVERHEAD + paths_cost(
            units_list(paths@),
        ) <= COMMAND_LINE_LIMIT && units_list(v@) == helper_argv(
            item.helper_command()->0,
            units_list(paths@),
            None,
        ),
        r matches Some(Launch::ThroughList) ==> helper.len() + FIXED_OVERHEAD + paths_cost(
            units_list(paths@),
        ) > COMMAND_LINE_LIMIT,
{
    if item.command().is_none() {
        return None;
    }
    let fixed = helper.len() + FIXED_OVERHEAD;
    if fits_command_line(fixed, paths) {
        match helper_arguments(item, paths, None) {
            Some(v) => Some(Launch::Direct(v)),
            None => None,
        }
    } else {
        Some(Launch::ThroughList)
    }
}

/// The path list to remove once the helper was, or was not, started: the
/// list written for it when starting it failed, since nothing will read it
/// then; nothing when it started, since the helper removes the list itself,
/// or when no list was written.
pub fn orphaned_list(listed: Option<Vec<u16>>, started: bool) -> (r: Option<Vec<u16>>)
    ensures
        started ==> r is None,
        !started ==> r == listed,
{
    if started {
        None
    } else {
        listed
    }
}

/// What the helper makes of the arguments the extension starts it with: the
/// item's command on exactly the selected paths, reporting in a message box,
/// and when the paths came in a file, with the file handed over to be removed.
pub proof fn lemma_helper_reads_the_selection(
    item: Item,
    paths: Seq<Seq<u16>>,
    list: Option<Seq<u16>>,
)
    requires
        item.helper_command() is Some,
        paths.len() > 0,
    ensures
        parse_spec(
            helper_argv(item.helper_command()->0, paths, list),
            Some(Ok::<Seq<Seq<u16>>, String>(paths)),
        ) == ParseView::Parsed(
            ArgsView {
                command: item.helper_command()->0,
                paths,
                gui: true,
                no_elevate: false,
                paths_file: list,
                consume_paths_file: list is Some,
                to: None,
            },
        ),
{
    let a = ArgsView {
        command: item.helper_command()->0,
        paths,
        gui: true,
        no_elevate: false,
        paths_file: list,
        consume_paths_file: list is Some,
        to: None,
    };
    assert(well_formed(a));
    lemma_argv_round_trip(a);
    assert(argv_spec(a) =~= helper_argv(item.helper_command()->0, paths, list));
}

} // verus!
