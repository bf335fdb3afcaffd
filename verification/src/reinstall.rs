//! Replacing an installation that Explorer is currently using.
//!
//! Windows will not let a mapped image be overwritten or deleted, and Explorer
//! maps `ro_shellext.dll` the first time a context menu is opened and keeps it
//! until it exits. Renaming is allowed, so a new installation takes the name
//! and the old file waits under another one until Explorer has been restarted.
//! The names, which old copies may be swept, where an installation goes, and
//! what became of Explorer are decided here.

use vstd::prelude::*;

use crate::order::{components, head_of, last_piece_of, layout, path_parent, trimmed_end};
use crate::units::{copy_units, signed_decimal, signed_decimal_string, str_eq, units_list};

verus! {

/// What became of Explorer.
///
/// Deliberately not a `bool`. "Explorer was restarted" and "we never looked"
/// and "we looked and it went wrong" are different things to tell somebody,
/// and the last one has to be distinguishable from success even though the
/// installation itself is already in place.
#[derive(Debug, PartialEq, Eq)]
pub enum Restart {
    /// Nothing was registered before this ran, so there was no reason to ask.
    NotRequested,
    /// Deliberately not attempted, with the reason: an elevated process would
    /// hand the restarted Explorer its token for the rest of the session, and
    /// a token that could not be read is treated the same way.
    Skipped(String),
    /// Under way, and longer than we were prepared to watch. The request to
    /// close cannot be withdrawn, so this is not a cancellation.
    Pending(String),
    /// The old shell process ended and a new one was started.
    Restarted,
    /// Asked for and did not happen. The installation is still in place.
    Failed(String),
}

impl Restart {
    pub open spec fn description(&self) -> Seq<char> {
        match self {
            Restart::NotRequested => "no previous registration; Explorer restart not requested"@,
            Restart::Skipped(why) => "Explorer not restarted: "@ + why@,
            Restart::Pending(what) => "Explorer restart still running: "@ + what@,
            Restart::Restarted => "Explorer restarted"@,
            Restart::Failed(why) => "Explorer restart failed: "@ + why@,
        }
    }

    /// One line for a person, in the terms of what actually occurred.
    pub fn describe(&self) -> (r: String)
        ensures
            r@ == self.description(),
    {
        match self {
            Restart::NotRequested => String::from_str(
                "no previous registration; Explorer restart not requested",
            ),
            Restart::Skipped(why) => {
                let mut s = String::from_str("Explorer not restarted: ");
                s.append(why.as_str());
                s
            },
            Restart::Pending(what) => {
                let mut s = String::from_str("Explorer restart still running: ");
                s.append(what.as_str());
                s
            },
            Restart::Restarted => String::from_str("Explorer restarted"),
            Restart::Failed(why) => {
                let mut s = String::from_str("Explorer restart failed: ");
                s.append(why.as_str());
                s
            },
        }
    }
}

pub open spec fn has_prefix(s: Seq<char>, p: Seq<char>) -> bool {
    s.len() >= p.len() && s.subrange(0, p.len() as int) == p
}

pub open spec fn has_suffix(s: Seq<char>, p: Seq<char>) -> bool {
    s.len() >= p.len() && s.subrange(s.len() - p.len(), s.len() as int) == p
}

/// Only a real restart reads as one: every other outcome is told in words
/// that do not begin the way "Explorer restarted" does, and a restart still
/// under way says it is still running.
pub proof fn lemma_only_a_restart_says_so(r: Restart)
    ensures
        has_prefix(r.description(), "Explorer restarted"@) <==> r == Restart::Restarted,
        r is Pending ==> has_prefix(r.description(), "Explorer restart still running: "@),
{
    reveal_strlit("Explorer restarted");
    reveal_strlit("no previous registration; Explorer restart not requested");
    reveal_strlit("Explorer not restarted: ");
    reveal_strlit("Explorer restart still running: ");
    reveal_strlit("Explorer restart failed: ");
    let d = r.description();
    let said = "Explorer restarted"@;
    assert(said.len() == 18);
    match r {
        Restart::Restarted => {
            assert(said.subrange(0, 18) =~= said);
        },
        Restart::NotRequested => {
            assert(d[0] != said[0]);
        },
        Restart::Skipped(why) => {
            assert(d[9] == "Explorer not restarted: "@[9]);
            assert(d[9] != said[9]);
            assert(d.subrange(0, 18)[9] == d[9]);
        },
        Restart::Pending(what) => {
            assert(d[16] == "Explorer restart still running: "@[16]);
            assert(d[16] != said[16]);
            assert(d.subrange(0, 18)[16] == d[16]);
            let p = "Explorer restart still running: "@;
            assert(d.subrange(0, p.len() as int) =~= p);
        },
        Restart::Failed(why) => {
            assert(d[16] == "Explorer restart failed: "@[16]);
            assert(d[16] != said[16]);
            assert(d.subrange(0, 18)[16] == d[16]);
        },
    }
}

/// What a `reinstall` did, once the installation part of it succeeded. A
/// failed restart does not undo the registration, so the two are reported
/// side by side.
#[derive(Debug)]
pub struct Summary {
    /// Where the binaries are registered from now.
    pub to: Vec<u16>,
    pub restart: Restart,
    /// Superseded copies that would not be deleted, left for the next run.
    pub left_behind: Vec<Vec<u16>>,
}

/// What a [`Summary`] means.
pub struct SummaryView {
    pub to: Seq<u16>,
    pub restart: Restart,
    pub left_behind: Seq<Seq<u16>>,
}

impl View for Summary {
    type V = SummaryView;

    open spec fn view(&self) -> SummaryView {
        SummaryView { to: self.to@, restart: self.restart, left_behind: units_list(self.left_behind@) }
    }
}

/// How many files an installation consists of.
pub const BINARY_COUNT: usize = 2;

/// The files an installation consists of, in the order they are replaced:
/// the helper first, so that a failure while the DLL — the one Explorer holds
/// open — is put in place has less to undo.
pub open spec fn binary_name(i: int) -> Seq<char> {
    if i == 0 {
        "win-make-ro.exe"@
    } else {
        "ro_shellext.dll"@
    }
}

pub fn binary(i: usize) -> (r: &'static str)
    requires
        i < BINARY_COUNT,
    ensures
        r@ == binary_name(i as int),
{
    if i == 0 {
        "win-make-ro.exe"
    } else {
        "ro_shellext.dll"
    }
}

/// `<binary>.<stamp>.new`: a new binary staged beside the old one.
pub open spec fn staged_spec(name: Seq<char>, stamp: Seq<char>) -> Seq<char> {
    name + "."@ + stamp + ".new"@
}

/// `<binary>.<stamp>.old`: an old binary renamed aside.
pub open spec fn superseded_name_spec(name: Seq<char>, stamp: Seq<char>) -> Seq<char> {
    name + "."@ + stamp + ".old"@
}

pub fn staged_name(name: &str, stamp: &str) -> (r: String)
    ensures
        r@ == staged_spec(name@, stamp@),
{
    let mut s = String::from_str(name);
    s.append(".");
    s.append(stamp);
    s.append(".new");
    s
}

pub fn superseded_name(name: &str, stamp: &str) -> (r: String)
    ensures
        r@ == superseded_name_spec(name@, stamp@),
{
    let mut s = String::from_str(name);
    s.append(".");
    s.append(stamp);
    s.append(".old");
    s
}

/// `<binary>.<anything>.old`, the shape and nothing looser: this decides
/// what gets deleted.
pub open spec fn superseded_spec(name: Seq<char>) -> bool {
    has_suffix(name, ".old"@) && (has_prefix(name, binary_name(0) + "."@) || has_prefix(
        name,
        binary_name(1) + "."@,
    ))
}

fn starts_with(s: &str, p: &str) -> (r: bool)
    ensures
        r == has_prefix(s@, p@),
{
    let n = s.unicode_len();
    let m = p.unicode_len();
    if n < m {
        return false;
    }
    let mut i: usize = 0;
    while i < m
        invariant
            n == s@.len(),
            m == p@.len(),
            m <= n,
            i <= m,
            forall|j: int| 0 <= j < i ==> s@[j] == p@[j],
        decreases m - i,
    {
        if s.get_char(i) != p.get_char(i) {
            assert(s@.subrange(0, m as int)[i as int] != p@[i as int]);
            return false;
        }
        i = i + 1;
    }
    assert(s@.subrange(0, m as int) =~= p@);
    true
}

fn ends_with(s: &str, p: &str) -> (r: bool)
    ensures
        r == has_suffix(s@, p@),
{
    let n = s.unicode_len();
    let m = p.unicode_len();
    if n < m {
        return false;
    }
    let off = n - m;
    let mut i: usize = 0;
    while i < m
        invariant
            n == s@.len(),
            m == p@.len(),
            m <= n,
            off == n - m,
            i <= m,
            forall|j: int| 0 <= j < i ==> s@[off + j] == p@[j],
        decreases m - i,
    {
        if s.get_char(off + i) != p.get_char(i) {
            assert(s@.subrange(off as int, n as int)[i as int] != p@[i as int]);
            return false;
        }
        i = i + 1;
    }
    assert(s@.subrange(off as int, n as int) =~= p@);
    true
}

/// Whether a file name is one of the superseded binaries `swap` renamed
/// aside.
pub fn superseded(name: &str) -> (r: bool)
    ensures
        r == superseded_spec(name@),
{
    if !ends_with(name, ".old") {
        return false;
    }
    let mut first = String::from_str(binary(0));
    first.append(".");
    if starts_with(name, first.as_str()) {
        return true;
    }
    let mut second = String::from_str(binary(1));
    second.append(".");
    starts_with(name, second.as_str())
}

/// Whether entry `i` of a directory listing is a superseded copy. A name that
/// is not valid Unicode is never one.
pub open spec fn to_sweep(names: Seq<Option<String>>, i: int) -> bool {
    names[i] matches Some(n) && superseded_spec(n@)
}

/// Which entries of a directory a sweep removes, given their names (`None`
/// for a name that is not valid Unicode): exactly the superseded copies, in
/// listing order.
pub fn sweep(names: &Vec<Option<String>>) -> (r: Vec<usize>)
    ensures
        forall|a: int, b: int| 0 <= a < b < r.len() ==> r[a] < r[b],
        forall|k: int| 0 <= k < r.len() ==> r[k] < names.len() && to_sweep(names@, r[k] as int),
        forall|i: int| 0 <= i < names.len() && to_sweep(names@, i) ==> exists|k: int| 0 <= k < r.len() && r[k] == i,
{
    let mut r: Vec<usize> = Vec::new();
    let mut i: usize = 0;
    while i < names.len()
        invariant
            i <= names.len(),
            forall|a: int, b: int| 0 <= a < b < r.len() ==> r[a] < r[b],
            forall|k: int| 0 <= k < r.len() ==> r[k] < i && to_sweep(names@, r[k] as int),
            forall|j: int| 0 <= j < i && to_sweep(names@, j) ==> exists|k: int| 0 <= k < r.len() && r[k] == j,
        decreases names.len() - i,
    {
        let take = match &names[i] {
            Some(n) => superseded(n.as_str()),
            None => false,
        };
        let ghost before = r@;
        if take {
            r.push(i);
            assert forall|j: int| 0 <= j < i + 1 && to_sweep(names@, j) implies exists|k: int| 0 <= k < r.len() && r[k] == j by {
                if j < i {
                    let k = choose|k: int| 0 <= k < before.len() && before[k] == j;
                    assert(r[k] == j);
                } else {
                    assert(r[r.len() - 1] == j);
                }
            }
        }
        i = i + 1;
    }
    r
}

/// A sweep removes exactly what a swap set aside: every superseded copy is
/// recognised, and neither an installed binary nor a staged one is.
pub proof fn lemma_sweep_takes_only_what_swap_set_aside(i: int, stamp: Seq<char>)
    requires
        0 <= i < BINARY_COUNT,
    ensures
        superseded_spec(superseded_name_spec(binary_name(i), stamp)),
        !superseded_spec(staged_spec(binary_name(i), stamp)),
        !superseded_spec(binary_name(i)),
{
    reveal_strlit(".old");
    reveal_strlit(".new");
    reveal_strlit(".");
    reveal_strlit("win-make-ro.exe");
    reveal_strlit("ro_shellext.dll");
    let b = binary_name(i);
    let old_name = superseded_name_spec(b, stamp);
    let p = b + "."@;
    assert(old_name.subrange(0, p.len() as int) =~= p);
    assert(old_name.subrange(old_name.len() - 4, old_name.len() as int) =~= ".old"@);
    let new_name = staged_spec(b, stamp);
    assert(new_name.subrange(new_name.len() - 4, new_name.len() as int)[1] == 'n');
    assert(".old"@[1] == 'o');
    assert(b.subrange(b.len() - 4, b.len() as int)[1] != 'o');
}

/// The directory a path names its file in, as `std::path::Path::parent`
/// gives it: everything before its last component, with the separators (and
/// `.`s) between them dropped; an empty path for a bare name; nothing for a
/// path that is only a prefix or a root, or empty.
pub open spec fn parent_dir(p: Seq<u16>) -> Option<Seq<u16>> {
    path_parent(p)
}

/// The directory a path names its file in.
pub fn parent(p: &Vec<u16>) -> (r: Option<Vec<u16>>)
    ensures
        r is Some <==> parent_dir(p@) is Some,
        r matches Some(d) ==> d@ == parent_dir(p@)->0,
{
    let (_, body, verbatim, lead, _) = layout(p);
    match last_piece_of(p, body, p.len(), verbatim) {
        Some((_, _, cut)) => {
            let end = trimmed_end(p, body, cut, verbatim);
            Some(head_of(p, end))
        },
        None => if lead {
            Some(Vec::new())
        } else {
            None
        },
    }
}

/// Where an installation already lives, or the source directory when there
/// is none. A registration pointing at a directory that no longer exists is
/// ignored rather than followed: writing binaries into a directory that has
/// been removed would create a copy nothing knows about. `is_dir` says
/// whether a directory exists.
pub fn destination<F: Fn(&Vec<u16>) -> bool>(registered: Option<Vec<u16>>, from: &Vec<u16>, is_dir: F) -> (r: Vec<u16>)
    requires
        forall|d: &Vec<u16>| call_requires(is_dir, (d,)),
    ensures
        match registered {
            Some(reg) => match parent_dir(reg@) {
                Some(dir) => exists|v: Vec<u16>, b: bool|
                    v@ == dir && #[trigger] call_ensures(is_dir, (&v,), b) && r@ == if b {
                        dir
                    } else {
                        from@
                    },
                None => r@ == from@,
            },
            None => r@ == from@,
        },
{
    match registered {
        Some(reg) => match parent(&reg) {
            Some(dir) => {
                let exists = is_dir(&dir);
                if exists {
                    dir
                } else {
                    copy_units(from)
                }
            },
            None => copy_units(from),
        },
        None => copy_units(from),
    }
}

/// Whether both names lead to the same directory, so nothing is copied over
/// itself. Compared after resolving (`canonical`), since the registry and the
/// executable's own path need not spell a directory the same way; as given
/// when either cannot be resolved. Paths are the same when their components,
/// read as `std::path::Path` reads them, are.
pub fn same_directory<F: Fn(&Vec<u16>) -> Option<Vec<u16>>>(a: &Vec<u16>, b: &Vec<u16>, canonical: F) -> (r: bool)
    requires
        forall|d: &Vec<u16>| call_requires(canonical, (d,)),
    ensures
        exists|ca: Option<Vec<u16>>, cb: Option<Vec<u16>>|
            #[trigger] call_ensures(canonical, (a,), ca) && #[trigger] call_ensures(canonical, (b,), cb)
                && r == match (ca, cb) {
                (Some(x), Some(y)) => components(x@) == components(y@),
                _ => components(a@) == components(b@),
            },
{
    let ca = canonical(a);
    let cb = canonical(b);
    match (&ca, &cb) {
        (Some(x), Some(y)) => same_components(x, y),
        _ => same_components(a, b),
    }
}

fn same_components(a: &Vec<u16>, b: &Vec<u16>) -> (r: bool)
    ensures
        r == (components(a@) == components(b@)),
{
    let ka = crate::order::path_components(a);
    let kb = crate::order::path_components(b);
    crate::order::components_equal(&ka, &kb)
}

} // verus!
