//! Quoting arguments for a Windows command line, in UTF-16.
//!
//! A command line is split into arguments by the rules `CommandLineToArgvW`
//! (and the C runtime) document: blanks outside quotes separate arguments,
//! `"` toggles quoting, a run of backslashes is literal unless a `"` follows
//! it, in which case it is halved and an odd run makes that `"` literal, and
//! inside quotes `""` stands for one `"`. [`argv_rules`] writes those rules
//! down; [`lemma_quoted_line_splits_back`] proves that a line made of quoted
//! arguments splits back into exactly those arguments.

use vstd::prelude::*;

use crate::args::{argv_spec, Args, ArgsView};
use crate::units::units_list;

verus! {

pub open spec fn quote_unit() -> u16 {
    0x22
}

pub open spec fn backslash_unit() -> u16 {
    0x5C
}

pub open spec fn space_unit() -> u16 {
    0x20
}

pub open spec fn is_blank(u: u16) -> bool {
    u == 0x20 || u == 0x09
}

/// `n` backslashes.
pub open spec fn backslashes(n: nat) -> Seq<u16> {
    Seq::new(n, |i: int| backslash_unit())
}

/// The escaped body of an argument, `run` being the number of backslashes
/// emitted just before `a`: a run immediately before a `"` is doubled and the
/// quote escaped, and the run before the closing quote is doubled.
pub open spec fn escaped(a: Seq<u16>, run: nat) -> Seq<u16>
    decreases a.len(),
{
    if a.len() == 0 {
        backslashes(run)
    } else if a[0] == backslash_unit() {
        seq![backslash_unit()] + escaped(a.drop_first(), run + 1)
    } else if a[0] == quote_unit() {
        backslashes(run + 1) + seq![quote_unit()] + escaped(a.drop_first(), 0)
    } else {
        seq![a[0]] + escaped(a.drop_first(), 0)
    }
}

/// An argument in quotes, escaped so that it reads back as itself.
pub open spec fn quoted(a: Seq<u16>) -> Seq<u16> {
    seq![quote_unit()] + escaped(a, 0) + seq![quote_unit()]
}

/// Quoted arguments separated by single spaces.
pub open spec fn quoted_line(args: Seq<Seq<u16>>) -> Seq<u16>
    decreases args.len(),
{
    if args.len() == 0 {
        Seq::empty()
    } else if args.len() == 1 {
        quoted(args[0])
    } else {
        quoted(args[0]) + seq![space_unit()] + quoted_line(args.drop_first())
    }
}

/// The number of backslashes `s` starts with.
pub open spec fn leading_backslashes(s: Seq<u16>) -> nat
    decreases s.len(),
{
    if s.len() > 0 && s[0] == backslash_unit() {
        1 + leading_backslashes(s.drop_first())
    } else {
        0
    }
}

/// The documented argument-splitting rules, from a point in the line where
/// quoting is `inq`, the argument read so far is `cur` and `started` says
/// whether an argument has begun.
pub open spec fn split_from(s: Seq<u16>, inq: bool, cur: Seq<u16>, started: bool) -> Seq<
    Seq<u16>,
>
    decreases s.len(),
{
    if s.len() == 0 {
        if started {
            seq![cur]
        } else {
            Seq::empty()
        }
    } else if !inq && is_blank(s[0]) {
        (if started {
            seq![cur]
        } else {
            Seq::empty()
        }) + split_from(s.drop_first(), false, Seq::empty(), false)
    } else if s[0] == backslash_unit() {
        let n = leading_backslashes(s);
        proof {
            lemma_leading_backslashes(s);
        }
        if n < s.len() && s[n as int] == quote_unit() {
            if n % 2 == 1 {
                split_from(
                    s.subrange((n + 1) as int, s.len() as int),
                    inq,
                    cur + backslashes(n / 2) + seq![quote_unit()],
                    true,
                )
            } else {
                split_from(s.subrange(n as int, s.len() as int), inq, cur + backslashes(n / 2), true)
            }
        } else {
            split_from(s.subrange(n as int, s.len() as int), inq, cur + backslashes(n), true)
        }
    } else if s[0] == quote_unit() {
        if inq && s.len() >= 2 && s[1] == quote_unit() {
            split_from(s.subrange(2, s.len() as int), true, cur.push(quote_unit()), true)
        } else {
            split_from(s.drop_first(), !inq, cur, true)
        }
    } else {
        split_from(s.drop_first(), inq, cur.push(s[0]), true)
    }
}

/// A run of backslashes is non-empty when the line starts with one, lies
/// within the line, and is followed by something else.
pub proof fn lemma_leading_backslashes(s: Seq<u16>)
    ensures
        leading_backslashes(s) <= s.len(),
        s.len() > 0 && s[0] == backslash_unit() ==> leading_backslashes(s) >= 1,
        forall|i: int| 0 <= i < leading_backslashes(s) ==> s[i] == backslash_unit(),
        leading_backslashes(s) < s.len() ==> s[leading_backslashes(s) as int] != backslash_unit(),
    decreases s.len(),
{
    if s.len() > 0 && s[0] == backslash_unit() {
        lemma_leading_backslashes(s.drop_first());
        assert forall|i: int| 0 <= i < leading_backslashes(s) implies s[i] == backslash_unit() by {
            if i > 0 {
                assert(s[i] == s.drop_first()[i - 1]);
            }
        }
    }
}

/// The arguments a line holds, by the documented rules.
pub open spec fn argv_rules(line: Seq<u16>) -> Seq<Seq<u16>> {
    split_from(line, false, Seq::empty(), false)
}

/// Quotes one argument per the `CommandLineToArgvW` rules, in UTF-16.
///
/// Backslashes are literal except in a run immediately before a `"`, where
/// each must be doubled. The run before the closing quote counts, so a
/// trailing `\` in a path would otherwise escape it and swallow the next
/// argument. Working in UTF-16 keeps names that are not valid Unicode intact.
pub fn quote(arg: &[u16]) -> (r: Vec<u16>)
    ensures
        r@ == quoted(arg@),
{
    let mut out: Vec<u16> = Vec::new();
    out.push(0x22);
    let mut run: usize = 0;
    let n = arg.len();
    let mut i: usize = 0;
    assert(arg@.subrange(0, n as int) =~= arg@);
    while i < n
        invariant
            n == arg@.len(),
            i <= n,
            run <= i,
            escaped(arg@, 0) == out@.drop_first() + escaped(
                arg@.subrange(i as int, n as int),
                run as nat,
            ),
            out@.len() >= 1,
            out@[0] == quote_unit(),
        decreases n - i,
    {
        let ghost rest = arg@.subrange(i as int, n as int);
        let ghost before = out@;
        assert(rest.drop_first() =~= arg@.subrange(i + 1, n as int));
        let unit = arg[i];
        if unit == 0x5C {
            out.push(unit);
            run = run + 1;
            assert(out@.drop_first() =~= before.drop_first() + seq![backslash_unit()]);
        } else if unit == 0x22 {
            let stop = run + 1;
            let mut k: usize = 0;
            while k < stop
                invariant
                    k <= stop,
                    out@ == before + backslashes(k as nat),
                decreases stop - k,
            {
                out.push(0x5C);
                k = k + 1;
                assert(out@ =~= before + backslashes(k as nat));
            }
            out.push(unit);
            run = 0;
            assert(out@.drop_first() =~= before.drop_first() + backslashes(k as nat) + seq![
                quote_unit(),
            ]);
        } else {
            out.push(unit);
            run = 0;
            assert(out@.drop_first() =~= before.drop_first() + seq![unit]);
        }
        i = i + 1;
    }
    let ghost before = out@;
    let mut k: usize = 0;
    while k < run
        invariant
            k <= run,
            out@ == before + backslashes(k as nat),
        decreases run - k,
    {
        out.push(0x5C);
        k = k + 1;
        assert(out@ =~= before + backslashes(k as nat));
    }
    assert(arg@.subrange(n as int, n as int) =~= Seq::<u16>::empty());
    out.push(0x22);
    assert(out@ =~= quoted(arg@));
    out
}

/// The parameter line that re-runs the command elevated: the same arguments
/// with `--no-elevate` set, each quoted, separated by spaces, NUL-terminated.
/// Built in UTF-16 so a path that is not valid Unicode reaches the child
/// unchanged.
pub fn elevation_parameters(args: &Args) -> (r: Vec<u16>)
    ensures
        r@ == quoted_line(argv_spec(ArgsView { no_elevate: true, ..args@ })).push(0),
{
    let mut child = args.clone_args();
    child.no_elevate = true;
    assert(child@ =~= ArgsView { no_elevate: true, ..args@ });
    let argv = child.to_argv();
    let ghost all = units_list(argv@);
    let mut params: Vec<u16> = Vec::new();
    let mut i: usize = 0;
    while i < argv.len()
        invariant
            i <= argv.len(),
            all == units_list(argv@),
            params@ == quoted_line(all.subrange(0, i as int)),
        decreases argv.len() - i,
    {
        let q = quote(argv[i].as_slice());
        let ghost before = params@;
        if i > 0 {
            params.push(0x20);
        }
        let mut k: usize = 0;
        let ghost mid = params@;
        while k < q.len()
            invariant
                k <= q.len(),
                params@ == mid + q@.subrange(0, k as int),
            decreases q.len() - k,
        {
            params.push(q[k]);
            k = k + 1;
            assert(params@ =~= mid + q@.subrange(0, k as int));
        }
        proof {
            assert(q@.subrange(0, q@.len() as int) =~= q@);
            lemma_quoted_line_snoc(all.subrange(0, i as int), all[i as int]);
            assert(all.subrange(0, i as int).push(all[i as int]) =~= all.subrange(0, i + 1));
            if i > 0 {
                assert(params@ =~= before + seq![space_unit()] + quoted(all[i as int]));
            } else {
                assert(params@ =~= quoted(all[i as int]));
            }
        }
        i = i + 1;
    }
    assert(all.subrange(0, argv.len() as int) =~= all);
    params.push(0);
    params
}

/// Appending an argument to a line appends a space and its quoted form.
pub proof fn lemma_quoted_line_snoc(args: Seq<Seq<u16>>, a: Seq<u16>)
    ensures
        quoted_line(args.push(a)) == if args.len() == 0 {
            quoted(a)
        } else {
            quoted_line(args) + seq![space_unit()] + quoted(a)
        },
    decreases args.len(),
{
    if args.len() == 0 {
    } else if args.len() == 1 {
        assert(args.push(a).drop_first() =~= seq![a]);
        assert(quoted_line(seq![a]) == quoted(a));
        assert(args.push(a)[0] == args[0]);
    } else {
        assert(args.push(a).drop_first() =~= args.drop_first().push(a));
        assert(args.push(a)[0] == args[0]);
        lemma_quoted_line_snoc(args.drop_first(), a);
        assert(quoted(args[0]) + seq![space_unit()] + (quoted_line(args.drop_first()) + seq![
            space_unit(),
        ] + quoted(a)) =~= quoted(args[0]) + seq![space_unit()] + quoted_line(args.drop_first())
            + seq![space_unit()] + quoted(a));
    }
}

proof fn lemma_backslashes_lead(m: nat, t: Seq<u16>)
    ensures
        leading_backslashes(backslashes(m) + t) == m + leading_backslashes(t),
    decreases m,
{
    if m > 0 {
        assert((backslashes(m) + t)[0] == backslash_unit());
        assert((backslashes(m) + t).drop_first() =~= backslashes((m - 1) as nat) + t);
        lemma_backslashes_lead((m - 1) as nat, t);
    } else {
        assert(backslashes(m) + t =~= t);
    }
}

proof fn lemma_escaped_backslashes(k: nat, t: Seq<u16>, run: nat)
    ensures
        escaped(backslashes(k) + t, run) == backslashes(k) + escaped(t, run + k),
    decreases k,
{
    if k == 0 {
        assert(backslashes(k) + t =~= t);
        assert(backslashes(k) + escaped(t, run) =~= escaped(t, run));
    } else {
        let s = backslashes(k) + t;
        assert(s[0] == backslash_unit());
        assert(s.drop_first() =~= backslashes((k - 1) as nat) + t);
        lemma_escaped_backslashes((k - 1) as nat, t, run + 1);
        assert(seq![backslash_unit()] + (backslashes((k - 1) as nat) + escaped(t, run + k))
            =~= backslashes(k) + escaped(t, run + k));
    }
}

/// The closing quote, followed by a blank or the end, ends quoting.
proof fn lemma_closing_quote(c: Seq<u16>, r: Seq<u16>)
    requires
        r.len() == 0 || is_blank(r[0]),
    ensures
        split_from(seq![quote_unit()] + r, true, c, true) == split_from(r, false, c, true),
{
    let line = seq![quote_unit()] + r;
    assert(line[0] == quote_unit());
    assert(line.len() >= 2 ==> line[1] == r[0]);
    assert(line.drop_first() =~= r);
}

/// A run of `m` backslashes before a quote: halved, and an odd run makes the
/// quote literal.
proof fn lemma_run_before_quote(m: nat, t: Seq<u16>, inq: bool, c: Seq<u16>)
    requires
        m > 0,
    ensures
        m % 2 == 1 ==> split_from(backslashes(m) + (seq![quote_unit()] + t), inq, c, true)
            == split_from(t, inq, c + backslashes(m / 2) + seq![quote_unit()], true),
        m % 2 == 0 ==> split_from(backslashes(m) + (seq![quote_unit()] + t), inq, c, true)
            == split_from(seq![quote_unit()] + t, inq, c + backslashes(m / 2), true),
{
    let after = seq![quote_unit()] + t;
    let line = backslashes(m) + after;
    lemma_backslashes_lead(m, after);
    assert(leading_backslashes(after) == 0);
    assert(line[0] == backslash_unit());
    assert(line[m as int] == quote_unit());
    assert(line.subrange((m + 1) as int, line.len() as int) =~= t);
    assert(line.subrange(m as int, line.len() as int) =~= after);
}

/// A run of `m` backslashes before anything but a quote is literal.
proof fn lemma_run_before_other(m: nat, x: u16, t: Seq<u16>, inq: bool, c: Seq<u16>)
    requires
        m > 0,
        x != quote_unit(),
        x != backslash_unit(),
    ensures
        split_from(backslashes(m) + (seq![x] + t), inq, c, true) == split_from(
            seq![x] + t,
            inq,
            c + backslashes(m),
            true,
        ),
{
    let after = seq![x] + t;
    let line = backslashes(m) + after;
    lemma_backslashes_lead(m, after);
    assert(after[0] == x);
    assert(leading_backslashes(after) == 0);
    assert(line[0] == backslash_unit());
    assert(line[m as int] == x);
    assert(line.subrange(m as int, line.len() as int) =~= after);
}

/// Inside quotes, any other unit is taken as it is.
proof fn lemma_plain_unit(x: u16, t: Seq<u16>, c: Seq<u16>)
    requires
        x != quote_unit(),
        x != backslash_unit(),
    ensures
        split_from(seq![x] + t, true, c, true) == split_from(t, true, c.push(x), true),
{
    assert((seq![x] + t)[0] == x);
    assert((seq![x] + t).drop_first() =~= t);
}

/// Inside the quotes, an escaped argument followed by the closing quote and
/// a blank (or the end) reads back as the argument, with quoting off.
proof fn lemma_escaped_reads_back(a: Seq<u16>, c: Seq<u16>, r: Seq<u16>)
    requires
        r.len() == 0 || is_blank(r[0]),
    ensures
        split_from(escaped(a, 0) + seq![quote_unit()] + r, true, c, true) == split_from(
            r,
            false,
            c + a,
            true,
        ),
    decreases a.len(),
{
    let k = leading_backslashes(a);
    lemma_leading_backslashes(a);
    let q = seq![quote_unit()];
    if k == a.len() {
        assert(a =~= backslashes(k));
        lemma_escaped_backslashes(k, Seq::empty(), 0);
        assert(backslashes(k) + Seq::<u16>::empty() =~= a);
        assert(escaped(a, 0) =~= backslashes(k + k));
        assert(escaped(a, 0) + q + r =~= backslashes(k + k) + (q + r));
        if k == 0 {
            assert(backslashes(k + k) + (q + r) =~= q + r);
            assert(c + a =~= c);
            lemma_closing_quote(c, r);
        } else {
            lemma_run_before_quote(k + k, r, true, c);
            assert(backslashes((k + k) / 2) =~= a);
            lemma_closing_quote(c + a, r);
        }
    } else {
        let x = a[k as int];
        let tail = a.subrange((k + 1) as int, a.len() as int);
        assert(a =~= backslashes(k) + (seq![x] + tail));
        lemma_escaped_backslashes(k, seq![x] + tail, 0);
        assert((seq![x] + tail)[0] == x);
        assert((seq![x] + tail).drop_first() =~= tail);
        if x == quote_unit() {
            assert(escaped(seq![x] + tail, k) == backslashes(k + 1) + seq![quote_unit()] + escaped(
                tail,
                0,
            ));
            assert(escaped(a, 0) + q + r =~= backslashes(k + k + 1) + (q + (escaped(tail, 0) + q
                + r)));
            lemma_run_before_quote(k + k + 1, escaped(tail, 0) + q + r, true, c);
            assert(backslashes((k + k + 1) / 2) =~= backslashes(k));
            lemma_escaped_reads_back(tail, c + backslashes(k) + seq![quote_unit()], r);
            assert(c + backslashes(k) + seq![quote_unit()] + tail =~= c + a);
        } else {
            assert(escaped(seq![x] + tail, k) == seq![x] + escaped(tail, 0));
            let rest = escaped(tail, 0) + q + r;
            assert(escaped(a, 0) + q + r =~= backslashes(k) + (seq![x] + rest));
            lemma_plain_unit(x, rest, c + backslashes(k));
            lemma_escaped_reads_back(tail, (c + backslashes(k)).push(x), r);
            assert((c + backslashes(k)).push(x) + tail =~= c + a);
            if k > 0 {
                lemma_run_before_other(k, x, rest, true, c);
            } else {
                assert(backslashes(k) + (seq![x] + rest) =~= seq![x] + rest);
                assert(c + backslashes(k) =~= c);
            }
        }
    }
}

/// A quoted argument followed by a blank (or the end) reads back as itself.
proof fn lemma_quoted_reads_back(a: Seq<u16>, r: Seq<u16>)
    requires
        r.len() == 0 || is_blank(r[0]),
    ensures
        split_from(quoted(a) + r, false, Seq::empty(), false) == split_from(r, false, a, true),
{
    let line = quoted(a) + r;
    assert(line[0] == quote_unit());
    assert(line.drop_first() =~= escaped(a, 0) + seq![quote_unit()] + r);
    lemma_escaped_reads_back(a, Seq::empty(), r);
    assert(Seq::<u16>::empty() + a =~= a);
}

/// A line of quoted arguments splits back into exactly those arguments, by
/// the rules `CommandLineToArgvW` documents: a trailing backslash, a quote,
/// a blank or an unpaired surrogate in an argument changes nothing.
pub proof fn lemma_quoted_line_splits_back(args: Seq<Seq<u16>>)
    ensures
        argv_rules(quoted_line(args)) == args,
    decreases args.len(),
{
    if args.len() == 0 {
        assert(argv_rules(Seq::empty()) =~= args);
    } else if args.len() == 1 {
        lemma_quoted_reads_back(args[0], Seq::empty());
        assert(quoted(args[0]) + Seq::<u16>::empty() =~= quoted(args[0]));
        assert(split_from(Seq::empty(), false, args[0], true) == seq![args[0]]);
        assert(seq![args[0]] =~= args);
    } else {
        let rest = seq![space_unit()] + quoted_line(args.drop_first());
        lemma_quoted_reads_back(args[0], rest);
        assert(quoted(args[0]) + rest =~= quoted_line(args));
        assert(rest.drop_first() =~= quoted_line(args.drop_first()));
        lemma_quoted_line_splits_back(args.drop_first());
        assert(split_from(rest, false, args[0], true) == seq![args[0]] + split_from(
            quoted_line(args.drop_first()),
            false,
            Seq::empty(),
            false,
        ));
        assert(seq![args[0]] + args.drop_first() =~= args);
    }
}

/// The elevated child reads back exactly the parent's command line, with
/// `--no-elevate` set: what [`elevation_parameters`] builds splits into the
/// re-encoded arguments, and those parse to the child's command line.
pub proof fn lemma_elevated_child_parses(a: ArgsView)
    requires
        crate::args::well_formed(a),
    ensures
        crate::args::parse_spec(
            argv_rules(quoted_line(argv_spec(ArgsView { no_elevate: true, ..a }))),
            Some(Ok::<Seq<Seq<u16>>, String>(a.paths)),
        ) == crate::args::ParseView::Parsed(ArgsView { no_elevate: true, ..a }),
{
    let child = ArgsView { no_elevate: true, ..a };
    lemma_quoted_line_splits_back(argv_spec(child));
    crate::args::lemma_argv_round_trip(child);
}

} // verus!
