//! Putting lock and unlock targets in order.
//!
//! Unlocking a child while its parent is still locked is refused, so
//! `unlock child parent` used to report an error that `unlock parent child`
//! did not, for the same end state. Sorting the absolute paths the way
//! `std::path::Path` orders them on Windows puts every ancestor ahead of its
//! descendants (a parent's components are a prefix of its children's), and
//! repeats collapse on the way. That order is modelled here: a path's
//! components are read as `Path` reads them (prefix, root, `.`, `..`, names),
//! each becomes a key, and paths compare key by key.

use vstd::prelude::*;

use crate::units::{copy_units, is_high, is_low, units_list};

verus! {

/// `\` or `/`, either of which separates components on Windows.
pub open spec fn is_separator(u: u16) -> bool {
    u == 0x5C || u == 0x2F
}

/// Separates components: `\`, and outside a verbatim path also `/`.
pub open spec fn sep(u: u16, verbatim: bool) -> bool {
    u == 0x5C || (!verbatim && u == 0x2F)
}

/// A unit of the first eight with `/` read as `\`, as the prefix is read.
pub open spec fn norm(u: u16) -> u16 {
    if u == 0x2F {
        0x5Cu16
    } else {
        u
    }
}

pub open spec fn is_letter(u: u16) -> bool {
    (0x41 <= u <= 0x5A) || (0x61 <= u <= 0x7A)
}

/// A drive letter as it is compared: without case.
pub open spec fn upper(u: u16) -> u16 {
    if 0x61 <= u <= 0x7A {
        (u - 0x20) as u16
    } else {
        u
    }
}

/// The first separator at or after `i`, or the end.
pub open spec fn sep_from(p: Seq<u16>, i: int, verbatim: bool) -> int
    decreases p.len() - i,
{
    if i >= p.len() {
        p.len() as int
    } else if sep(p[i], verbatim) {
        i
    } else {
        sep_from(p, i + 1, verbatim)
    }
}

pub proof fn lemma_sep_from_bounds(p: Seq<u16>, i: int, verbatim: bool)
    requires
        0 <= i,
    ensures
        i <= p.len() ==> i <= sep_from(p, i, verbatim) <= p.len(),
        sep_from(p, i, verbatim) < p.len() ==> sep(p[sep_from(p, i, verbatim)], verbatim),
    decreases p.len() - i,
{
    if i < p.len() && !sep(p[i], verbatim) {
        lemma_sep_from_bounds(p, i + 1, verbatim);
    }
}

/// The code point of a surrogate pair.
pub open spec fn pair_value(hi: u16, lo: u16) -> u32 {
    ((hi - 0xD800) * 0x400 + (lo - 0xDC00) + 0x10000) as u32
}

/// The code points of `w` from `i` on: a surrogate pair is one code point,
/// an unpaired surrogate stands for its own value.
pub open spec fn cps_from(w: Seq<u16>, i: int) -> Seq<u32>
    decreases w.len() - i,
{
    if i < 0 || i >= w.len() {
        Seq::empty()
    } else if i + 1 < w.len() && is_high(w[i]) && is_low(w[i + 1]) {
        seq![pair_value(w[i], w[i + 1])] + cps_from(w, i + 2)
    } else {
        seq![w[i] as u32] + cps_from(w, i + 1)
    }
}

pub open spec fn code_points(w: Seq<u16>) -> Seq<u32> {
    cps_from(w, 0)
}

/// Each code point one higher, so that 0 can end a field.
pub open spec fn shifted(s: Seq<u32>) -> Seq<u32> {
    Seq::new(s.len(), |k: int| (s[k] + 1) as u32)
}

/// The prefix of a Windows path, as `std::path::Prefix` has it.
pub enum PrefixKind {
    /// `\\?\name`
    Verbatim(Seq<u16>),
    /// `\\?\UNC\server\share`
    VerbatimUnc(Seq<u16>, Seq<u16>),
    /// `\\?\C:`
    VerbatimDisk(u16),
    /// `\\.\device`
    DeviceNs(Seq<u16>),
    /// `\\server\share`
    Unc(Seq<u16>, Seq<u16>),
    /// `C:`
    Disk(u16),
}

/// The share after a server that ends at `s_end`: the next component, or
/// nothing.
pub open spec fn share_after(p: Seq<u16>, s_end: int, verbatim: bool) -> Seq<u16> {
    if s_end < p.len() {
        p.subrange(s_end + 1, sep_from(p, s_end + 1, verbatim))
    } else {
        Seq::empty()
    }
}

/// How a path begins. Only an exact `\\?\` makes a path verbatim; `/` counts
/// as `\` elsewhere in the first eight units; a drive letter is compared
/// without case.
pub open spec fn prefix_of(p: Seq<u16>) -> Option<PrefixKind> {
    if p.len() >= 2 && norm(p[0]) == 0x5C && norm(p[1]) == 0x5C {
        if p.len() >= 4 && p[0] == 0x5C && p[1] == 0x5C && p[2] == 0x3F && p[3] == 0x5C {
            if p.len() >= 8 && p[4] == 0x55 && p[5] == 0x4E && p[6] == 0x43 && norm(p[7]) == 0x5C {
                let s_end = sep_from(p, 8, true);
                Some(PrefixKind::VerbatimUnc(p.subrange(8, s_end), share_after(p, s_end, true)))
            } else if p.len() >= 6 && is_letter(p[4]) && p[5] == 0x3A && (p.len() == 6 || p[6] == 0x5C) {
                Some(PrefixKind::VerbatimDisk(upper(p[4])))
            } else {
                Some(PrefixKind::Verbatim(p.subrange(4, sep_from(p, 4, true))))
            }
        } else if p.len() >= 4 && p[2] == 0x2E && norm(p[3]) == 0x5C {
            Some(PrefixKind::DeviceNs(p.subrange(4, sep_from(p, 4, false))))
        } else {
            let s_end = sep_from(p, 2, false);
            let share = share_after(p, s_end, false);
            if s_end > 2 && share.len() > 0 {
                Some(PrefixKind::Unc(p.subrange(2, s_end), share))
            } else {
                None
            }
        }
    } else if p.len() >= 2 && is_letter(p[0]) && p[1] == 0x3A {
        Some(PrefixKind::Disk(upper(p[0])))
    } else {
        None
    }
}

/// How many units the prefix takes.
pub open spec fn prefix_len(k: PrefixKind) -> int {
    match k {
        PrefixKind::Verbatim(x) => 4 + x.len() as int,
        PrefixKind::VerbatimUnc(x, y) => 8 + x.len() as int + if y.len() > 0 { 1 + y.len() as int } else { 0 },
        PrefixKind::VerbatimDisk(_) => 6,
        PrefixKind::DeviceNs(x) => 4 + x.len() as int,
        PrefixKind::Unc(x, y) => 2 + x.len() as int + if y.len() > 0 { 1 + y.len() as int } else { 0 },
        PrefixKind::Disk(_) => 2,
    }
}

pub open spec fn prefix_verbatim(k: PrefixKind) -> bool {
    k is Verbatim || k is VerbatimUnc || k is VerbatimDisk
}

/// A prefix as one key: the kind's rank, then its fields by code point, a
/// field followed by another ending in 0.
pub open spec fn prefix_key(k: PrefixKind) -> Seq<u32> {
    match k {
        PrefixKind::Verbatim(x) => seq![0u32, 0u32] + code_points(x),
        PrefixKind::VerbatimUnc(x, y) => seq![0u32, 1u32] + shifted(code_points(x)) + seq![0u32] + code_points(y),
        PrefixKind::VerbatimDisk(d) => seq![0u32, 2u32, d as u32],
        PrefixKind::DeviceNs(x) => seq![0u32, 3u32] + code_points(x),
        PrefixKind::Unc(x, y) => seq![0u32, 4u32] + shifted(code_points(x)) + seq![0u32] + code_points(y),
        PrefixKind::Disk(d) => seq![0u32, 5u32, d as u32],
    }
}

/// The keys of the other components: the root, `.`, `..`, and a name by its
/// code points, in this order of rank.
pub open spec fn root_key() -> Seq<u32> {
    seq![1u32]
}

pub open spec fn cur_key() -> Seq<u32> {
    seq![2u32]
}

pub open spec fn parent_key() -> Seq<u32> {
    seq![3u32]
}

pub open spec fn name_key(x: Seq<u16>) -> Seq<u32> {
    seq![4u32] + code_points(x)
}

/// The component, if any, that the piece `p[start..end]` between separators
/// gives: an empty piece none, `.` none (`.` in a verbatim path), `..` the
/// parent, anything else a name.
pub open spec fn piece_key(p: Seq<u16>, start: int, end: int, verbatim: bool) -> Seq<Seq<u32>> {
    if end <= start {
        Seq::empty()
    } else if end - start == 1 && p[start] == 0x2E {
        if verbatim {
            seq![cur_key()]
        } else {
            Seq::empty()
        }
    } else if end - start == 2 && p[start] == 0x2E && p[start + 1] == 0x2E {
        seq![parent_key()]
    } else {
        seq![name_key(p.subrange(start, end))]
    }
}

/// The components of the body from the piece that began at `start`, reading
/// on at `i`.
pub open spec fn pieces_from(p: Seq<u16>, start: int, i: int, verbatim: bool) -> Seq<Seq<u32>>
    decreases p.len() - i,
{
    if i >= p.len() {
        piece_key(p, start, p.len() as int, verbatim)
    } else if sep(p[i], verbatim) {
        piece_key(p, start, i, verbatim) + pieces_from(p, i + 1, i + 1, verbatim)
    } else {
        pieces_from(p, start, i + 1, verbatim)
    }
}

/// The components of a Windows path as `std::path::Path` reads them, each as
/// a key: the prefix, then the root (written, or implied by a UNC or device
/// prefix), or a leading `.` of a path with neither, then the pieces between
/// separators. Two paths are the same path exactly when their components
/// are, and `Path` orders paths by their components, which the keys' order
/// follows: by rank, then field by field, names by code point.
pub open spec fn components(p: Seq<u16>) -> Seq<Seq<u32>> {
    let pre = prefix_of(p);
    let plen = match pre {
        Some(k) => prefix_len(k),
        None => 0,
    };
    let verbatim = match pre {
        Some(k) => prefix_verbatim(k),
        None => false,
    };
    let physical = plen < p.len() && (p[plen] == 0x5C || p[plen] == 0x2F);
    let lead = match pre {
        Some(k) => seq![prefix_key(k)],
        None => Seq::empty(),
    };
    if physical {
        lead + seq![root_key()] + pieces_from(p, plen + 1, plen + 1, verbatim)
    } else if pre is Some {
        if !(pre->0 is Disk) && !verbatim {
            lead + seq![root_key()] + pieces_from(p, plen, plen, verbatim)
        } else {
            lead + pieces_from(p, plen, plen, verbatim)
        }
    } else if p.len() >= 1 && p[0] == 0x2E && (p.len() == 1 || p[1] == 0x5C || p[1] == 0x2F) {
        seq![cur_key()] + pieces_from(p, 1, 1, false)
    } else {
        pieces_from(p, 0, 0, false)
    }
}

/// A prefix never runs past the path.
pub proof fn lemma_prefix_fits(p: Seq<u16>)
    ensures
        prefix_of(p) matches Some(k) ==> 2 <= prefix_len(k) <= p.len(),
{
    lemma_sep_from_bounds(p, 8, true);
    lemma_sep_from_bounds(p, 4, true);
    lemma_sep_from_bounds(p, 4, false);
    lemma_sep_from_bounds(p, 2, false);
    if p.len() >= 8 {
        let s = sep_from(p, 8, true);
        if s < p.len() {
            lemma_sep_from_bounds(p, s + 1, true);
        }
    }
    let s2 = sep_from(p, 2, false);
    if 2 <= s2 < p.len() {
        lemma_sep_from_bounds(p, s2 + 1, false);
    }
}

/// The list a vector of keys stands for.
pub open spec fn key_list(v: Seq<Vec<u32>>) -> Seq<Seq<u32>> {
    Seq::new(v.len(), |i: int| v[i]@)
}

/// Lexicographic order on keys.
pub open spec fn key_less(a: Seq<u32>, b: Seq<u32>) -> bool
    decreases a.len(),
{
    if a.len() == 0 {
        b.len() > 0
    } else if b.len() == 0 {
        false
    } else if a[0] != b[0] {
        a[0] < b[0]
    } else {
        key_less(a.drop_first(), b.drop_first())
    }
}

/// Lexicographic order on components.
pub open spec fn path_less(a: Seq<Seq<u32>>, b: Seq<Seq<u32>>) -> bool
    decreases a.len(),
{
    if a.len() == 0 {
        b.len() > 0
    } else if b.len() == 0 {
        false
    } else if a[0] != b[0] {
        key_less(a[0], b[0])
    } else {
        path_less(a.drop_first(), b.drop_first())
    }
}

pub proof fn lemma_key_less_total(a: Seq<u32>, b: Seq<u32>)
    ensures
        a == b || key_less(a, b) || key_less(b, a),
        !(key_less(a, b) && key_less(b, a)),
        !key_less(a, a),
    decreases a.len(),
{
    if a.len() > 0 && b.len() > 0 && a[0] == b[0] {
        lemma_key_less_total(a.drop_first(), b.drop_first());
        if a.drop_first() == b.drop_first() {
            assert forall|i: int| 0 <= i < a.len() implies a[i] == b[i] by {
                if i > 0 {
                    assert(a[i] == a.drop_first()[i - 1]);
                    assert(b[i] == b.drop_first()[i - 1]);
                }
            }
            assert(a =~= b);
        }
    }
    if a.len() > 0 {
        lemma_key_less_total(a.drop_first(), a.drop_first());
    }
    if a.len() == 0 && b.len() == 0 {
        assert(a =~= b);
    }
}

pub proof fn lemma_key_less_trans(a: Seq<u32>, b: Seq<u32>, c: Seq<u32>)
    requires
        key_less(a, b),
        key_less(b, c),
    ensures
        key_less(a, c),
    decreases a.len(),
{
    if a.len() > 0 && b.len() > 0 && c.len() > 0 && a[0] == b[0] && b[0] == c[0] {
        lemma_key_less_trans(a.drop_first(), b.drop_first(), c.drop_first());
    }
}

pub proof fn lemma_path_less_total(a: Seq<Seq<u32>>, b: Seq<Seq<u32>>)
    ensures
        a == b || path_less(a, b) || path_less(b, a),
        !(path_less(a, b) && path_less(b, a)),
        !path_less(a, a),
    decreases a.len(),
{
    if a.len() > 0 && b.len() > 0 {
        lemma_key_less_total(a[0], b[0]);
        if a[0] == b[0] {
            lemma_path_less_total(a.drop_first(), b.drop_first());
            if a.drop_first() == b.drop_first() {
                assert forall|i: int| 0 <= i < a.len() implies a[i] == b[i] by {
                    if i > 0 {
                        assert(a[i] == a.drop_first()[i - 1]);
                        assert(b[i] == b.drop_first()[i - 1]);
                    }
                }
                assert(a =~= b);
            }
        }
    }
    if a.len() > 0 {
        lemma_path_less_total(a.drop_first(), a.drop_first());
        lemma_key_less_total(a[0], a[0]);
    }
    if a.len() == 0 && b.len() == 0 {
        assert(a =~= b);
    }
}

pub proof fn lemma_path_less_trans(a: Seq<Seq<u32>>, b: Seq<Seq<u32>>, c: Seq<Seq<u32>>)
    requires
        path_less(a, b),
        path_less(b, c),
    ensures
        path_less(a, c),
    decreases a.len(),
{
    if a.len() > 0 && b.len() > 0 && c.len() > 0 {
        if a[0] == b[0] && b[0] == c[0] {
            lemma_path_less_trans(a.drop_first(), b.drop_first(), c.drop_first());
        } else if a[0] == b[0] {
        } else if b[0] == c[0] {
        } else {
            lemma_key_less_trans(a[0], b[0], c[0]);
            lemma_key_less_total(a[0], c[0]);
        }
    }
}

/// A path comes before everything beneath it.
pub proof fn lemma_ancestor_is_less(a: Seq<Seq<u32>>, b: Seq<Seq<u32>>)
    requires
        a.len() < b.len(),
        a == b.subrange(0, a.len() as int),
    ensures
        path_less(a, b),
    decreases a.len(),
{
    if a.len() > 0 {
        assert(a[0] == b[0]);
        assert(a.drop_first() =~= b.drop_first().subrange(0, a.drop_first().len() as int));
        lemma_ancestor_is_less(a.drop_first(), b.drop_first());
    }
}

/// Three-way comparison result.
#[derive(Debug, Clone, Copy, PartialEq, Eq, Structural)]
pub enum Order {
    Less,
    Equal,
    Greater,
}

fn compare_keys(a: &Vec<u32>, b: &Vec<u32>) -> (r: Order)
    ensures
        r == Order::Less <==> key_less(a@, b@),
        r == Order::Equal <==> a@ == b@,
        r == Order::Greater <==> key_less(b@, a@),
{
    proof {
        lemma_key_less_total(a@, b@);
    }
    assert(a@.subrange(0, a.len() as int) =~= a@);
    assert(b@.subrange(0, b.len() as int) =~= b@);
    assert(a@.subrange(0, 0) =~= b@.subrange(0, 0));
    let mut i: usize = 0;
    while i < a.len() && i < b.len()
        invariant
            i <= a.len(),
            i <= b.len(),
            a@.subrange(0, i as int) == b@.subrange(0, i as int),
            key_less(a@, b@) == key_less(a@.subrange(i as int, a.len() as int), b@.subrange(i as int, b.len() as int)),
            key_less(b@, a@) == key_less(b@.subrange(i as int, b.len() as int), a@.subrange(i as int, a.len() as int)),
        decreases a.len() - i,
    {
        let ghost sa = a@.subrange(i as int, a.len() as int);
        let ghost sb = b@.subrange(i as int, b.len() as int);
        assert(sa[0] == a@[i as int] && sb[0] == b@[i as int]);
        if a[i] < b[i] {
            return Order::Less;
        }
        if a[i] > b[i] {
            return Order::Greater;
        }
        assert(sa.drop_first() =~= a@.subrange(i + 1, a.len() as int));
        assert(sb.drop_first() =~= b@.subrange(i + 1, b.len() as int));
        assert(a@.subrange(0, i + 1) =~= a@.subrange(0, i as int).push(a@[i as int]));
        assert(b@.subrange(0, i + 1) =~= b@.subrange(0, i as int).push(b@[i as int]));
        i = i + 1;
    }
    if a.len() == b.len() {
        assert(a@ =~= a@.subrange(0, i as int));
        assert(b@ =~= b@.subrange(0, i as int));
        Order::Equal
    } else if a.len() < b.len() {
        Order::Less
    } else {
        Order::Greater
    }
}

fn compare_paths(a: &Vec<Vec<u32>>, b: &Vec<Vec<u32>>) -> (r: Order)
    ensures
        r == Order::Less <==> path_less(key_list(a@), key_list(b@)),
        r == Order::Equal <==> key_list(a@) == key_list(b@),
        r == Order::Greater <==> path_less(key_list(b@), key_list(a@)),
{
    let ghost ua = key_list(a@);
    let ghost ub = key_list(b@);
    proof {
        lemma_path_less_total(ua, ub);
    }
    assert(ua.subrange(0, ua.len() as int) =~= ua);
    assert(ub.subrange(0, ub.len() as int) =~= ub);
    assert(ua.subrange(0, 0) =~= ub.subrange(0, 0));
    let mut i: usize = 0;
    while i < a.len() && i < b.len()
        invariant
            ua == key_list(a@),
            ub == key_list(b@),
            i <= a.len(),
            i <= b.len(),
            ua.subrange(0, i as int) == ub.subrange(0, i as int),
            path_less(ua, ub) == path_less(ua.subrange(i as int, ua.len() as int), ub.subrange(i as int, ub.len() as int)),
            path_less(ub, ua) == path_less(ub.subrange(i as int, ub.len() as int), ua.subrange(i as int, ua.len() as int)),
        decreases a.len() - i,
    {
        let ghost sa = ua.subrange(i as int, ua.len() as int);
        let ghost sb = ub.subrange(i as int, ub.len() as int);
        assert(sa[0] == a@[i as int]@ && sb[0] == b@[i as int]@);
        match compare_keys(&a[i], &b[i]) {
            Order::Less => return Order::Less,
            Order::Greater => return Order::Greater,
            Order::Equal => {},
        }
        assert(sa.drop_first() =~= ua.subrange(i + 1, ua.len() as int));
        assert(sb.drop_first() =~= ub.subrange(i + 1, ub.len() as int));
        assert(ua.subrange(0, i + 1) =~= ua.subrange(0, i as int).push(ua[i as int]));
        assert(ub.subrange(0, i + 1) =~= ub.subrange(0, i as int).push(ub[i as int]));
        i = i + 1;
    }
    if a.len() == b.len() {
        assert(ua =~= ua.subrange(0, i as int));
        assert(ub =~= ub.subrange(0, i as int));
        Order::Equal
    } else if a.len() < b.len() {
        Order::Less
    } else {
        Order::Greater
    }
}

/// Whether two component lists are the same.
pub fn components_equal(a: &Vec<Vec<u32>>, b: &Vec<Vec<u32>>) -> (r: bool)
    ensures
        r == (key_list(a@) == key_list(b@)),
{
    match compare_paths(a, b) {
        Order::Equal => true,
        _ => false,
    }
}

/// The first separator at or after `i`, or the end.
fn find_sep(p: &Vec<u16>, i: usize, verbatim: bool) -> (r: usize)
    requires
        i <= p.len(),
    ensures
        r == sep_from(p@, i as int, verbatim),
{
    let mut j = i;
    while j < p.len()
        invariant
            i <= j <= p.len(),
            sep_from(p@, i as int, verbatim) == sep_from(p@, j as int, verbatim),
        decreases p.len() - j,
    {
        let u = p[j];
        if u == 0x5C || (!verbatim && u == 0x2F) {
            return j;
        }
        j = j + 1;
    }
    j
}

/// The code points of `w` from `k` on, each one higher when `shift`.
pub open spec fn cps_tail(w: Seq<u16>, k: int, shift: bool) -> Seq<u32> {
    if shift {
        shifted(cps_from(w, k))
    } else {
        cps_from(w, k)
    }
}

/// The code points of `p[from..to]`, appended to `out`, each one higher when
/// `shift`.
fn push_code_points(out: &mut Vec<u32>, p: &Vec<u16>, from: usize, to: usize, shift: bool)
    requires
        from <= to <= p.len(),
    ensures
        final(out)@ == old(out)@ + cps_tail(p@.subrange(from as int, to as int), 0, shift),
{
    let ghost w = p@.subrange(from as int, to as int);
    let ghost start = out@;
    let mut i: usize = from;
    while i < to
        invariant
            from <= i <= to,
            to <= p.len(),
            w == p@.subrange(from as int, to as int),
            out@ + cps_tail(w, i - from, shift) == start + cps_tail(w, 0, shift),
        decreases to - i,
    {
        let ghost k: int = i - from;
        let ghost before = out@;
        let u = p[i];
        assert(w[k] == u);
        if i + 1 < to && 0xD800 <= u && u <= 0xDBFF && 0xDC00 <= p[i + 1] && p[i + 1] <= 0xDFFF {
            assert(w[k + 1] == p@[i + 1]);
            let lo = p[i + 1];
            let c: u32 = (u as u32 - 0xD800) * 0x400 + (lo as u32 - 0xDC00) + 0x10000;
            assert(c == pair_value(u, lo));
            assert(cps_from(w, k) == seq![c] + cps_from(w, k + 2));
            let x = if shift { c + 1 } else { c };
            proof {
                if shift {
                    assert(shifted(seq![c] + cps_from(w, k + 2)) =~= seq![x] + shifted(cps_from(w, k + 2)));
                }
                assert(cps_tail(w, k, shift) == seq![x] + cps_tail(w, k + 2, shift));
            }
            out.push(x);
            i = i + 2;
            assert(out@ + cps_tail(w, i - from, shift) =~= before + cps_tail(w, k, shift));
        } else {
            let c: u32 = u as u32;
            assert(cps_from(w, k) == seq![c] + cps_from(w, k + 1));
            let x = if shift { c + 1 } else { c };
            proof {
                if shift {
                    assert(shifted(seq![c] + cps_from(w, k + 1)) =~= seq![x] + shifted(cps_from(w, k + 1)));
                }
                assert(cps_tail(w, k, shift) == seq![x] + cps_tail(w, k + 1, shift));
            }
            out.push(x);
            i = i + 1;
            assert(out@ + cps_tail(w, i - from, shift) =~= before + cps_tail(w, k, shift));
        }
    }
    proof {
        assert(cps_from(w, i - from) =~= Seq::<u32>::empty());
        assert(shifted(Seq::<u32>::empty()) =~= Seq::<u32>::empty());
        assert(out@ + Seq::<u32>::empty() =~= out@);
    }
}

/// The key of a prefix that the path `p` begins with, how many units the
/// prefix takes, whether it is verbatim, and whether it is a drive.
pub(crate) fn read_prefix(p: &Vec<u16>) -> (r: Option<(Vec<u32>, usize, bool, bool)>)
    ensures
        prefix_of(p@) is None ==> r is None,
        prefix_of(p@) matches Some(k) ==> r matches Some(t) && t.0@ == prefix_key(k) && t.1 == prefix_len(k)
            && t.2 == prefix_verbatim(k) && t.3 == (k is Disk),
{
    let n = p.len();
    let ghost q = p@;
    if n >= 2 && (p[0] == 0x5C || p[0] == 0x2F) && (p[1] == 0x5C || p[1] == 0x2F) {
        if n >= 4 && p[0] == 0x5C && p[1] == 0x5C && p[2] == 0x3F && p[3] == 0x5C {
            if n >= 8 && p[4] == 0x55 && p[5] == 0x4E && p[6] == 0x43 && (p[7] == 0x5C || p[7] == 0x2F) {
                let s_end = find_sep(p, 8, true);
                proof {
                    lemma_sep_from_bounds(q, 8, true);
                }
                let (a, b) = if s_end < n {
                    proof {
                        lemma_sep_from_bounds(q, s_end + 1, true);
                    }
                    (s_end + 1, find_sep(p, s_end + 1, true))
                } else {
                    (n, n)
                };
                assert(share_after(q, s_end as int, true) =~= q.subrange(a as int, b as int));
                let mut key: Vec<u32> = Vec::new();
                key.push(0);
                key.push(1);
                push_code_points(&mut key, p, 8, s_end, true);
                key.push(0);
                push_code_points(&mut key, p, a, b, false);
                let len = if b > a { b } else { s_end };
                assert(key@ =~= prefix_key(prefix_of(q)->0));
                Some((key, len, true, false))
            } else if n >= 6 && ((0x41 <= p[4] && p[4] <= 0x5A) || (0x61 <= p[4] && p[4] <= 0x7A)) && p[5] == 0x3A
                && (n == 6 || p[6] == 0x5C) {
                let d: u16 = if 0x61 <= p[4] && p[4] <= 0x7A { p[4] - 0x20 } else { p[4] };
                let mut key: Vec<u32> = Vec::new();
                key.push(0);
                key.push(2);
                key.push(d as u32);
                assert(key@ =~= prefix_key(prefix_of(q)->0));
                Some((key, 6, true, false))
            } else {
                let e = find_sep(p, 4, true);
                proof {
                    lemma_sep_from_bounds(q, 4, true);
                }
                let mut key: Vec<u32> = Vec::new();
                key.push(0);
                key.push(0);
                push_code_points(&mut key, p, 4, e, false);
                assert(key@ =~= prefix_key(prefix_of(q)->0));
                Some((key, e, true, false))
            }
        } else if n >= 4 && p[2] == 0x2E && (p[3] == 0x5C || p[3] == 0x2F) {
            let e = find_sep(p, 4, false);
            proof {
                lemma_sep_from_bounds(q, 4, false);
            }
            let mut key: Vec<u32> = Vec::new();
            key.push(0);
            key.push(3);
            push_code_points(&mut key, p, 4, e, false);
            assert(key@ =~= prefix_key(prefix_of(q)->0));
            Some((key, e, false, false))
        } else {
            let s_end = find_sep(p, 2, false);
            proof {
                lemma_sep_from_bounds(q, 2, false);
            }
            let (a, b) = if s_end < n {
                proof {
                    lemma_sep_from_bounds(q, s_end + 1, false);
                }
                (s_end + 1, find_sep(p, s_end + 1, false))
            } else {
                (n, n)
            };
            assert(share_after(q, s_end as int, false) =~= q.subrange(a as int, b as int));
            if s_end > 2 && b > a {
                let mut key: Vec<u32> = Vec::new();
                key.push(0);
                key.push(4);
                push_code_points(&mut key, p, 2, s_end, true);
                key.push(0);
                push_code_points(&mut key, p, a, b, false);
                assert(key@ =~= prefix_key(prefix_of(q)->0));
                Some((key, b, false, false))
            } else {
                None
            }
        }
    } else if n >= 2 && ((0x41 <= p[0] && p[0] <= 0x5A) || (0x61 <= p[0] && p[0] <= 0x7A)) && p[1] == 0x3A {
        let d: u16 = if 0x61 <= p[0] && p[0] <= 0x7A { p[0] - 0x20 } else { p[0] };
        let mut key: Vec<u32> = Vec::new();
        key.push(0);
        key.push(5);
        key.push(d as u32);
        assert(key@ =~= prefix_key(prefix_of(q)->0));
        Some((key, 2, false, true))
    } else {
        None
    }
}

/// Appends the component the piece `p[start..end]` gives, if any.
fn push_piece(out: &mut Vec<Vec<u32>>, p: &Vec<u16>, start: usize, end: usize, verbatim: bool)
    requires
        start <= end <= p.len(),
    ensures
        key_list(final(out)@) == key_list(old(out)@) + piece_key(p@, start as int, end as int, verbatim),
{
    let ghost before = key_list(out@);
    let mut key: Vec<u32> = Vec::new();
    if end == start {
        assert(before + Seq::<Seq<u32>>::empty() =~= before);
        return;
    } else if end - start == 1 && p[start] == 0x2E {
        if verbatim {
            key.push(2);
        } else {
            assert(before + Seq::<Seq<u32>>::empty() =~= before);
            return;
        }
    } else if end - start == 2 && p[start] == 0x2E && p[start + 1] == 0x2E {
        key.push(3);
    } else {
        key.push(4);
        push_code_points(&mut key, p, start, end, false);
    }
    out.push(key);
    assert(key_list(out@) =~= before + piece_key(p@, start as int, end as int, verbatim));
}

/// Appends the components of the body of `p` from `from` on.
fn push_pieces(out: &mut Vec<Vec<u32>>, p: &Vec<u16>, from: usize, verbatim: bool)
    requires
        from <= p.len(),
    ensures
        key_list(final(out)@) == key_list(old(out)@) + pieces_from(p@, from as int, from as int, verbatim),
{
    let ghost goal = key_list(out@) + pieces_from(p@, from as int, from as int, verbatim);
    let mut start = from;
    let mut i = from;
    while i < p.len()
        invariant
            from <= start <= i <= p.len(),
            key_list(out@) + pieces_from(p@, start as int, i as int, verbatim) == goal,
        decreases p.len() - i,
    {
        let ghost kept = key_list(out@);
        let u = p[i];
        if u == 0x5C || (!verbatim && u == 0x2F) {
            push_piece(out, p, start, i, verbatim);
            assert(kept + pieces_from(p@, start as int, i as int, verbatim) =~= key_list(out@) + pieces_from(
                p@,
                i + 1,
                i + 1,
                verbatim,
            ));
            i = i + 1;
            start = i;
        } else {
            i = i + 1;
        }
    }
    push_piece(out, p, start, i, verbatim);
}

/// The components of a path, computed.
pub fn path_components(p: &Vec<u16>) -> (r: Vec<Vec<u32>>)
    ensures
        key_list(r@) == components(p@),
{
    proof {
        lemma_prefix_fits(p@);
    }
    let n = p.len();
    let mut out: Vec<Vec<u32>> = Vec::new();
    let (plen, verbatim, disk, has_prefix) = match read_prefix(p) {
        Some((key, len, v, d)) => {
            out.push(key);
            (len, v, d, true)
        },
        None => (0, false, false, false),
    };
    let ghost lead = key_list(out@);
    let body: usize = if plen < n && (p[plen] == 0x5C || p[plen] == 0x2F) {
        let mut root: Vec<u32> = Vec::new();
        root.push(1);
        out.push(root);
        plen + 1
    } else if has_prefix {
        if !disk && !verbatim {
            let mut root: Vec<u32> = Vec::new();
            root.push(1);
            out.push(root);
        }
        plen
    } else if n >= 1 && p[0] == 0x2E && (n == 1 || p[1] == 0x5C || p[1] == 0x2F) {
        let mut cur: Vec<u32> = Vec::new();
        cur.push(2);
        out.push(cur);
        1
    } else {
        0
    };
    let ghost head = key_list(out@);
    push_pieces(&mut out, p, body, verbatim);
    proof {
        let q = p@;
        if prefix_of(q) is Some {
            assert(lead =~= seq![prefix_key(prefix_of(q)->0)]);
        } else {
            assert(lead =~= Seq::<Seq<u32>>::empty());
        }
        if plen < n && (q[plen as int] == 0x5C || q[plen as int] == 0x2F) {
            assert(head =~= lead + seq![root_key()]);
        } else if has_prefix {
            if !disk && !verbatim {
                assert(head =~= lead + seq![root_key()]);
            } else {
                assert(head =~= lead);
            }
        } else if n >= 1 && q[0] == 0x2E && (n == 1 || q[1] == 0x5C || q[1] == 0x2F) {
            assert(head =~= seq![cur_key()]);
        } else {
            assert(head =~= Seq::<Seq<u32>>::empty());
        }
        assert(key_list(out@) =~= components(q));
    }
    out
}

/// Where `key` goes among sorted `keys`: the first position whose key is not
/// below it, and whether the key there is `key` itself.
fn find_slot(keys: &Vec<Vec<Vec<u32>>>, key: &Vec<Vec<u32>>) -> (r: (usize, bool))
    ensures
        r.0 <= keys@.len(),
        forall|i: int| 0 <= i < r.0 ==> path_less(#[trigger] key_list(keys@[i]@), key_list(key@)),
        r.1 ==> r.0 < keys@.len() && key_list(keys@[r.0 as int]@) == key_list(key@),
        !r.1 && r.0 < keys@.len() ==> path_less(key_list(key@), key_list(keys@[r.0 as int]@)),
{
    let mut pos: usize = 0;
    while pos < keys.len()
        invariant
            pos <= keys.len(),
            forall|i: int| 0 <= i < pos ==> path_less(#[trigger] key_list(keys@[i]@), key_list(key@)),
        decreases keys.len() - pos,
    {
        match compare_paths(&keys[pos], key) {
            Order::Less => {},
            Order::Equal => return (pos, true),
            Order::Greater => return (pos, false),
        }
        pos = pos + 1;
    }
    (pos, false)
}

/// Strictly increasing in the order `std::path::Path` gives Windows paths
/// (by [`components`]): sorted, with no two entries naming the same path.
pub open spec fn strictly_sorted(v: Seq<Seq<u16>>) -> bool {
    forall|i: int, j: int| 0 <= i < j < v.len() ==> path_less(components(#[trigger] v[i]), components(#[trigger] v[j]))
}

/// Whether some entry of `v` names the same path as `p`.
pub open spec fn names_path(v: Seq<Seq<u16>>, p: Seq<u16>) -> bool {
    exists|j: int| 0 <= j < v.len() && #[trigger] components(v[j]) == components(p)
}

/// `x` is the first of `paths` to name the path it names.
pub open spec fn first_of_its_path(paths: Seq<Seq<u16>>, x: Seq<u16>) -> bool {
    exists|n: int|
        0 <= n < paths.len() && paths[n] == x && forall|m: int|
            0 <= m < n ==> components(#[trigger] paths[m]) != components(x)
}

/// The targets in the order they are worked on: sorted as `Path` sorts them,
/// each path once, as a stable sort followed by removing repeats leaves
/// them. Every entry is the first target to name its path, and every target
/// is named by an entry.
pub fn ordered(paths: &Vec<Vec<u16>>) -> (r: Vec<Vec<u16>>)
    ensures
        strictly_sorted(units_list(r@)),
        forall|i: int| 0 <= i < r@.len() ==> units_list(paths@).contains(#[trigger] r@[i]@),
        forall|i: int| 0 <= i < r@.len() ==> first_of_its_path(units_list(paths@), #[trigger] r@[i]@),
        forall|i: int| 0 <= i < paths@.len() ==> names_path(units_list(r@), #[trigger] paths@[i]@),
{
    let mut out: Vec<Vec<u16>> = Vec::new();
    let mut keys: Vec<Vec<Vec<u32>>> = Vec::new();
    let mut n: usize = 0;
    while n < paths.len()
        invariant
            n <= paths.len(),
            out@.len() == keys@.len(),
            forall|i: int| 0 <= i < keys@.len() ==> key_list(#[trigger] keys@[i]@) == components(out@[i]@),
            strictly_sorted(units_list(out@)),
            forall|i: int| 0 <= i < out@.len() ==> units_list(paths@).contains(#[trigger] out@[i]@),
            forall|i: int| 0 <= i < out@.len() ==> first_of_its_path(units_list(paths@), #[trigger] out@[i]@),
            forall|i: int| 0 <= i < n ==> names_path(units_list(out@), #[trigger] paths@[i]@),
        decreases paths.len() - n,
    {
        let key = path_components(&paths[n]);
        let ghost k = components(paths@[n as int]@);
        let (pos, found) = find_slot(&keys, &key);
        proof {
            assert forall|i: int| 0 <= i < pos implies path_less(#[trigger] components(out@[i]@), k) by {
                assert(key_list(keys@[i]@) == components(out@[i]@));
            }
            if pos < keys.len() {
                assert(key_list(keys@[pos as int]@) == components(out@[pos as int]@));
            }
        }
        if found {
            assert(key_list(keys@[pos as int]@) == components(out@[pos as int]@));
            assert(units_list(out@)[pos as int] == out@[pos as int]@);
            assert(components(units_list(out@)[pos as int]) == components(paths@[n as int]@));
        } else {
            let ghost old_out = out@;
            let ghost old_keys = keys@;
            proof {
                assert forall|j: int| pos <= j < old_out.len() implies path_less(k, #[trigger] components(old_out[j]@)) by {
                    if j > pos {
                        assert(units_list(old_out)[pos as int] == old_out[pos as int]@);
                        assert(units_list(old_out)[j] == old_out[j]@);
                        assert(path_less(components(old_out[pos as int]@), components(old_out[j]@)));
                        lemma_path_less_trans(k, components(old_out[pos as int]@), components(old_out[j]@));
                    }
                }
            }
            proof {
                let all = units_list(paths@);
                assert forall|j: int| 0 <= j < old_out.len() implies components(#[trigger] old_out[j]@) != k by {
                    if j < pos {
                        assert(key_list(keys@[j]@) == components(old_out[j]@));
                        lemma_path_less_total(components(old_out[j]@), k);
                    } else {
                        lemma_path_less_total(k, components(old_out[j]@));
                    }
                }
                assert forall|m: int| 0 <= m < n implies components(#[trigger] all[m]) != components(paths@[n as int]@) by {
                    assert(all[m] == paths@[m]@);
                    assert(names_path(units_list(old_out), paths@[m]@));
                    let j0 = choose|j: int| 0 <= j < units_list(old_out).len() && #[trigger] components(units_list(old_out)[j]) == components(paths@[m]@);
                    assert(units_list(old_out)[j0] == old_out[j0]@);
                }
                assert(all[n as int] == paths@[n as int]@);
                assert(first_of_its_path(all, paths@[n as int]@));
            }
            out.insert(pos, copy_units(&paths[n]));
            keys.insert(pos, key);
            proof {
                assert(out@[pos as int]@ == paths@[n as int]@);
                assert forall|i: int, j: int| 0 <= i < j < units_list(out@).len() implies path_less(
                    components(#[trigger] units_list(out@)[i]),
                    components(#[trigger] units_list(out@)[j]),
                ) by {
                    let ui = units_list(out@)[i];
                    let uj = units_list(out@)[j];
                    if i < pos && j < pos {
                        assert(ui == old_out[i]@ && uj == old_out[j]@);
                        assert(units_list(old_out)[i] == old_out[i]@);
                        assert(units_list(old_out)[j] == old_out[j]@);
                    } else if i < pos && j == pos {
                        assert(ui == old_out[i]@);
                    } else if i < pos && j > pos {
                        assert(ui == old_out[i]@ && uj == old_out[j - 1]@);
                        assert(units_list(old_out)[i] == old_out[i]@);
                        assert(units_list(old_out)[j - 1] == old_out[j - 1]@);
                    } else if i == pos {
                        assert(uj == old_out[j - 1]@);
                    } else {
                        assert(ui == old_out[i - 1]@ && uj == old_out[j - 1]@);
                        assert(units_list(old_out)[i - 1] == old_out[i - 1]@);
                        assert(units_list(old_out)[j - 1] == old_out[j - 1]@);
                    }
                }
                assert forall|i: int| 0 <= i < keys@.len() implies key_list(#[trigger] keys@[i]@) == components(out@[i]@) by {
                    if i < pos {
                        assert(keys@[i] == old_keys[i] && out@[i] == old_out[i]);
                    } else if i > pos {
                        assert(keys@[i] == old_keys[i - 1] && out@[i] == old_out[i - 1]);
                    }
                }
                assert forall|i: int| 0 <= i < out@.len() implies first_of_its_path(units_list(paths@), #[trigger] out@[i]@) by {
                    if i < pos {
                        assert(out@[i] == old_out[i]);
                    } else if i > pos {
                        assert(out@[i] == old_out[i - 1]);
                    }
                }
                assert forall|i: int| 0 <= i < out@.len() implies units_list(paths@).contains(#[trigger] out@[i]@) by {
                    if i < pos {
                        assert(out@[i] == old_out[i]);
                    } else if i > pos {
                        assert(out@[i] == old_out[i - 1]);
                    } else {
                        assert(units_list(paths@)[n as int] == paths@[n as int]@);
                    }
                }
                assert forall|i: int| 0 <= i < n + 1 implies names_path(units_list(out@), #[trigger] paths@[i]@) by {
                    if i == n {
                        assert(units_list(out@)[pos as int] == out@[pos as int]@);
                        assert(components(units_list(out@)[pos as int]) == components(paths@[i]@));
                    } else {
                        assert(names_path(units_list(old_out), paths@[i]@));
                        let j0 = choose|j: int| 0 <= j < units_list(old_out).len() && #[trigger] components(units_list(old_out)[j]) == components(paths@[i]@);
                        if j0 < pos {
                            assert(out@[j0] == old_out[j0]);
                            assert(units_list(out@)[j0] == units_list(old_out)[j0]);
                        } else {
                            assert(out@[j0 + 1] == old_out[j0]);
                            assert(units_list(out@)[j0 + 1] == units_list(old_out)[j0]);
                        }
                    }
                }
            }
        }
        n = n + 1;
    }
    out
}

/// In the worked order, a path always comes before anything beneath it.
pub proof fn lemma_parent_before_child(v: Seq<Seq<u16>>, i: int, j: int)
    requires
        strictly_sorted(v),
        0 <= i < v.len(),
        0 <= j < v.len(),
        components(v[i]).len() < components(v[j]).len(),
        components(v[i]) == components(v[j]).subrange(0, components(v[i]).len() as int),
    ensures
        i < j,
{
    lemma_ancestor_is_less(components(v[i]), components(v[j]));
    lemma_path_less_total(components(v[i]), components(v[j]));
    if j < i {
        assert(path_less(components(v[j]), components(v[i])));
    }
    if i == j {
        lemma_path_less_total(components(v[i]), components(v[i]));
    }
}

/// Two worked orders of the same targets, whatever order the targets came
/// in, name the same paths in the same order: a strictly sorted list is
/// fixed by the paths it names.
pub proof fn lemma_order_ignores_input_order(a: Seq<Seq<u16>>, b: Seq<Seq<u16>>)
    requires
        strictly_sorted(a),
        strictly_sorted(b),
        forall|i: int| 0 <= i < a.len() ==> names_path(b, #[trigger] a[i]),
        forall|j: int| 0 <= j < b.len() ==> names_path(a, #[trigger] b[j]),
    ensures
        a.len() == b.len(),
        forall|i: int| 0 <= i < a.len() ==> components(#[trigger] a[i]) == components(b[i]),
    decreases a.len() + b.len(),
{
    if a.len() > 0 && b.len() == 0 {
        assert(names_path(b, a[0]));
    } else if a.len() == 0 && b.len() > 0 {
        assert(names_path(a, b[0]));
    } else if a.len() > 0 {
        assert(names_path(b, a[0]));
        assert(names_path(a, b[0]));
        let j = choose|j: int| 0 <= j < b.len() && #[trigger] components(b[j]) == components(a[0]);
        let i = choose|i: int| 0 <= i < a.len() && #[trigger] components(a[i]) == components(b[0]);
        lemma_path_less_total(components(a[0]), components(b[0]));
        if j > 0 {
            assert(path_less(components(b[0]), components(b[j])));
            if i > 0 {
                assert(path_less(components(a[0]), components(a[i])));
            }
        }
        assert(components(a[0]) == components(b[0]));
        let a1 = a.drop_first();
        let b1 = b.drop_first();
        assert forall|k: int| 0 <= k < a1.len() implies names_path(b1, #[trigger] a1[k]) by {
            assert(a1[k] == a[k + 1]);
            assert(names_path(b, a[k + 1]));
            let m = choose|m: int| 0 <= m < b.len() && #[trigger] components(b[m]) == components(a[k + 1]);
            assert(path_less(components(a[0]), components(a[k + 1])));
            lemma_path_less_total(components(a[0]), components(a[0]));
            assert(m != 0);
            assert(b1[m - 1] == b[m]);
        }
        assert forall|k: int| 0 <= k < b1.len() implies names_path(a1, #[trigger] b1[k]) by {
            assert(b1[k] == b[k + 1]);
            assert(names_path(a, b[k + 1]));
            let m = choose|m: int| 0 <= m < a.len() && #[trigger] components(a[m]) == components(b[k + 1]);
            assert(path_less(components(b[0]), components(b[k + 1])));
            lemma_path_less_total(components(b[0]), components(b[0]));
            assert(m != 0);
            assert(a1[m - 1] == a[m]);
        }
        assert(strictly_sorted(a1)) by {
            assert forall|x: int, y: int| 0 <= x < y < a1.len() implies path_less(
                components(#[trigger] a1[x]),
                components(#[trigger] a1[y]),
            ) by {
                assert(a1[x] == a[x + 1] && a1[y] == a[y + 1]);
            }
        }
        assert(strictly_sorted(b1)) by {
            assert forall|x: int, y: int| 0 <= x < y < b1.len() implies path_less(
                components(#[trigger] b1[x]),
                components(#[trigger] b1[y]),
            ) by {
                assert(b1[x] == b[x + 1] && b1[y] == b[y + 1]);
            }
        }
        lemma_order_ignores_input_order(a1, b1);
        assert forall|i: int| 0 <= i < a.len() implies components(#[trigger] a[i]) == components(b[i]) by {
            if i > 0 {
                assert(a1[i - 1] == a[i] && b1[i - 1] == b[i]);
            }
        }
    }
}

/// How many units the prefix of `p` takes.
pub open spec fn plen_of(p: Seq<u16>) -> int {
    match prefix_of(p) {
        Some(k) => prefix_len(k),
        None => 0,
    }
}

pub open spec fn verbatim_of(p: Seq<u16>) -> bool {
    match prefix_of(p) {
        Some(k) => prefix_verbatim(k),
        None => false,
    }
}

/// A separator follows the prefix.
pub open spec fn written_root(p: Seq<u16>) -> bool {
    plen_of(p) < p.len() && (p[plen_of(p)] == 0x5C || p[plen_of(p)] == 0x2F)
}

/// A path with neither prefix nor root that begins with `.` as a component.
pub open spec fn lead_dot(p: Seq<u16>) -> bool {
    &&& prefix_of(p) is None
    &&& !written_root(p)
    &&& p.len() >= 1 && p[0] == 0x2E && (p.len() == 1 || p[1] == 0x5C || p[1] == 0x2F)
}

/// Where the pieces of a path begin: after its prefix and root, or after a
/// leading `.`.
pub open spec fn body_start(p: Seq<u16>) -> int {
    if written_root(p) {
        plen_of(p) + 1
    } else if lead_dot(p) {
        1
    } else {
        plen_of(p)
    }
}

/// The last separator in `p[lo..end]`, or `lo - 1`.
pub open spec fn last_sep_before(p: Seq<u16>, lo: int, end: int, verbatim: bool) -> int
    decreases end - lo,
{
    if end <= lo {
        lo - 1
    } else if sep(p[end - 1], verbatim) {
        end - 1
    } else {
        last_sep_before(p, lo, end - 1, verbatim)
    }
}

pub proof fn lemma_last_sep_bounds(p: Seq<u16>, lo: int, end: int, verbatim: bool)
    ensures
        last_sep_before(p, lo, end, verbatim) >= lo - 1,
        end > lo ==> last_sep_before(p, lo, end, verbatim) < end,
    decreases end - lo,
{
    if end > lo && !sep(p[end - 1], verbatim) {
        lemma_last_sep_bounds(p, lo, end - 1, verbatim);
    }
}

/// Where the piece that ends at `end` begins.
pub open spec fn piece_begin(p: Seq<u16>, lo: int, end: int, verbatim: bool) -> int {
    let j = last_sep_before(p, lo, end, verbatim);
    if j >= lo {
        j + 1
    } else {
        lo
    }
}

/// Where the path is cut to drop the piece that ends at `end`, with the
/// separator before it.
pub open spec fn piece_cut(p: Seq<u16>, lo: int, end: int, verbatim: bool) -> int {
    let j = last_sep_before(p, lo, end, verbatim);
    if j >= lo {
        j
    } else {
        lo
    }
}

/// Whether `p[s..e]` stands as a component.
pub open spec fn counts(p: Seq<u16>, s: int, e: int, verbatim: bool) -> bool {
    piece_key(p, s, e, verbatim).len() > 0
}

/// Whether `p[s..e]` is a name: neither `.` nor `..`.
pub open spec fn is_plain(p: Seq<u16>, s: int, e: int) -> bool {
    !(e == s + 1 && p[s] == 0x2E) && !(e == s + 2 && p[s] == 0x2E && p[s + 1] == 0x2E)
}

/// The last component of the body `p[lo..end]`, read from the back: where it
/// begins and ends, and where the path is cut to drop it.
pub open spec fn last_piece(p: Seq<u16>, lo: int, end: int, verbatim: bool) -> Option<(int, int, int)>
    decreases end - lo,
{
    if end <= lo {
        None
    } else {
        proof {
            lemma_last_sep_bounds(p, lo, end, verbatim);
        }
        let s = piece_begin(p, lo, end, verbatim);
        let c = piece_cut(p, lo, end, verbatim);
        if counts(p, s, end, verbatim) {
            Some((s, end, c))
        } else {
            last_piece(p, lo, c, verbatim)
        }
    }
}

/// `end` with the pieces that stand for no component dropped from the back.
pub open spec fn trimmed(p: Seq<u16>, lo: int, end: int, verbatim: bool) -> int
    decreases end - lo,
{
    if end <= lo {
        end
    } else {
        proof {
            lemma_last_sep_bounds(p, lo, end, verbatim);
        }
        if counts(p, piece_begin(p, lo, end, verbatim), end, verbatim) {
            end
        } else {
            trimmed(p, lo, piece_cut(p, lo, end, verbatim), verbatim)
        }
    }
}

/// The parent of a path, as `std::path::Path::parent` gives it: the path up
/// to its last component with the separators and `.`s before that dropped;
/// nothing when the last component is a prefix or a root.
pub open spec fn path_parent(p: Seq<u16>) -> Option<Seq<u16>> {
    let b = body_start(p);
    let v = verbatim_of(p);
    match last_piece(p, b, p.len() as int, v) {
        Some((s, e, c)) => Some(p.subrange(0, trimmed(p, b, c, v))),
        None => if lead_dot(p) {
            Some(Seq::empty())
        } else {
            None
        },
    }
}

/// Whether the last component of a path is a name.
pub open spec fn has_file_name(p: Seq<u16>) -> bool {
    match last_piece(p, body_start(p), p.len() as int, verbatim_of(p)) {
        Some((s, e, c)) => is_plain(p, s, e),
        None => false,
    }
}

/// The layout of a path: the prefix length, where the body begins, whether
/// it is verbatim, and whether it begins with `.` as a component.
pub fn layout(p: &Vec<u16>) -> (r: (usize, usize, bool, bool, bool))
    ensures
        r.0 == plen_of(p@),
        r.1 == body_start(p@),
        r.2 == verbatim_of(p@),
        r.3 == lead_dot(p@),
        r.4 == (prefix_of(p@) matches Some(PrefixKind::Disk(_))),
        r.0 <= r.1 <= p.len(),
{
    proof {
        lemma_prefix_fits(p@);
    }
    let (plen, verbatim, has_prefix, disk) = match read_prefix(p) {
        Some((_, len, v, d)) => (len, v, true, d),
        None => (0, false, false, false),
    };
    let n = p.len();
    let root = plen < n && (p[plen] == 0x5C || p[plen] == 0x2F);
    let lead = !has_prefix && !root && n >= 1 && p[0] == 0x2E && (n == 1 || p[1] == 0x5C || p[1] == 0x2F);
    let body = if root {
        plen + 1
    } else if lead {
        1
    } else {
        plen
    };
    (plen, body, verbatim, lead, disk)
}

fn sep_before(p: &Vec<u16>, lo: usize, end: usize, verbatim: bool) -> (r: Option<usize>)
    requires
        lo <= end <= p.len(),
    ensures
        r matches Some(j) ==> j == last_sep_before(p@, lo as int, end as int, verbatim) && lo <= j < end,
        r is None ==> last_sep_before(p@, lo as int, end as int, verbatim) == lo - 1,
{
    let mut e = end;
    while e > lo
        invariant
            lo <= e <= end <= p.len(),
            last_sep_before(p@, lo as int, end as int, verbatim) == last_sep_before(p@, lo as int, e as int, verbatim),
        decreases e - lo,
    {
        let u = p[e - 1];
        if u == 0x5C || (!verbatim && u == 0x2F) {
            return Some(e - 1);
        }
        e = e - 1;
    }
    None
}

fn counts_exec(p: &Vec<u16>, s: usize, e: usize, verbatim: bool) -> (r: bool)
    requires
        s <= e <= p.len(),
    ensures
        r == counts(p@, s as int, e as int, verbatim),
{
    e > s && !(e - s == 1 && p[s] == 0x2E && !verbatim)
}

/// The last component of `p[lo..end]`, as [`last_piece`] has it.
pub fn last_piece_of(p: &Vec<u16>, lo: usize, end: usize, verbatim: bool) -> (r: Option<(usize, usize, usize)>)
    requires
        lo <= end <= p.len(),
    ensures
        last_piece(p@, lo as int, end as int, verbatim) is None ==> r is None,
        last_piece(p@, lo as int, end as int, verbatim) matches Some(t) ==> r matches Some(x) && x.0 == t.0
            && x.1 == t.1 && x.2 == t.2,
        r matches Some(x) ==> lo <= x.2 <= x.0 <= x.1 <= end,
{
    let mut e = end;
    loop
        invariant
            lo <= e <= end <= p.len(),
            last_piece(p@, lo as int, end as int, verbatim) == last_piece(p@, lo as int, e as int, verbatim),
        decreases e,
    {
        if e <= lo {
            return None;
        }
        let (s, c) = match sep_before(p, lo, e, verbatim) {
            Some(j) => (j + 1, j),
            None => (lo, lo),
        };
        if counts_exec(p, s, e, verbatim) {
            return Some((s, e, c));
        }
        e = c;
    }
}

/// `end` with the pieces that stand for nothing dropped, as [`trimmed`] has it.
pub fn trimmed_end(p: &Vec<u16>, lo: usize, end: usize, verbatim: bool) -> (r: usize)
    requires
        lo <= end <= p.len(),
    ensures
        r == trimmed(p@, lo as int, end as int, verbatim),
        r <= end,
{
    let mut e = end;
    loop
        invariant
            lo <= e <= end <= p.len(),
            trimmed(p@, lo as int, end as int, verbatim) == trimmed(p@, lo as int, e as int, verbatim),
        decreases e,
    {
        if e <= lo {
            return e;
        }
        let (s, c) = match sep_before(p, lo, e, verbatim) {
            Some(j) => (j + 1, j),
            None => (lo, lo),
        };
        if counts_exec(p, s, e, verbatim) {
            return e;
        }
        e = c;
    }
}

/// `p[0..end]`.
pub fn head_of(p: &Vec<u16>, end: usize) -> (r: Vec<u16>)
    requires
        end <= p.len(),
    ensures
        r@ == p@.subrange(0, end as int),
{
    let mut r: Vec<u16> = Vec::new();
    let mut i: usize = 0;
    while i < end
        invariant
            i <= end <= p.len(),
            r@ == p@.subrange(0, i as int),
        decreases end - i,
    {
        r.push(p[i]);
        i = i + 1;
        assert(r@ =~= p@.subrange(0, i as int));
    }
    r
}

/// Every code point read from UTF-16 is at most U+10FFFF.
proof fn lemma_code_points_bounded(w: Seq<u16>, i: int)
    ensures
        forall|k: int| 0 <= k < cps_from(w, i).len() ==> #[trigger] cps_from(w, i)[k] <= 0x10FFFF,
    decreases w.len() - i,
{
    if 0 <= i < w.len() {
        if i + 1 < w.len() && is_high(w[i]) && is_low(w[i + 1]) {
            lemma_code_points_bounded(w, i + 2);
            let rest = cps_from(w, i + 2);
            assert forall|k: int| 0 <= k < cps_from(w, i).len() implies #[trigger] cps_from(w, i)[k] <= 0x10FFFF by {
                if k > 0 {
                    assert(cps_from(w, i)[k] == rest[k - 1]);
                }
            }
        } else {
            lemma_code_points_bounded(w, i + 1);
            let rest = cps_from(w, i + 1);
            assert forall|k: int| 0 <= k < cps_from(w, i).len() implies #[trigger] cps_from(w, i)[k] <= 0x10FFFF by {
                if k > 0 {
                    assert(cps_from(w, i)[k] == rest[k - 1]);
                }
            }
        }
    }
}

/// Reading code points loses nothing: different units give different code
/// points (a pair and a lone surrogate never read alike).
proof fn lemma_cps_injective(w: Seq<u16>, i: int, v: Seq<u16>, j: int)
    requires
        0 <= i <= w.len(),
        0 <= j <= v.len(),
        cps_from(w, i) == cps_from(v, j),
    ensures
        w.subrange(i, w.len() as int) == v.subrange(j, v.len() as int),
    decreases w.len() - i,
{
    let a = cps_from(w, i);
    if i == w.len() {
        if j < v.len() {
            assert(cps_from(v, j).len() > 0);
        }
        assert(w.subrange(i, w.len() as int) =~= v.subrange(j, v.len() as int));
    } else {
        if j == v.len() {
            assert(cps_from(w, i).len() > 0);
        }
        let wp = i + 1 < w.len() && is_high(w[i]) && is_low(w[i + 1]);
        let vp = j + 1 < v.len() && is_high(v[j]) && is_low(v[j + 1]);
        let wn = if wp { i + 2 } else { i + 1 };
        let vn = if vp { j + 2 } else { j + 1 };
        assert(a[0] == (if wp { pair_value(w[i], w[i + 1]) } else { w[i] as u32 }));
        assert(a[0] == (if vp { pair_value(v[j], v[j + 1]) } else { v[j] as u32 }));
        if wp {
            assert(pair_value(w[i], w[i + 1]) >= 0x10000);
        }
        if vp {
            assert(pair_value(v[j], v[j + 1]) >= 0x10000);
        }
        assert(wp == vp);
        if wp {
            let hw = w[i] - 0xD800;
            let lw = w[i + 1] - 0xDC00;
            let hv = v[j] - 0xD800;
            let lv = v[j + 1] - 0xDC00;
            assert(hw * 0x400 + lw == hv * 0x400 + lv);
            assert(hw == hv && lw == lv) by (nonlinear_arith)
                requires
                    hw * 0x400 + lw == hv * 0x400 + lv,
                    0 <= lw < 0x400,
                    0 <= lv < 0x400,
            ;
        }
        assert(cps_from(w, wn) =~= a.drop_first());
        assert(cps_from(v, vn) =~= a.drop_first());
        lemma_cps_injective(w, wn, v, vn);
        let tw = w.subrange(wn, w.len() as int);
        let tv = v.subrange(vn, v.len() as int);
        assert(tw.len() == tv.len());
        assert(wn - i == vn - j);
        if wp {
            assert(w[i] == v[j] && w[i + 1] == v[j + 1]);
        } else {
            assert(w[i] == v[j]);
        }
        assert forall|k: int| 0 <= k < w.len() - i implies w.subrange(i, w.len() as int)[k] == v.subrange(
            j,
            v.len() as int,
        )[k] by {
            if k >= wn - i {
                assert(tw[k - (wn - i)] == w[i + k]);
                assert(tv[k - (wn - i)] == v[j + k]);
            } else if k == 1 {
                assert(w[i + 1] == v[j + 1]);
            }
        }
        assert(w.subrange(i, w.len() as int) =~= v.subrange(j, v.len() as int));
    }
}

proof fn lemma_code_points_injective(x: Seq<u16>, y: Seq<u16>)
    requires
        code_points(x) == code_points(y),
    ensures
        x == y,
{
    lemma_cps_injective(x, 0, y, 0);
    assert(x.subrange(0, x.len() as int) =~= x);
    assert(y.subrange(0, y.len() as int) =~= y);
}

/// A shifted field ended by 0, then another field: both fields read back.
proof fn lemma_two_fields(x1: Seq<u16>, y1: Seq<u16>, x2: Seq<u16>, y2: Seq<u16>)
    requires
        shifted(code_points(x1)) + seq![0u32] + code_points(y1) == shifted(code_points(x2)) + seq![0u32]
            + code_points(y2),
    ensures
        x1 == x2,
        y1 == y2,
{
    let a = code_points(x1);
    let b = code_points(x2);
    lemma_code_points_bounded(x1, 0);
    lemma_code_points_bounded(x2, 0);
    let l = shifted(a) + seq![0u32] + code_points(y1);
    let r = shifted(b) + seq![0u32] + code_points(y2);
    if a.len() < b.len() {
        assert(l[a.len() as int] == 0);
        assert(r[a.len() as int] == shifted(b)[a.len() as int]);
        assert(b[a.len() as int] <= 0x10FFFF);
    } else if b.len() < a.len() {
        assert(r[b.len() as int] == 0);
        assert(l[b.len() as int] == shifted(a)[b.len() as int]);
        assert(a[b.len() as int] <= 0x10FFFF);
    }
    assert(a.len() == b.len());
    assert forall|k: int| 0 <= k < a.len() implies a[k] == b[k] by {
        assert(l[k] == r[k]);
        assert(a[k] <= 0x10FFFF && b[k] <= 0x10FFFF);
    }
    assert(a =~= b);
    assert(code_points(y1) =~= l.subrange(a.len() as int + 1, l.len() as int));
    assert(code_points(y2) =~= r.subrange(b.len() as int + 1, r.len() as int));
    lemma_code_points_injective(x1, x2);
    lemma_code_points_injective(y1, y2);
}

/// Different prefixes have different keys.
proof fn lemma_prefix_key_injective(a: PrefixKind, b: PrefixKind)
    requires
        prefix_key(a) == prefix_key(b),
    ensures
        a == b,
{
    let ka = prefix_key(a);
    let kb = prefix_key(b);
    assert(ka[1] == kb[1]);
    match (a, b) {
        (PrefixKind::Verbatim(x), PrefixKind::Verbatim(y)) => {
            assert(code_points(x) =~= ka.subrange(2, ka.len() as int));
            assert(code_points(y) =~= kb.subrange(2, kb.len() as int));
            lemma_code_points_injective(x, y);
        },
        (PrefixKind::DeviceNs(x), PrefixKind::DeviceNs(y)) => {
            assert(code_points(x) =~= ka.subrange(2, ka.len() as int));
            assert(code_points(y) =~= kb.subrange(2, kb.len() as int));
            lemma_code_points_injective(x, y);
        },
        (PrefixKind::VerbatimUnc(x1, y1), PrefixKind::VerbatimUnc(x2, y2)) => {
            assert(shifted(code_points(x1)) + seq![0u32] + code_points(y1) =~= ka.subrange(2, ka.len() as int));
            assert(shifted(code_points(x2)) + seq![0u32] + code_points(y2) =~= kb.subrange(2, kb.len() as int));
            lemma_two_fields(x1, y1, x2, y2);
        },
        (PrefixKind::Unc(x1, y1), PrefixKind::Unc(x2, y2)) => {
            assert(shifted(code_points(x1)) + seq![0u32] + code_points(y1) =~= ka.subrange(2, ka.len() as int));
            assert(shifted(code_points(x2)) + seq![0u32] + code_points(y2) =~= kb.subrange(2, kb.len() as int));
            lemma_two_fields(x1, y1, x2, y2);
        },
        (PrefixKind::VerbatimDisk(d), PrefixKind::VerbatimDisk(e)) => {
            assert(ka[2] == kb[2]);
        },
        (PrefixKind::Disk(d), PrefixKind::Disk(e)) => {
            assert(ka[2] == kb[2]);
        },
        _ => {},
    }
}

proof fn lemma_piece_ranked(p: Seq<u16>, start: int, end: int, verbatim: bool)
    ensures
        forall|k: int|
            0 <= k < piece_key(p, start, end, verbatim).len() ==> #[trigger] piece_key(p, start, end, verbatim)[k].len()
                > 0 && piece_key(p, start, end, verbatim)[k][0] >= 2,
{
    let x = p.subrange(start, end);
    assert(name_key(x)[0] == 4);
    assert(cur_key()[0] == 2);
    assert(parent_key()[0] == 3);
}

/// Every component a body gives has a key that begins with a rank of at
/// least 2.
proof fn lemma_pieces_ranked(p: Seq<u16>, start: int, i: int, verbatim: bool)
    ensures
        forall|k: int|
            0 <= k < pieces_from(p, start, i, verbatim).len() ==> #[trigger] pieces_from(p, start, i, verbatim)[k].len()
                > 0 && pieces_from(p, start, i, verbatim)[k][0] >= 2,
    decreases p.len() - i,
{
    if i >= p.len() {
        lemma_piece_ranked(p, start, p.len() as int, verbatim);
        let head = piece_key(p, start, p.len() as int, verbatim);
        assert(pieces_from(p, start, i, verbatim) == head);
        assert forall|k: int| 0 <= k < pieces_from(p, start, i, verbatim).len() implies #[trigger] pieces_from(
            p,
            start,
            i,
            verbatim,
        )[k].len() > 0 && pieces_from(p, start, i, verbatim)[k][0] >= 2 by {
            assert(pieces_from(p, start, i, verbatim)[k] == head[k]);
        }
    } else {
        if sep(p[i], verbatim) {
            lemma_piece_ranked(p, start, i, verbatim);
            lemma_pieces_ranked(p, i + 1, i + 1, verbatim);
            let head = piece_key(p, start, i, verbatim);
            let rest = pieces_from(p, i + 1, i + 1, verbatim);
            assert forall|k: int| 0 <= k < pieces_from(p, start, i, verbatim).len() implies #[trigger] pieces_from(
                p,
                start,
                i,
                verbatim,
            )[k].len() > 0 && pieces_from(p, start, i, verbatim)[k][0] >= 2 by {
                assert(pieces_from(p, start, i, verbatim) == head + rest);
                if k >= head.len() {
                    assert(pieces_from(p, start, i, verbatim)[k] == rest[k - head.len()]);
                } else {
                    assert(pieces_from(p, start, i, verbatim)[k] == head[k]);
                }
            }
        } else {
            lemma_pieces_ranked(p, start, i + 1, verbatim);
            assert(pieces_from(p, start, i, verbatim) == pieces_from(p, start, i + 1, verbatim));
        }
    }
}

/// The first component of a path is its prefix when it has one, and no
/// component of a path without one has a prefix's rank.
proof fn lemma_component_shapes(p: Seq<u16>)
    ensures
        prefix_of(p) matches Some(k) ==> components(p).len() > 0 && components(p)[0] == prefix_key(k),
        prefix_of(p) is None ==> forall|i: int|
            0 <= i < components(p).len() ==> (#[trigger] components(p)[i]).len() > 0 && components(p)[i][0] >= 1,
{
    let plen = plen_of(p);
    let v = verbatim_of(p);
    lemma_pieces_ranked(p, plen + 1, plen + 1, v);
    lemma_pieces_ranked(p, plen, plen, v);
    lemma_pieces_ranked(p, 1, 1, false);
    lemma_pieces_ranked(p, 0, 0, false);
    if prefix_of(p) is None {
        let c = components(p);
        assert forall|i: int| 0 <= i < c.len() implies (#[trigger] c[i]).len() > 0 && c[i][0] >= 1 by {
            if p.len() >= 1 && p[0] == 0x2E && (p.len() == 1 || p[1] == 0x5C || p[1] == 0x2F) && !written_root(p) {
                if i > 0 {
                    assert(c[i] == pieces_from(p, 1, 1, false)[i - 1]);
                }
            } else if written_root(p) {
                if i > 0 {
                    assert(c[i] == pieces_from(p, 1, 1, false)[i - 1]);
                }
            } else {
                assert(c[i] == pieces_from(p, 0, 0, false)[i]);
            }
        }
    }
}

/// Paths with the same components have the same prefix: in particular two
/// UNC paths on different servers, or on different shares, are never taken
/// for one path, and neither are two drives.
pub proof fn lemma_same_components_same_prefix(p: Seq<u16>, q: Seq<u16>)
    requires
        components(p) == components(q),
    ensures
        prefix_of(p) == prefix_of(q),
{
    lemma_component_shapes(p);
    lemma_component_shapes(q);
    match (prefix_of(p), prefix_of(q)) {
        (Some(a), Some(b)) => {
            lemma_prefix_key_injective(a, b);
        },
        (Some(a), None) => {
            assert(components(q)[0][0] >= 1);
            assert(prefix_key(a)[0] == 0);
        },
        (None, Some(b)) => {
            assert(components(p)[0][0] >= 1);
            assert(prefix_key(b)[0] == 0);
        },
        (None, None) => {},
    }
}

/// The worked order keeps a path for each of two targets on different UNC
/// servers or shares: neither is dropped as a repeat of the other.
pub proof fn lemma_unc_paths_kept_apart(r: Seq<Seq<u16>>, p: Seq<u16>, q: Seq<u16>)
    requires
        names_path(r, p),
        names_path(r, q),
        prefix_of(p) matches Some(PrefixKind::Unc(x1, y1)) && prefix_of(q) matches Some(PrefixKind::Unc(x2, y2)) && (x1 != x2 || y1 != y2),
    ensures
        exists|i: int, j: int|
            0 <= i < r.len() && 0 <= j < r.len() && i != j && components(#[trigger] r[i]) == components(p)
                && components(#[trigger] r[j]) == components(q),
{
    let i = choose|i: int| 0 <= i < r.len() && #[trigger] components(r[i]) == components(p);
    let j = choose|j: int| 0 <= j < r.len() && #[trigger] components(r[j]) == components(q);
    if components(p) == components(q) {
        lemma_same_components_same_prefix(p, q);
    }
    assert(i != j);
}

} // verus!
