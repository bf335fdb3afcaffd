//! The path-list file: a selection too large for a command line travels in
//! it. The file is UTF-16LE with no BOM, one NUL between entries and none at
//! the end; an empty file lists nothing.

use vstd::prelude::*;

use crate::units::units_list;

verus! {

/// The entries joined with one NUL unit between them.
pub open spec fn joined(paths: Seq<Seq<u16>>) -> Seq<u16>
    decreases paths.len(),
{
    if paths.len() == 0 {
        Seq::empty()
    } else if paths.len() == 1 {
        paths[0]
    } else {
        paths[0] + seq![0u16] + joined(paths.drop_first())
    }
}

/// Units as little-endian bytes.
pub open spec fn le_bytes(units: Seq<u16>) -> Seq<u8> {
    Seq::new(
        units.len() * 2,
        |i: int|
            if i % 2 == 0 {
                (units[i / 2] % 256) as u8
            } else {
                (units[i / 2] / 256) as u8
            },
    )
}

/// Little-endian bytes as units (an even number of bytes).
pub open spec fn le_units(bytes: Seq<u8>) -> Seq<u16> {
    Seq::new(bytes.len() / 2, |i: int| (bytes[2 * i] + 256 * bytes[2 * i + 1]) as u16)
}

/// No entry holds a NUL, which is what separates them.
pub open spec fn nul_free(paths: Seq<Seq<u16>>) -> bool {
    forall|i: int, j: int| 0 <= i < paths.len() && 0 <= j < paths[i].len() ==> #[trigger] paths[i][j] != 0
}

/// The bytes of the file that lists `paths`.
pub fn encode_paths_list(paths: &Vec<Vec<u16>>) -> (r: Vec<u8>)
    ensures
        r@ == le_bytes(joined(units_list(paths@))),
{
    let ghost all = units_list(paths@);
    let mut units: Vec<u16> = Vec::new();
    let mut i: usize = 0;
    while i < paths.len()
        invariant
            i <= paths.len(),
            all == units_list(paths@),
            units@ == joined(all.subrange(0, i as int)),
        decreases paths.len() - i,
    {
        let ghost before = units@;
        if i > 0 {
            units.push(0);
        }
        let p = &paths[i];
        let mut k: usize = 0;
        let ghost mid = units@;
        while k < p.len()
            invariant
                k <= p.len(),
                units@ == mid + p@.subrange(0, k as int),
            decreases p.len() - k,
        {
            units.push(p[k]);
            k = k + 1;
            assert(units@ =~= mid + p@.subrange(0, k as int));
        }
        proof {
            assert(p@.subrange(0, p@.len() as int) =~= p@);
            assert(all[i as int] == p@);
            lemma_joined_snoc(all.subrange(0, i as int), p@);
            assert(all.subrange(0, i as int).push(p@) =~= all.subrange(0, i + 1));
            if i > 0 {
                assert(units@ =~= before + seq![0u16] + p@);
            } else {
                assert(units@ =~= p@);
            }
        }
        i = i + 1;
    }
    assert(all.subrange(0, paths.len() as int) =~= all);
    let mut bytes: Vec<u8> = Vec::new();
    let mut j: usize = 0;
    while j < units.len()
        invariant
            j <= units.len(),
            bytes@ == le_bytes(units@.subrange(0, j as int)),
        decreases units.len() - j,
    {
        let u = units[j];
        bytes.push((u % 256) as u8);
        bytes.push((u / 256) as u8);
        j = j + 1;
        assert(bytes@ =~= le_bytes(units@.subrange(0, j as int)));
    }
    assert(units@.subrange(0, units.len() as int) =~= units@);
    bytes
}

/// The entries a path-list file holds, or `None` when it has an odd number
/// of bytes and so is no UTF-16 at all.
pub fn decode_paths_list(bytes: &Vec<u8>) -> (r: Option<Vec<Vec<u16>>>)
    ensures
        r is None <==> bytes.len() % 2 == 1,
        r matches Some(v) ==> {
            &&& bytes.len() == 0 <==> v.len() == 0
            &&& joined(units_list(v@)) == le_units(bytes@)
            &&& nul_free(units_list(v@))
        },
{
    if bytes.len() % 2 == 1 {
        return None;
    }
    let ghost units = le_units(bytes@);
    let mut out: Vec<Vec<u16>> = Vec::new();
    if bytes.len() == 0 {
        assert(units_list(out@) =~= Seq::<Seq<u16>>::empty());
        return Some(out);
    }
    let n = bytes.len() / 2;
    let mut cur: Vec<u16> = Vec::new();
    let mut i: usize = 0;
    while i < n
        invariant
            n == bytes.len() / 2,
            bytes.len() % 2 == 0,
            i <= n,
            units == le_units(bytes@),
            out@.len() == 0 ==> joined(units_list(out@)) + cur@ == units.subrange(0, i as int),
            out@.len() > 0 ==> joined(units_list(out@)) + seq![0u16] + cur@ == units.subrange(0, i as int),
            nul_free(units_list(out@)),
            forall|j: int| 0 <= j < cur@.len() ==> cur@[j] != 0,
        decreases n - i,
    {
        let u = (bytes[2 * i] as u16) + 256 * (bytes[2 * i + 1] as u16);
        assert(u == units[i as int]);
        let ghost prev_out = units_list(out@);
        let ghost prev_cur = cur@;
        if u == 0 {
            let piece = cur;
            cur = Vec::new();
            out.push(piece);
            proof {
                lemma_joined_snoc(prev_out, prev_cur);
                assert(units_list(out@) =~= prev_out.push(prev_cur));
                assert(units.subrange(0, i + 1) =~= units.subrange(0, i as int).push(0u16));
                if prev_out.len() == 0 {
                    assert(joined(units_list(out@)) + seq![0u16] + cur@ =~= units.subrange(0, i + 1));
                } else {
                    assert(joined(units_list(out@)) + seq![0u16] + cur@ =~= units.subrange(0, i + 1));
                }
                assert forall|a: int, b: int|
                    0 <= a < units_list(out@).len() && 0 <= b < units_list(out@)[a].len()
                    implies #[trigger] units_list(out@)[a][b] != 0 by {
                    if a < prev_out.len() {
                        assert(units_list(out@)[a] == prev_out[a]);
                    }
                }
            }
        } else {
            cur.push(u);
            proof {
                assert(units_list(out@) =~= prev_out);
                assert(units.subrange(0, i + 1) =~= units.subrange(0, i as int).push(u));
                if prev_out.len() == 0 {
                    assert(joined(units_list(out@)) + cur@ =~= units.subrange(0, i + 1));
                } else {
                    assert(joined(units_list(out@)) + seq![0u16] + cur@ =~= units.subrange(0, i + 1));
                }
            }
        }
        i = i + 1;
    }
    let ghost prev_out = units_list(out@);
    let ghost prev_cur = cur@;
    out.push(cur);
    proof {
        lemma_joined_snoc(prev_out, prev_cur);
        assert(units_list(out@) =~= prev_out.push(prev_cur));
        assert(units.subrange(0, n as int) =~= units);
        assert forall|a: int, b: int|
            0 <= a < units_list(out@).len() && 0 <= b < units_list(out@)[a].len()
            implies #[trigger] units_list(out@)[a][b] != 0 by {
            if a < prev_out.len() {
                assert(units_list(out@)[a] == prev_out[a]);
            }
        }
    }
    Some(out)
}

/// Appending an entry appends a NUL and the entry.
pub proof fn lemma_joined_snoc(paths: Seq<Seq<u16>>, p: Seq<u16>)
    ensures
        joined(paths.push(p)) == if paths.len() == 0 {
            p
        } else {
            joined(paths) + seq![0u16] + p
        },
    decreases paths.len(),
{
    if paths.len() == 1 {
        assert(paths.push(p).drop_first() =~= seq![p]);
        assert(joined(seq![p]) == p);
        assert(paths.push(p)[0] == paths[0]);
    } else if paths.len() > 1 {
        assert(paths.push(p).drop_first() =~= paths.drop_first().push(p));
        assert(paths.push(p)[0] == paths[0]);
        lemma_joined_snoc(paths.drop_first(), p);
        assert(paths[0] + seq![0u16] + (joined(paths.drop_first()) + seq![0u16] + p) =~= paths[0]
            + seq![0u16] + joined(paths.drop_first()) + seq![0u16] + p);
    }
}

/// Bytes and units convert both ways without loss.
pub proof fn lemma_le_round_trip(units: Seq<u16>)
    ensures
        le_units(le_bytes(units)) == units,
{
    let b = le_bytes(units);
    assert forall|i: int| 0 <= i < units.len() implies #[trigger] le_units(b)[i] == units[i] by {
        assert(b[2 * i] == (units[i] % 256) as u8);
        assert(b[2 * i + 1] == (units[i] / 256) as u8);
    }
    assert(le_units(b) =~= units);
}

/// Separating entries by NUL can be undone when no entry holds a NUL: the
/// first entry is everything before the first NUL.
proof fn lemma_joined_unique(a: Seq<Seq<u16>>, b: Seq<Seq<u16>>)
    requires
        a.len() > 0,
        b.len() > 0,
        nul_free(a),
        nul_free(b),
        joined(a) == joined(b),
    ensures
        a == b,
    decreases a.len() + b.len(),
{
    let ja = joined(a);
    if a.len() == 1 && b.len() == 1 {
    } else if a.len() == 1 {
        assert(joined(b)[b[0].len() as int] == 0);
        assert(ja == a[0]);
        assert(a[0][b[0].len() as int] != 0);
    } else if b.len() == 1 {
        assert(joined(a)[a[0].len() as int] == 0);
        assert(b[0][a[0].len() as int] != 0);
    } else {
        let la = a[0].len();
        let lb = b[0].len();
        if la < lb {
            assert(joined(a)[la as int] == 0);
            assert(joined(b)[la as int] == b[0][la as int]);
            assert(false);
        } else if lb < la {
            assert(joined(b)[lb as int] == 0);
            assert(joined(a)[lb as int] == a[0][lb as int]);
            assert(false);
        } else {
            assert(a[0] =~= joined(a).subrange(0, la as int));
            assert(b[0] =~= joined(b).subrange(0, lb as int));
            assert(joined(a.drop_first()) =~= joined(a).subrange((la + 1) as int, joined(a).len() as int));
            assert(joined(b.drop_first()) =~= joined(b).subrange((lb + 1) as int, joined(b).len() as int));
            assert(nul_free(a.drop_first())) by {
                assert forall|i: int, j: int|
                    0 <= i < a.drop_first().len() && 0 <= j < a.drop_first()[i].len()
                    implies #[trigger] a.drop_first()[i][j] != 0 by {
                    assert(a.drop_first()[i] == a[i + 1]);
                }
            }
            assert(nul_free(b.drop_first())) by {
                assert forall|i: int, j: int|
                    0 <= i < b.drop_first().len() && 0 <= j < b.drop_first()[i].len()
                    implies #[trigger] b.drop_first()[i][j] != 0 by {
                    assert(b.drop_first()[i] == b[i + 1]);
                }
            }
            lemma_joined_unique(a.drop_first(), b.drop_first());
            assert(a =~= seq![a[0]] + a.drop_first());
            assert(b =~= seq![b[0]] + b.drop_first());
        }
    }
}

/// A list written to a file reads back as the same list, provided no entry
/// holds a NUL and the list is not a single empty entry (which is written
/// exactly as an empty list is).
pub proof fn lemma_paths_list_round_trip(paths: Seq<Seq<u16>>, read: Seq<Seq<u16>>)
    requires
        nul_free(paths),
        paths != seq![Seq::<u16>::empty()],
        nul_free(read),
        le_bytes(joined(paths)).len() == 0 <==> read.len() == 0,
        joined(read) == le_units(le_bytes(joined(paths))),
    ensures
        read == paths,
{
    lemma_le_round_trip(joined(paths));
    if read.len() == 0 {
        if paths.len() == 1 {
            assert(paths[0].len() == 0);
            assert(paths =~= seq![Seq::<u16>::empty()]);
        }
        if paths.len() > 1 {
            lemma_joined_len(paths);
        }
        assert(paths.len() == 0);
        assert(read =~= paths);
    } else {
        assert(paths.len() > 0);
        lemma_joined_unique(read, paths);
    }
}

proof fn lemma_joined_len(paths: Seq<Seq<u16>>)
    requires
        paths.len() > 1,
    ensures
        joined(paths).len() > 0,
{
}

} // verus!
