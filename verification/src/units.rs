//! Wide strings as sequences of UTF-16 code units.
//!
//! Windows hands over paths and arguments as UTF-16, and a path need not be
//! valid Unicode: an unpaired surrogate is a legal NTFS name. Everything here
//! therefore works on `u16` units and never goes through `String`.

use vstd::prelude::*;

verus! {

/// The UTF-16 units of a character sequence whose characters are all ASCII
/// (one unit per character).
pub open spec fn ascii_units(s: Seq<char>) -> Seq<u16> {
    Seq::new(s.len(), |i: int| s[i] as u16)
}

/// Units of a string slice, one per character; exactly its UTF-16 encoding
/// when the slice is ASCII, which every word this crate spells is.
pub fn units_of(s: &str) -> (r: Vec<u16>)
    ensures
        r@ == ascii_units(s@),
{
    let n = s.unicode_len();
    let mut r: Vec<u16> = Vec::new();
    let mut i: usize = 0;
    while i < n
        invariant
            n == s@.len(),
            i <= n,
            r@ == ascii_units(s@.subrange(0, i as int)),
        decreases n - i,
    {
        let c = s.get_char(i);
        r.push(c as u16);
        i = i + 1;
        assert(r@ =~= ascii_units(s@.subrange(0, i as int)));
    }
    assert(s@.subrange(0, n as int) =~= s@);
    r
}

/// Whether two character sequences are equal, character by character.
pub fn str_eq(a: &str, b: &str) -> (r: bool)
    ensures
        r == (a@ == b@),
{
    let n = a.unicode_len();
    if n != b.unicode_len() {
        return false;
    }
    let mut i: usize = 0;
    while i < n
        invariant
            n == a@.len(),
            n == b@.len(),
            i <= n,
            a@.subrange(0, i as int) =~= b@.subrange(0, i as int),
        decreases n - i,
    {
        if a.get_char(i) != b.get_char(i) {
            assert(a@[i as int] != b@[i as int]);
            return false;
        }
        i = i + 1;
        assert(a@.subrange(0, i as int) =~= b@.subrange(0, i as int));
    }
    assert(a@ =~= a@.subrange(0, n as int));
    assert(b@ =~= b@.subrange(0, n as int));
    true
}

/// Whether a unit sequence spells exactly the given ASCII word.
pub fn units_are(w: &[u16], s: &str) -> (r: bool)
    ensures
        r == (w@ == ascii_units(s@)),
{
    let n = s.unicode_len();
    if w.len() != n {
        return false;
    }
    let mut i: usize = 0;
    while i < n
        invariant
            n == s@.len(),
            n == w@.len(),
            i <= n,
            forall|j: int| 0 <= j < i ==> w@[j] == (s@[j] as u16),
        decreases n - i,
    {
        if w[i] != s.get_char(i) as u16 {
            return false;
        }
        i = i + 1;
    }
    assert(w@ =~= ascii_units(s@));
    true
}


/// A leading (high) surrogate.
pub open spec fn is_high(u: u16) -> bool {
    0xD800 <= u <= 0xDBFF
}

/// A trailing (low) surrogate.
pub open spec fn is_low(u: u16) -> bool {
    0xDC00 <= u <= 0xDFFF
}

/// Well-formed UTF-16: every high surrogate is followed by a low one and
/// every low surrogate follows a high one.
pub open spec fn valid_utf16(w: Seq<u16>) -> bool {
    forall|i: int|
        0 <= i < w.len() ==> {
            &&& is_high(#[trigger] w[i]) ==> i + 1 < w.len() && is_low(w[i + 1])
            &&& is_low(w[i]) ==> i > 0 && is_high(w[i - 1])
        }
}

/// Whether the units are well-formed UTF-16, i.e. would convert to a `str`.
pub fn is_valid_utf16(w: &[u16]) -> (r: bool)
    ensures
        r == valid_utf16(w@),
{
    let n = w.len();
    let mut i: usize = 0;
    while i < n
        invariant
            n == w@.len(),
            i <= n,
            forall|j: int|
                0 <= j < i ==> {
                    &&& is_high(#[trigger] w@[j]) ==> j + 1 < n && is_low(w@[j + 1])
                    &&& is_low(w@[j]) ==> j > 0 && is_high(w@[j - 1])
                },
        decreases n - i,
    {
        let u = w[i];
        if 0xD800 <= u && u <= 0xDBFF {
            if i + 1 >= n {
                return false;
            }
            let v = w[i + 1];
            if !(0xDC00 <= v && v <= 0xDFFF) {
                return false;
            }
        }
        if 0xDC00 <= u && u <= 0xDFFF {
            if i == 0 {
                return false;
            }
            let v = w[i - 1];
            if !(0xD800 <= v && v <= 0xDBFF) {
                return false;
            }
        }
        i = i + 1;
    }
    true
}

/// The character a surrogate pair encodes.
pub open spec fn pair_char(hi: u16, lo: u16) -> char {
    (0x10000 + (hi - 0xD800) * 0x400 + (lo - 0xDC00)) as char
}

/// UTF-16 decoding in which every unpaired surrogate becomes U+FFFD.
pub open spec fn utf16_lossy(w: Seq<u16>) -> Seq<char>
    decreases w.len(),
{
    if w.len() == 0 {
        Seq::empty()
    } else if w.len() >= 2 && is_high(w[0]) && is_low(w[1]) {
        seq![pair_char(w[0], w[1])] + utf16_lossy(w.subrange(2, w.len() as int))
    } else if is_high(w[0]) || is_low(w[0]) {
        seq!['\u{FFFD}'] + utf16_lossy(w.subrange(1, w.len() as int))
    } else {
        seq![w[0] as char] + utf16_lossy(w.subrange(1, w.len() as int))
    }
}

/// `String::from_utf16_lossy`: decodes UTF-16, with U+FFFD in place of each
/// unpaired surrogate (std documents exactly this replacement).
#[verifier::external_body]
pub fn lossy_string(w: &[u16]) -> (r: String)
    ensures
        r@ == utf16_lossy(w@),
{
    String::from_utf16_lossy(w)
}

/// A copy of a unit sequence.
pub fn copy_units(w: &Vec<u16>) -> (r: Vec<u16>)
    ensures
        r@ == w@,
{
    let r = w.clone();
    assert(r@ =~= w@);
    r
}

/// The views of a list of unit sequences.
pub open spec fn units_list(v: Seq<Vec<u16>>) -> Seq<Seq<u16>> {
    Seq::new(v.len(), |i: int| v[i]@)
}

/// A copy of a list of unit sequences.
pub fn copy_list(v: &Vec<Vec<u16>>) -> (r: Vec<Vec<u16>>)
    ensures
        units_list(r@) == units_list(v@),
{
    let mut r: Vec<Vec<u16>> = Vec::new();
    let mut i: usize = 0;
    while i < v.len()
        invariant
            i <= v.len(),
            r@.len() == i,
            forall|j: int| 0 <= j < i ==> (#[trigger] r@[j])@ == v@[j]@,
        decreases v.len() - i,
    {
        r.push(copy_units(&v[i]));
        i = i + 1;
    }
    assert(units_list(r@) =~= units_list(v@));
    r
}

/// The decimal digit `d` stands for.
pub open spec fn digit(d: nat) -> char {
    if d == 0 {
        '0'
    } else if d == 1 {
        '1'
    } else if d == 2 {
        '2'
    } else if d == 3 {
        '3'
    } else if d == 4 {
        '4'
    } else if d == 5 {
        '5'
    } else if d == 6 {
        '6'
    } else if d == 7 {
        '7'
    } else if d == 8 {
        '8'
    } else {
        '9'
    }
}

/// `n` in decimal, without leading zeros.
pub open spec fn decimal(n: nat) -> Seq<char>
    decreases n,
{
    if n < 10 {
        seq![digit(n)]
    } else {
        decimal(n / 10).push(digit(n % 10))
    }
}

/// `n` in decimal, with a minus sign when negative.
pub open spec fn signed_decimal(n: int) -> Seq<char> {
    if n < 0 {
        seq!['-'] + decimal((-n) as nat)
    } else {
        decimal(n as nat)
    }
}

fn digit_str(d: u64) -> (r: &'static str)
    requires
        d < 10,
    ensures
        r@ == seq![digit(d as nat)],
{
    if d == 0 {
        proof { reveal_strlit("0"); }
        assert("0"@ =~= seq!['0']);
        "0"
    } else if d == 1 {
        proof { reveal_strlit("1"); }
        assert("1"@ =~= seq!['1']);
        "1"
    } else if d == 2 {
        proof { reveal_strlit("2"); }
        assert("2"@ =~= seq!['2']);
        "2"
    } else if d == 3 {
        proof { reveal_strlit("3"); }
        assert("3"@ =~= seq!['3']);
        "3"
    } else if d == 4 {
        proof { reveal_strlit("4"); }
        assert("4"@ =~= seq!['4']);
        "4"
    } else if d == 5 {
        proof { reveal_strlit("5"); }
        assert("5"@ =~= seq!['5']);
        "5"
    } else if d == 6 {
        proof { reveal_strlit("6"); }
        assert("6"@ =~= seq!['6']);
        "6"
    } else if d == 7 {
        proof { reveal_strlit("7"); }
        assert("7"@ =~= seq!['7']);
        "7"
    } else if d == 8 {
        proof { reveal_strlit("8"); }
        assert("8"@ =~= seq!['8']);
        "8"
    } else {
        proof { reveal_strlit("9"); }
        assert("9"@ =~= seq!['9']);
        "9"
    }
}

/// `n` in decimal.
pub fn decimal_string(n: u64) -> (r: String)
    ensures
        r@ == decimal(n as nat),
    decreases n,
{
    if n < 10 {
        String::from_str(digit_str(n))
    } else {
        let mut s = decimal_string(n / 10);
        s.append(digit_str(n % 10));
        s
    }
}

/// `n` in decimal, with a minus sign when negative.
pub fn signed_decimal_string(n: i64) -> (r: String)
    ensures
        r@ == signed_decimal(n as int),
{
    if n < 0 {
        let mut s = String::from_str("-");
        proof { reveal_strlit("-"); }
        assert("-"@ =~= seq!['-']);
        let magnitude: u64 = if n == i64::MIN {
            9223372036854775808u64
        } else {
            (-n) as u64
        };
        let digits = decimal_string(magnitude);
        s.append(digits.as_str());
        s
    } else {
        decimal_string(n as u64)
    }
}

} // verus!
