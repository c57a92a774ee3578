//! Byte-level text primitives over ranges `lo..hi` of an ASCII line:
//! whitespace trimming, keyword comparison ignoring letter case, prefixes,
//! searching, splitting on a byte or on whitespace, and unsigned numbers.

use vstd::prelude::*;
use vstd::string::StrSliceExecFns;

verus! {

/// A whitespace byte: tab, line feed, vertical tab, form feed, carriage return, space.
pub open spec fn is_space(b: u8) -> bool {
    b == 32 || (9 <= b && b <= 13)
}

pub fn space(b: u8) -> (r: bool)
    ensures
        r == is_space(b),
{
    b == 32 || (9 <= b && b <= 13)
}

/// First index of `lo..hi` that holds a non-space byte (`hi` when none).
pub open spec fn skip_space(s: Seq<u8>, lo: int, hi: int) -> int
    decreases hi - lo,
{
    if lo >= hi {
        lo
    } else if is_space(s[lo]) {
        skip_space(s, lo + 1, hi)
    } else {
        lo
    }
}

/// End of `lo..hi` once trailing spaces are dropped.
pub open spec fn drop_space_end(s: Seq<u8>, lo: int, hi: int) -> int
    decreases hi - lo,
{
    if hi <= lo {
        hi
    } else if is_space(s[hi - 1]) {
        drop_space_end(s, lo, hi - 1)
    } else {
        hi
    }
}

/// `lo..hi` without its leading and trailing spaces.
pub open spec fn trim_range(s: Seq<u8>, lo: int, hi: int) -> (int, int) {
    let a = skip_space(s, lo, hi);
    (a, drop_space_end(s, a, hi))
}

pub proof fn lemma_skip_space(s: Seq<u8>, lo: int, hi: int)
    requires
        lo <= hi,
    ensures
        lo <= skip_space(s, lo, hi) <= hi,
        skip_space(s, lo, hi) < hi ==> !is_space(s[skip_space(s, lo, hi)]),
    decreases hi - lo,
{
    if lo < hi && is_space(s[lo]) {
        lemma_skip_space(s, lo + 1, hi);
    }
}

pub proof fn lemma_drop_space_end(s: Seq<u8>, lo: int, hi: int)
    requires
        lo <= hi,
    ensures
        lo <= drop_space_end(s, lo, hi) <= hi,
    decreases hi - lo,
{
    if lo < hi && is_space(s[hi - 1]) {
        lemma_drop_space_end(s, lo, hi - 1);
    }
}

/// The range `lo..hi` of `s` without leading and trailing whitespace.
pub fn trim(s: &[u8], lo: usize, hi: usize) -> (r: (usize, usize))
    requires
        lo <= hi <= s@.len(),
    ensures
        r.0 as int == trim_range(s@, lo as int, hi as int).0,
        r.1 as int == trim_range(s@, lo as int, hi as int).1,
        lo <= r.0 <= r.1 <= hi,
{
    let mut i = lo;
    while i < hi && space(s[i])
        invariant
            lo <= i <= hi,
            hi <= s@.len(),
            skip_space(s@, lo as int, hi as int) == skip_space(s@, i as int, hi as int),
        decreases hi - i,
    {
        i = i + 1;
    }
    let mut j = hi;
    while j > i && space(s[j - 1])
        invariant
            i <= j <= hi,
            hi <= s@.len(),
            drop_space_end(s@, i as int, hi as int) == drop_space_end(s@, i as int, j as int),
        decreases j - i,
    {
        j = j - 1;
    }
    (i, j)
}

/// ASCII lower case.
pub open spec fn lower(b: u8) -> u8 {
    if 65 <= b && b <= 90 { (b + 32) as u8 } else { b }
}

pub fn to_lower(b: u8) -> (r: u8)
    ensures
        r == lower(b),
{
    if 65 <= b && b <= 90 { b + 32 } else { b }
}

/// `s[lo..hi]` is the keyword `w`, letter case aside.
pub open spec fn is_word_ic(s: Seq<u8>, lo: int, hi: int, w: Seq<char>) -> bool {
    &&& hi - lo == w.len()
    &&& forall|i: int| 0 <= i < w.len() ==> lower(#[trigger] s[lo + i]) == lower(w[i] as u8)
}

/// Compare `s[lo..hi]` with the keyword `w`, ignoring ASCII letter case.
pub fn eq_ic(s: &[u8], lo: usize, hi: usize, w: &str) -> (r: bool)
    requires
        lo <= hi <= s@.len(),
    ensures
        r == is_word_ic(s@, lo as int, hi as int, w@),
{
    let n = w.unicode_len();
    if hi - lo != n {
        return false;
    }
    let mut i: usize = 0;
    while i < n
        invariant
            i <= n,
            n == w@.len(),
            hi - lo == n,
            lo <= hi <= s@.len(),
            forall|k: int| 0 <= k < i ==> lower(#[trigger] s@[lo + k]) == lower(w@[k] as u8),
        decreases n - i,
    {
        let c = w.get_char(i);
        if to_lower(s[lo + i]) != to_lower(c as u8) {
            return false;
        }
        i = i + 1;
    }
    true
}

/// `s[lo..hi]` starts with `p`.
pub open spec fn has_prefix(s: Seq<u8>, lo: int, hi: int, p: Seq<char>) -> bool {
    &&& p.len() <= hi - lo
    &&& forall|i: int| 0 <= i < p.len() ==> #[trigger] s[lo + i] == (p[i] as u8)
}

/// Does `s[lo..hi]` start with `p`?
pub fn starts_with(s: &[u8], lo: usize, hi: usize, p: &str) -> (r: bool)
    requires
        lo <= hi <= s@.len(),
    ensures
        r == has_prefix(s@, lo as int, hi as int, p@),
        r ==> lo + p@.len() <= hi,
{
    let n = p.unicode_len();
    if n > hi - lo {
        return false;
    }
    let mut i: usize = 0;
    while i < n
        invariant
            i <= n,
            n == p@.len(),
            n <= hi - lo,
            lo <= hi <= s@.len(),
            forall|k: int| 0 <= k < i ==> #[trigger] s@[lo + k] == (p@[k] as u8),
        decreases n - i,
    {
        let c = p.get_char(i);
        if s[lo + i] != c as u8 {
            return false;
        }
        i = i + 1;
    }
    true
}

/// Length of a keyword or prefix.
pub fn word_len(p: &str) -> (n: usize)
    ensures
        n == p@.len(),
{
    p.unicode_len()
}

/// First position in `lo..hi` where `p` occurs.
pub open spec fn find_from(s: Seq<u8>, lo: int, hi: int, p: Seq<char>) -> Option<int>
    decreases hi - lo,
{
    if lo + p.len() > hi {
        None
    } else if has_prefix(s, lo, hi, p) {
        Some(lo)
    } else {
        find_from(s, lo + 1, hi, p)
    }
}

/// Search `s[lo..hi]` for `p`.
pub fn find(s: &[u8], lo: usize, hi: usize, p: &str) -> (r: Option<usize>)
    requires
        lo <= hi <= s@.len(),
    ensures
        match r {
            Some(i) => find_from(s@, lo as int, hi as int, p@) == Some(i as int) && lo <= i && i + p@.len() <= hi,
            None => find_from(s@, lo as int, hi as int, p@) is None,
        },
{
    let n = word_len(p);
    let mut i = lo;
    while i <= hi && hi - i >= n
        invariant
            lo <= i,
            hi <= s@.len(),
            n == p@.len(),
            find_from(s@, lo as int, hi as int, p@) == find_from(s@, i as int, hi as int, p@),
        decreases hi + 1 - i,
    {
        if starts_with(s, i, hi, p) {
            return Some(i);
        }
        i = i + 1;
    }
    None
}

/// First position of byte `sep` in `lo..hi` (`hi` when none).
pub open spec fn next_sep(s: Seq<u8>, lo: int, hi: int, sep: u8) -> int
    decreases hi - lo,
{
    if lo >= hi {
        lo
    } else if s[lo] == sep {
        lo
    } else {
        next_sep(s, lo + 1, hi, sep)
    }
}

pub proof fn lemma_next_sep(s: Seq<u8>, lo: int, hi: int, sep: u8)
    requires
        lo <= hi,
    ensures
        lo <= next_sep(s, lo, hi, sep) <= hi,
    decreases hi - lo,
{
    if lo < hi && s[lo] != sep {
        lemma_next_sep(s, lo + 1, hi, sep);
    }
}

/// The `k`-th piece of `lo..hi` split at each byte `sep`.
pub open spec fn piece(s: Seq<u8>, lo: int, hi: int, sep: u8, k: nat) -> Option<(int, int)>
    decreases k,
{
    let e = next_sep(s, lo, hi, sep);
    if k == 0 {
        Some((lo, e))
    } else if e >= hi {
        None
    } else {
        piece(s, e + 1, hi, sep, (k - 1) as nat)
    }
}

pub proof fn lemma_piece(s: Seq<u8>, lo: int, hi: int, sep: u8, k: nat)
    requires
        lo <= hi,
    ensures
        piece(s, lo, hi, sep, k) matches Some(r) ==> lo <= r.0 <= r.1 <= hi,
    decreases k,
{
    lemma_next_sep(s, lo, hi, sep);
    if k > 0 && next_sep(s, lo, hi, sep) < hi {
        lemma_piece(s, next_sep(s, lo, hi, sep) + 1, hi, sep, (k - 1) as nat);
    }
}

/// The `k`-th piece of `s[lo..hi]` split at `sep`, as a range.
pub fn nth_piece(s: &[u8], lo: usize, hi: usize, sep: u8, k: usize) -> (r: Option<(usize, usize)>)
    requires
        lo <= hi <= s@.len(),
    ensures
        match r {
            Some(p) => piece(s@, lo as int, hi as int, sep, k as nat) == Some((p.0 as int, p.1 as int)) && lo <= p.0 <= p.1 <= hi,
            None => piece(s@, lo as int, hi as int, sep, k as nat) is None,
        },
{
    let mut start = lo;
    let mut left = k;
    loop
        invariant
            lo <= start <= hi,
            hi <= s@.len(),
            piece(s@, lo as int, hi as int, sep, k as nat) == piece(s@, start as int, hi as int, sep, left as nat),
        decreases left,
    {
        let mut e = start;
        while e < hi && s[e] != sep
            invariant
                start <= e <= hi,
                hi <= s@.len(),
                next_sep(s@, start as int, hi as int, sep) == next_sep(s@, e as int, hi as int, sep),
            decreases hi - e,
        {
            e = e + 1;
        }
        if left == 0 {
            return Some((start, e));
        }
        if e >= hi {
            return None;
        }
        start = e + 1;
        left = left - 1;
    }
}

/// End of the run of non-space bytes of `lo..hi` that starts at `lo`.
pub open spec fn word_end(s: Seq<u8>, lo: int, hi: int) -> int
    decreases hi - lo,
{
    if lo >= hi || is_space(s[lo]) {
        lo
    } else {
        word_end(s, lo + 1, hi)
    }
}

pub proof fn lemma_word_end(s: Seq<u8>, lo: int, hi: int)
    requires
        lo <= hi,
    ensures
        lo <= word_end(s, lo, hi) <= hi,
    decreases hi - lo,
{
    if lo < hi && !is_space(s[lo]) {
        lemma_word_end(s, lo + 1, hi);
    }
}

/// The words of `lo..hi`: its maximal runs of non-space bytes, as ranges.
pub open spec fn words(s: Seq<u8>, lo: int, hi: int) -> Seq<(int, int)>
    decreases hi - lo,
{
    if lo >= hi {
        Seq::empty()
    } else {
        let a = skip_space(s, lo, hi);
        if a >= hi {
            Seq::empty()
        } else {
            let e = word_end(s, a, hi);
            proof {
                lemma_skip_space(s, lo, hi);
                lemma_word_end(s, a + 1, hi);
                assert(e == word_end(s, a + 1, hi));
            }
            seq![(a, e)] + words(s, e, hi)
        }
    }
}

pub proof fn lemma_words(s: Seq<u8>, lo: int, hi: int)
    requires
        lo <= hi,
    ensures
        forall|k: int| 0 <= k < words(s, lo, hi).len() ==>
            lo <= (#[trigger] words(s, lo, hi)[k]).0 <= words(s, lo, hi)[k].1 <= hi,
    decreases hi - lo,
{
    if lo < hi {
        let a = skip_space(s, lo, hi);
        lemma_skip_space(s, lo, hi);
        if a < hi {
            let e = word_end(s, a, hi);
            lemma_word_end(s, a + 1, hi);
            lemma_words(s, e, hi);
            let w = words(s, lo, hi);
            assert forall|k: int| 0 <= k < w.len() implies lo <= (#[trigger] w[k]).0 <= w[k].1 <= hi by {
                if k > 0 {
                    assert(w[k] == words(s, e, hi)[k - 1]);
                }
            }
        }
    }
}

/// The words of `s[lo..hi]`, as ranges, in order.
pub fn split_words(s: &[u8], lo: usize, hi: usize) -> (r: Vec<(usize, usize)>)
    requires
        lo <= hi <= s@.len(),
    ensures
        r@.len() == words(s@, lo as int, hi as int).len(),
        forall|k: int| 0 <= k < r@.len() ==> (#[trigger] r@[k]).0 as int == words(s@, lo as int, hi as int)[k].0
            && r@[k].1 as int == words(s@, lo as int, hi as int)[k].1,
        forall|k: int| 0 <= k < r@.len() ==> lo <= (#[trigger] r@[k]).0 <= r@[k].1 <= hi,
{
    let ghost all = words(s@, lo as int, hi as int);
    let mut out: Vec<(usize, usize)> = Vec::new();
    let mut i = lo;
    proof { lemma_words(s@, lo as int, hi as int); }
    while i < hi
        invariant
            lo <= i <= hi,
            hi <= s@.len(),
            all == words(s@, lo as int, hi as int),
            out@.len() + words(s@, i as int, hi as int).len() == all.len(),
            forall|k: int| 0 <= k < out@.len() ==> (#[trigger] out@[k]).0 as int == all[k].0 && out@[k].1 as int == all[k].1,
            forall|k: int| 0 <= k < words(s@, i as int, hi as int).len() ==>
                #[trigger] words(s@, i as int, hi as int)[k] == all[out@.len() + k],
            forall|k: int| 0 <= k < out@.len() ==> lo <= (#[trigger] out@[k]).0 <= out@[k].1 <= hi,
        decreases hi - i,
    {
        if space(s[i]) {
            assert(words(s@, i as int, hi as int) == words(s@, i + 1, hi as int));
            i = i + 1;
        } else {
            let mut e = i;
            while e < hi && !space(s[e])
                invariant
                    i <= e <= hi,
                    hi <= s@.len(),
                    word_end(s@, i as int, hi as int) == word_end(s@, e as int, hi as int),
                decreases hi - e,
            {
                e = e + 1;
            }
            proof {
                assert(skip_space(s@, i as int, hi as int) == i);
                lemma_word_end(s@, i + 1, hi as int);
                let w = words(s@, i as int, hi as int);
                assert(w[0] == (i as int, e as int));
                assert forall|k: int| 0 <= k < words(s@, e as int, hi as int).len() implies
                    #[trigger] words(s@, e as int, hi as int)[k] == all[out@.len() + 1 + k] by {
                    assert(w[k + 1] == words(s@, e as int, hi as int)[k]);
                }
            }
            out.push((i, e));
            i = e;
        }
    }
    out
}

/// Does `s[lo..hi]` hold the byte `b`?
pub open spec fn holds_byte(s: Seq<u8>, lo: int, hi: int, b: u8) -> bool {
    exists|i: int| lo <= i < hi && s[i] == b
}

pub fn contains(s: &[u8], lo: usize, hi: usize, b: u8) -> (r: bool)
    requires
        lo <= hi <= s@.len(),
    ensures
        r == holds_byte(s@, lo as int, hi as int, b),
{
    let mut i = lo;
    while i < hi
        invariant
            lo <= i <= hi,
            hi <= s@.len(),
            forall|k: int| lo <= k < i ==> s@[k] != b,
        decreases hi - i,
    {
        if s[i] == b {
            return true;
        }
        i = i + 1;
    }
    false
}

/// Start of `lo..hi` once every leading "0x" is removed.
pub open spec fn skip_hex_marks(s: Seq<u8>, lo: int, hi: int) -> int
    decreases hi - lo,
{
    if lo + 2 <= hi && s[lo] == 48 && s[lo + 1] == 120 {
        skip_hex_marks(s, lo + 2, hi)
    } else {
        lo
    }
}

/// Skip every leading "0x" of `s[lo..hi]`.
pub fn strip_hex_marks(s: &[u8], lo: usize, hi: usize) -> (r: usize)
    requires
        lo <= hi <= s@.len(),
    ensures
        r as int == skip_hex_marks(s@, lo as int, hi as int),
        lo <= r <= hi,
{
    let mut i = lo;
    while hi - i >= 2 && s[i] == 48 && s[i + 1] == 120
        invariant
            lo <= i <= hi,
            hi <= s@.len(),
            skip_hex_marks(s@, lo as int, hi as int) == skip_hex_marks(s@, i as int, hi as int),
        decreases hi - i,
    {
        i = i + 2;
    }
    i
}

/// Value of byte `b` as a digit in base `radix` (10 or 16).
pub open spec fn digit(b: u8, radix: nat) -> Option<nat> {
    let v: int = if 48 <= b && b <= 57 {
        b - 48
    } else if 97 <= b && b <= 122 {
        b - 97 + 10
    } else if 65 <= b && b <= 90 {
        b - 65 + 10
    } else {
        99
    };
    if v < radix { Some(v as nat) } else { None }
}

/// Value of the digits `lo..hi` in base `radix`, if all are digits.
pub open spec fn digits_value(s: Seq<u8>, lo: int, hi: int, radix: nat) -> Option<nat>
    decreases hi - lo,
{
    if hi <= lo {
        Some(0)
    } else {
        match (digits_value(s, lo, hi - 1, radix), digit(s[hi - 1], radix)) {
            (Some(v), Some(d)) => Some(v * radix + d),
            _ => None,
        }
    }
}

/// The unsigned number `s[lo..hi]` in base `radix` as the standard parser
/// reads it: an optional '+', then one or more digits; `None` when it is
/// malformed or exceeds `max`.
pub open spec fn parse_uint(s: Seq<u8>, lo: int, hi: int, radix: nat, max: nat) -> Option<nat> {
    if hi <= lo {
        None
    } else {
        let start = if s[lo] == 43 { lo + 1 } else { lo };
        if start >= hi {
            None
        } else {
            match digits_value(s, start, hi, radix) {
                Some(v) => if v <= max { Some(v) } else { None },
                None => None,
            }
        }
    }
}

fn digit_of(b: u8, radix: u64) -> (r: Option<u64>)
    requires
        radix == 10 || radix == 16,
    ensures
        match r {
            Some(v) => digit(b, radix as nat) == Some(v as nat),
            None => digit(b, radix as nat) is None,
        },
{
    let v: u64 = if 48 <= b && b <= 57 {
        (b - 48) as u64
    } else if 97 <= b && b <= 122 {
        (b - 97) as u64 + 10
    } else if 65 <= b && b <= 90 {
        (b - 65) as u64 + 10
    } else {
        99
    };
    if v < radix { Some(v) } else { None }
}

/// Parse the unsigned number `s[lo..hi]` in base `radix` (10 or 16), at most `max`.
pub fn parse_num(s: &[u8], lo: usize, hi: usize, radix: u64, max: u64) -> (r: Option<u64>)
    requires
        lo <= hi <= s@.len(),
        radix == 10 || radix == 16,
    ensures
        match r {
            Some(v) => parse_uint(s@, lo as int, hi as int, radix as nat, max as nat) == Some(v as nat),
            None => parse_uint(s@, lo as int, hi as int, radix as nat, max as nat) is None,
        },
{
    if hi <= lo {
        return None;
    }
    let start = if s[lo] == 43 { lo + 1 } else { lo };
    if start >= hi {
        return None;
    }
    let mut acc: u64 = 0;
    let mut over = false;
    let mut i = start;
    while i < hi
        invariant
            start <= i <= hi,
            hi <= s@.len(),
            lo < hi,
            start < hi,
            start as int == (if s@[lo as int] == 43 { lo + 1 } else { lo as int }),
            radix == 10 || radix == 16,
            digits_value(s@, start as int, i as int, radix as nat) is Some,
            !over ==> digits_value(s@, start as int, i as int, radix as nat) == Some(acc as nat) && acc <= max,
            over ==> digits_value(s@, start as int, i as int, radix as nat).unwrap() > max,
        decreases hi - i,
    {
        let d = match digit_of(s[i], radix) {
            Some(d) => d,
            None => {
                proof {
                    assert(digits_value(s@, start as int, i + 1, radix as nat) is None);
                    lemma_digits_none(s@, start as int, (i + 1) as int, hi as int, radix as nat);
                    assert(parse_uint(s@, lo as int, hi as int, radix as nat, max as nat) is None);
                }
                return None;
            },
        };
        let ghost prev = digits_value(s@, start as int, i as int, radix as nat).unwrap();
        assert(digits_value(s@, start as int, i + 1, radix as nat) == Some((prev * radix + d) as nat));
        if !over {
            if d > max {
                over = true;
                assert(prev * radix + d > max) by (nonlinear_arith)
                    requires d > max, prev >= 0, radix >= 1;
            } else {
                let q = (max - d) / radix;
                if acc > q {
                    over = true;
                    assert(prev * radix + d > max) by (nonlinear_arith)
                        requires prev == acc, acc > q, q as int == (max as int - d as int) / (radix as int), radix > 0, d <= max;
                } else {
                    assert(acc * radix + d <= max) by (nonlinear_arith)
                        requires acc <= q, q as int == (max as int - d as int) / (radix as int), radix > 0, d <= max;
                    acc = acc * radix + d;
                }
            }
        } else {
            assert(prev * radix + d > max) by (nonlinear_arith)
                requires prev > max, radix >= 1, d >= 0;
        }
        i = i + 1;
    }
    if over { None } else { Some(acc) }
}

proof fn lemma_digits_none(s: Seq<u8>, lo: int, mid: int, hi: int, radix: nat)
    requires
        lo <= mid <= hi,
        digits_value(s, lo, mid, radix) is None,
    ensures
        digits_value(s, lo, hi, radix) is None,
    decreases hi - mid,
{
    if mid < hi {
        lemma_digits_none(s, lo, mid, hi - 1, radix);
    }
}

} // verus!
