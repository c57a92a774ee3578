//! Allocation-free number and text formatting into byte buffers.

use vstd::prelude::*;
use vstd::string::StrSliceExecFns;

verus! {

/// The ASCII digit for a value below ten.
pub open spec fn dec_char(d: nat) -> u8 {
    (48 + d) as u8
}

/// The ASCII upper-case hexadecimal digit for a value below sixteen.
pub open spec fn hex_char(d: nat) -> u8 {
    if d < 10 { (48 + d) as u8 } else { (55 + d) as u8 }
}

/// Decimal representation of `v`, most significant digit first, without leading zeros.
pub open spec fn dec_digits(v: nat) -> Seq<u8>
    decreases v,
{
    if v < 10 {
        seq![dec_char(v)]
    } else {
        dec_digits(v / 10).push(dec_char(v % 10))
    }
}

/// Hexadecimal representation of `v` (upper case), most significant digit first,
/// without leading zeros.
pub open spec fn hex_digits(v: nat) -> Seq<u8>
    decreases v,
{
    if v < 16 {
        seq![hex_char(v)]
    } else {
        hex_digits(v / 16).push(hex_char(v % 16))
    }
}

/// The sequence `s` reversed.
pub open spec fn rev(s: Seq<u8>) -> Seq<u8> {
    Seq::new(s.len(), |i: int| s[s.len() - 1 - i])
}

/// `out` after writing `w` over its first `w.len()` bytes.
pub open spec fn overwrite_prefix(out: Seq<u8>, w: Seq<u8>) -> Seq<u8> {
    w + out.subrange(w.len() as int, out.len() as int)
}

pub open spec fn min_nat(a: nat, b: nat) -> nat {
    if a <= b { a } else { b }
}

proof fn lemma_rev_push(s: Seq<u8>, d: u8)
    ensures
        rev(s.push(d)) =~= seq![d] + rev(s),
{
}

/// Digits of `v` in `base` (10 or 16), least significant first.
fn digits_reversed(v: u64, base: u64) -> (r: Vec<u8>)
    requires
        base == 10 || base == 16,
    ensures
        base == 10 ==> rev(r@) == dec_digits(v as nat),
        base == 16 ==> rev(r@) == hex_digits(v as nat),
{
    let mut tmp: Vec<u8> = Vec::new();
    let mut cur: u64 = v;
    proof {
        assert(rev(tmp@) =~= Seq::<u8>::empty());
        assert(dec_digits(v as nat) =~= dec_digits(cur as nat) + rev(tmp@));
        assert(hex_digits(v as nat) =~= hex_digits(cur as nat) + rev(tmp@));
    }
    while cur >= base
        invariant
            base == 10 || base == 16,
            base == 10 ==> dec_digits(v as nat) == dec_digits(cur as nat) + rev(tmp@),
            base == 16 ==> hex_digits(v as nat) == hex_digits(cur as nat) + rev(tmp@),
        decreases cur,
    {
        let d = cur % base;
        let c: u8 = if d < 10 { (48 + d) as u8 } else { (55 + d) as u8 };
        let ghost old_tmp = tmp@;
        tmp.push(c);
        proof {
            lemma_rev_push(old_tmp, c);
            if base == 10 {
                assert(dec_digits(cur as nat) == dec_digits((cur / 10) as nat).push(dec_char((cur % 10) as nat)));
                assert(dec_digits(v as nat) =~= dec_digits((cur / base) as nat) + rev(tmp@));
            } else {
                assert(hex_digits(cur as nat) == hex_digits((cur / 16) as nat).push(hex_char((cur % 16) as nat)));
                assert(hex_digits(v as nat) =~= hex_digits((cur / base) as nat) + rev(tmp@));
            }
        }
        cur = cur / base;
    }
    let c: u8 = if cur < 10 { (48 + cur) as u8 } else { (55 + cur) as u8 };
    let ghost old_tmp = tmp@;
    tmp.push(c);
    proof {
        lemma_rev_push(old_tmp, c);
        if base == 10 {
            assert(dec_digits(v as nat) =~= rev(tmp@));
        } else {
            assert(hex_digits(v as nat) =~= rev(tmp@));
        }
    }
    tmp
}

/// Copy the reverse of `tmp` into the front of `out`, as far as `out` has room.
fn copy_reversed(tmp: &Vec<u8>, out: &mut [u8]) -> (n: usize)
    ensures
        n == min_nat(tmp@.len(), old(out)@.len()),
        final(out)@ == overwrite_prefix(old(out)@, rev(tmp@).take(n as int)),
{
    let mut n: usize = 0;
    let len = tmp.len();
    while n < len && n < out.len()
        invariant
            len == tmp@.len(),
            n <= len,
            n <= out@.len(),
            out@.len() == old(out)@.len(),
            out@ =~= overwrite_prefix(old(out)@, rev(tmp@).take(n as int)),
        decreases len - n,
    {
        out[n] = tmp[len - 1 - n];
        n = n + 1;
        assert(out@ =~= overwrite_prefix(old(out)@, rev(tmp@).take(n as int)));
    }
    n
}

/// Write `v` in decimal into `out`, truncated to the length of `out`.
/// Returns the number of bytes written.
pub fn u32_to_dec(v: u32, out: &mut [u8]) -> (n: usize)
    ensures
        n == min_nat(dec_digits(v as nat).len(), old(out)@.len()),
        final(out)@ == overwrite_prefix(old(out)@, dec_digits(v as nat).take(n as int)),
{
    let tmp = digits_reversed(v as u64, 10);
    copy_reversed(&tmp, out)
}

/// Write `v` in upper-case hexadecimal (no prefix, no leading zeros) into `out`,
/// truncated to the length of `out`. Returns the number of bytes written.
pub fn u64_hex(v: u64, out: &mut [u8]) -> (n: usize)
    ensures
        n == min_nat(hex_digits(v as nat).len(), old(out)@.len()),
        final(out)@ == overwrite_prefix(old(out)@, hex_digits(v as nat).take(n as int)),
{
    let tmp = digits_reversed(v, 16);
    copy_reversed(&tmp, out)
}

/// Ten to the `k`.
pub open spec fn pow10(k: nat) -> nat
    decreases k,
{
    if k == 0 { 1 } else { 10 * pow10((k - 1) as nat) }
}

proof fn lemma_dec_len_bound(v: nat, k: nat)
    requires
        k >= 1,
        v < pow10(k),
    ensures
        dec_digits(v).len() <= k,
    decreases k,
{
    if v >= 10 {
        assert(pow10(k) == 10 * pow10((k - 1) as nat));
        assert(v / 10 < pow10((k - 1) as nat)) by (nonlinear_arith)
            requires v < 10 * pow10((k - 1) as nat);
        if k == 1 {
            assert(false);
        } else {
            lemma_dec_len_bound(v / 10, (k - 1) as nat);
        }
    }
}

/// A `u32` has at most ten decimal digits.
pub proof fn lemma_dec_len_u32(v: u32)
    ensures
        dec_digits(v as nat).len() <= 10,
{
    reveal_with_fuel(pow10, 11);
    lemma_dec_len_bound(v as nat, 10);
}

/// Append the bytes of `s`.
pub fn push_bytes(out: &mut Vec<u8>, s: &[u8])
    ensures
        final(out)@ == old(out)@ + s@,
{
    let mut i: usize = 0;
    while i < s.len()
        invariant
            i <= s@.len(),
            out@ == old(out)@ + s@.subrange(0, i as int),
        decreases s@.len() - i,
    {
        out.push(s[i]);
        i = i + 1;
        assert(out@ =~= old(out)@ + s@.subrange(0, i as int));
    }
    assert(s@.subrange(0, s@.len() as int) =~= s@);
}

/// Append `v` in decimal.
pub fn push_dec(out: &mut Vec<u8>, v: u32)
    ensures
        final(out)@ == old(out)@ + dec_digits(v as nat),
{
    let mut buf = [0u8; 10];
    proof {
        lemma_dec_len_u32(v);
    }
    let n = u32_to_dec(v, &mut buf);
    assert(buf@.subrange(0, n as int) =~= dec_digits(v as nat));
    let mut i: usize = 0;
    while i < n
        invariant
            n == dec_digits(v as nat).len(),
            n <= 10,
            buf@.len() == 10,
            buf@.subrange(0, n as int) == dec_digits(v as nat),
            i <= n,
            out@ == old(out)@ + dec_digits(v as nat).subrange(0, i as int),
        decreases n - i,
    {
        out.push(buf[i]);
        i = i + 1;
        assert(out@ =~= old(out)@ + dec_digits(v as nat).subrange(0, i as int));
    }
    assert(dec_digits(v as nat).subrange(0, n as int) =~= dec_digits(v as nat));
}

/// Append `v` in upper-case hexadecimal.
pub fn push_hex(out: &mut Vec<u8>, v: u64)
    ensures
        final(out)@ == old(out)@ + hex_digits(v as nat),
{
    let tmp = digits_reversed(v, 16);
    let ghost d = hex_digits(v as nat);
    let len = tmp.len();
    let mut i: usize = 0;
    while i < len
        invariant
            len == tmp@.len(),
            rev(tmp@) == d,
            i <= len,
            out@ == old(out)@ + d.subrange(0, i as int),
        decreases len - i,
    {
        out.push(tmp[len - 1 - i]);
        i = i + 1;
        assert(out@ =~= old(out)@ + d.subrange(0, i as int));
    }
    assert(d.subrange(0, len as int) =~= d);
}

/// The bytes of an ASCII text.
pub open spec fn ascii(t: Seq<char>) -> Seq<u8> {
    Seq::new(t.len(), |i: int| t[i] as u8)
}

/// Append the ASCII text `t`.
pub fn push_str(out: &mut Vec<u8>, t: &str)
    ensures
        final(out)@ == old(out)@ + ascii(t@),
{
    let n = t.unicode_len();
    let mut i: usize = 0;
    while i < n
        invariant
            n == t@.len(),
            i <= n,
            out@ == old(out)@ + ascii(t@).subrange(0, i as int),
        decreases n - i,
    {
        let c = t.get_char(i);
        out.push(c as u8);
        i = i + 1;
        assert(out@ =~= old(out)@ + ascii(t@).subrange(0, i as int));
    }
    assert(ascii(t@).subrange(0, n as int) =~= ascii(t@));
}

} // verus!
