//! Verified helpers over raw byte slices: equality, range copies,
//! whitespace trimming and decimal parsing. The wire protocol is a byte
//! protocol, so everything downstream is stated over `Seq<u8>`.

use vstd::prelude::*;

verus! {

/// A byte that counts as surrounding whitespace when a header part is trimmed.
pub open spec fn is_ws(b: u8) -> bool {
    b == 32 || b == 9 || b == 13 || b == 10
}

/// A decimal digit byte.
pub open spec fn is_digit(b: u8) -> bool {
    48 <= b && b <= 57
}

/// Every byte of `s` is a decimal digit.
pub open spec fn all_digits(s: Seq<u8>) -> bool {
    forall|i: int| 0 <= i < s.len() ==> is_digit(s[i])
}

/// The numeric weight of one digit byte; zero for a non-digit.
pub open spec fn digit_of(b: u8) -> nat {
    if is_digit(b) {
        (b - 48) as nat
    } else {
        0
    }
}

/// The value of a digit string read in base ten.
pub open spec fn digits_val(s: Seq<u8>) -> nat
    decreases s.len(),
{
    if s.len() == 0 {
        0
    } else {
        digits_val(s.drop_last()) * 10 + digit_of(s.last())
    }
}

/// The string with its leading whitespace removed.
pub open spec fn trim_start_spec(s: Seq<u8>) -> Seq<u8>
    decreases s.len(),
{
    if s.len() > 0 && is_ws(s[0]) {
        trim_start_spec(s.drop_first())
    } else {
        s
    }
}

/// The string with its trailing whitespace removed.
pub open spec fn trim_end_spec(s: Seq<u8>) -> Seq<u8>
    decreases s.len(),
{
    if s.len() > 0 && is_ws(s.last()) {
        trim_end_spec(s.drop_last())
    } else {
        s
    }
}

/// The string with whitespace removed from both ends.
pub open spec fn trim_spec(s: Seq<u8>) -> Seq<u8> {
    trim_end_spec(trim_start_spec(s))
}

/// A trimmed string: trimming it again changes nothing.
pub open spec fn is_trimmed(s: Seq<u8>) -> bool {
    (s.len() > 0 ==> !is_ws(s[0])) && (s.len() > 0 ==> !is_ws(s.last()))
}

/// Exact byte-for-byte equality of two slices.
pub fn bytes_eq(a: &[u8], b: &[u8]) -> (r: bool)
    ensures
        r == (a@ == b@),
{
    if a.len() != b.len() {
        return false;
    }
    let mut i: usize = 0;
    while i < a.len()
        invariant
            0 <= i <= a@.len(),
            a@.len() == b@.len(),
            forall|k: int| 0 <= k < i ==> a@[k] == b@[k],
        decreases a@.len() - i,
    {
        if a[i] != b[i] {
            return false;
        }
        i = i + 1;
    }
    proof {
        assert(a@ =~= b@);
    }
    true
}

/// Copies the bytes of `s` between `lo` and `hi` into a fresh vector.
pub fn copy_range(s: &[u8], lo: usize, hi: usize) -> (v: Vec<u8>)
    requires
        lo <= hi <= s@.len(),
    ensures
        v@ == s@.subrange(lo as int, hi as int),
{
    let sub: &[u8] = &s[lo..hi];
    vstd::slice::slice_to_vec(sub)
}

/// Appends every byte of `src` to `dst`.
pub fn append_bytes(dst: &mut Vec<u8>, src: &[u8])
    ensures
        final(dst)@ == old(dst)@ + src@,
{
    let mut i: usize = 0;
    while i < src.len()
        invariant
            0 <= i <= src@.len(),
            dst@ == old(dst)@ + src@.subrange(0, i as int),
        decreases src@.len() - i,
    {
        dst.push(src[i]);
        i = i + 1;
        proof {
            assert(old(dst)@ + src@.subrange(0, i as int) =~= (old(dst)@ + src@.subrange(
                0,
                i - 1,
            )).push(src@[i - 1]));
        }
    }
    proof {
        assert(src@.subrange(0, src@.len() as int) =~= src@);
    }
}

/// If the first `i` bytes are whitespace and byte `i` is not, trimming the
/// start removes exactly those `i` bytes.
proof fn lemma_trim_start_at(s: Seq<u8>, i: int)
    requires
        0 <= i <= s.len(),
        forall|k: int| 0 <= k < i ==> is_ws(s[k]),
        i < s.len() ==> !is_ws(s[i]),
    ensures
        trim_start_spec(s) == s.subrange(i, s.len() as int),
    decreases i,
{
    if i == 0 {
        assert(s.subrange(0, s.len() as int) =~= s);
    } else {
        let t = s.drop_first();
        assert(forall|k: int| 0 <= k < i - 1 ==> t[k] == s[k + 1] && is_ws(t[k]));
        lemma_trim_start_at(t, i - 1);
        assert(t.subrange(i - 1, t.len() as int) =~= s.subrange(i, s.len() as int));
    }
}

/// If every byte from `j` on is whitespace and byte `j - 1` is not, trimming
/// the end keeps exactly the first `j` bytes.
proof fn lemma_trim_end_at(s: Seq<u8>, j: int)
    requires
        0 <= j <= s.len(),
        forall|k: int| j <= k < s.len() ==> is_ws(s[k]),
        j > 0 ==> !is_ws(s[j - 1]),
    ensures
        trim_end_spec(s) == s.subrange(0, j),
    decreases s.len() - j,
{
    if j == s.len() {
        assert(s.subrange(0, s.len() as int) =~= s);
    } else {
        let t = s.drop_last();
        lemma_trim_end_at(t, j);
        assert(t.subrange(0, j) =~= s.subrange(0, j));
    }
}

/// A string trimmed at both ends is unchanged by `trim_spec`.
pub proof fn lemma_trim_of_trimmed(s: Seq<u8>)
    requires
        is_trimmed(s),
    ensures
        trim_spec(s) == s,
{
    lemma_trim_start_at(s, 0);
    assert(trim_start_spec(s) == s.subrange(0, s.len() as int));
    assert(s.subrange(0, s.len() as int) =~= s);
    lemma_trim_end_at(s, s.len() as int);
}

/// Trims the bytes of `s` between `lo` and `hi` into a fresh vector.
pub fn trim_range(s: &[u8], lo: usize, hi: usize) -> (v: Vec<u8>)
    requires
        lo <= hi <= s@.len(),
    ensures
        v@ == trim_spec(s@.subrange(lo as int, hi as int)),
{
    let ghost sub = s@.subrange(lo as int, hi as int);
    let mut i: usize = lo;
    while i < hi && (s[i] == 32 || s[i] == 9 || s[i] == 13 || s[i] == 10)
        invariant
            lo <= i <= hi <= s@.len(),
            forall|k: int| lo <= k < i ==> is_ws(s@[k]),
        decreases hi - i,
    {
        i = i + 1;
    }
    let mut j: usize = hi;
    while j > i && (s[j - 1] == 32 || s[j - 1] == 9 || s[j - 1] == 13 || s[j - 1] == 10)
        invariant
            lo <= i <= j <= hi <= s@.len(),
            forall|k: int| j <= k < hi ==> is_ws(s@[k]),
        decreases j - i,
    {
        j = j - 1;
    }
    proof {
        assert(forall|k: int| 0 <= k < i - lo ==> sub[k] == s@[lo + k] && is_ws(sub[k]));
        assert(i - lo < sub.len() ==> sub[i - lo] == s@[i as int] && !is_ws(sub[i - lo]));
        lemma_trim_start_at(sub, i - lo);
        let mid = sub.subrange(i - lo, sub.len() as int);
        assert(mid =~= s@.subrange(i as int, hi as int));
        assert(forall|k: int| j - i <= k < mid.len() ==> mid[k] == s@[i + k] && is_ws(mid[k]));
        assert(j - i > 0 ==> mid[j - i - 1] == s@[j - 1] && !is_ws(mid[j - i - 1]));
        lemma_trim_end_at(mid, j - i);
        assert(mid.subrange(0, j - i) =~= s@.subrange(i as int, j as int));
    }
    copy_range(s, i, j)
}

/// The value of a digit string only grows as digits are appended.
proof fn lemma_digits_val_mono(s: Seq<u8>, k: int)
    requires
        0 <= k <= s.len(),
    ensures
        digits_val(s) >= digits_val(s.take(k)),
    decreases s.len() - k,
{
    if k == s.len() {
        assert(s.take(k) =~= s);
    } else {
        lemma_digits_val_mono(s, k + 1);
        assert(s.take(k + 1).drop_last() =~= s.take(k));
        assert(s.take(k + 1).last() == s[k]);
        assert(digits_val(s.take(k + 1)) == digits_val(s.take(k)) * 10 + digit_of(s[k]));
    }
}

/// Reads the bytes of `s` between `lo` and `hi` as a base-ten number.
/// Fails exactly when the range is empty, holds a non-digit, or names a
/// value too large for `usize`.
pub fn parse_decimal(s: &[u8], lo: usize, hi: usize) -> (r: Option<usize>)
    requires
        lo <= hi <= s@.len(),
    ensures
        ({
            let d = s@.subrange(lo as int, hi as int);
            match r {
                Some(n) => lo < hi && all_digits(d) && n == digits_val(d),
                None => lo == hi || !all_digits(d) || digits_val(d) > usize::MAX,
            }
        }),
{
    let ghost d = s@.subrange(lo as int, hi as int);
    if lo == hi {
        return None;
    }
    let mut v: usize = 0;
    let mut i: usize = lo;
    while i < hi
        invariant
            lo <= i <= hi <= s@.len(),
            d == s@.subrange(lo as int, hi as int),
            forall|k: int| lo <= k < i ==> is_digit(s@[k]),
            v == digits_val(d.take(i - lo)),
        decreases hi - i,
    {
        let b = s[i];
        if b < 48 || b > 57 {
            proof {
                assert(d[i - lo] == s@[i as int]);
                assert(!is_digit(d[i - lo]));
            }
            return None;
        }
        let dig = (b - 48) as usize;
        if v > (usize::MAX - dig) / 10 {
            proof {
                let p = d.take(i + 1 - lo);
                assert(p.drop_last() =~= d.take(i - lo));
                assert(p.last() == s@[i as int]);
                assert(digits_val(p) == v * 10 + dig);
                assert(v * 10 + dig > usize::MAX) by (nonlinear_arith)
                    requires
                        v > (usize::MAX - dig) / 10,
                        0 <= dig < 10,
                ;
                lemma_digits_val_mono(d, i + 1 - lo);
                assert(digits_val(d) > usize::MAX);
            }
            return None;
        }
        proof {
            assert(v * 10 + dig <= usize::MAX) by (nonlinear_arith)
                requires
                    v <= (usize::MAX - dig) / 10,
                    0 <= dig < 10,
            ;
            let p = d.take(i + 1 - lo);
            assert(p.drop_last() =~= d.take(i - lo));
            assert(p.last() == s@[i as int]);
        }
        v = v * 10 + dig;
        i = i + 1;
    }
    proof {
        assert(d.take(hi - lo) =~= d);
        assert(forall|k: int| 0 <= k < d.len() ==> d[k] == s@[lo + k] && is_digit(d[k]));
    }
    Some(v)
}

} // verus!
