//! Byte-level helpers for reading line-oriented tool output.
use vstd::prelude::*;

verus! {

/// The text that lossy UTF-8 decoding gives for `b`.
pub uninterp spec fn lossy_text(b: Seq<u8>) -> Seq<char>;

/// Relies on `String::from_utf8_lossy`: valid UTF-8 is decoded as it is,
/// other bytes become replacement characters.
#[verifier::external_body]
pub(crate) fn text_from_bytes(b: &[u8]) -> (r: String)
    ensures
        r@ == lossy_text(b@),
        vstd::utf8::valid_utf8(b@) ==> r@ == vstd::utf8::decode_utf8(b@),
{
    String::from_utf8_lossy(b).into_owned()
}


pub open spec fn is_digit(b: u8) -> bool {
    48 <= b && b <= 57
}

pub open spec fn all_digits(s: Seq<u8>, lo: int, hi: int) -> bool {
    forall|i: int| lo <= i < hi ==> is_digit(#[trigger] s[i])
}

/// The decimal value of the digits `s[lo..hi]`.
pub open spec fn digits_value(s: Seq<u8>, lo: int, hi: int) -> nat
    decreases hi - lo,
{
    if hi <= lo {
        0
    } else {
        digits_value(s, lo, hi - 1) * 10 + (s[hi - 1] - 48) as nat
    }
}

/// What `s[lo..hi]` reads as an unsigned number no larger than `max`: an
/// optional `+`, then one or more decimal digits.
pub open spec fn unsigned_in(s: Seq<u8>, lo: int, hi: int, max: nat) -> Option<nat> {
    let d = if lo < hi && s[lo] == 43 {
        lo + 1
    } else {
        lo
    };
    if d < hi && all_digits(s, d, hi) && digits_value(s, d, hi) <= max {
        Some(digits_value(s, d, hi))
    } else {
        None
    }
}

/// Index of the first byte `b` in `s[i..hi]`, or `hi`.
pub open spec fn first_in(s: Seq<u8>, b: u8, i: int, hi: int) -> int
    decreases hi - i,
{
    if i >= hi {
        hi
    } else if s[i] == b {
        i
    } else {
        first_in(s, b, i + 1, hi)
    }
}

/// Index of the first byte `b` in `s[i..]`, or the length of `s`.
pub open spec fn first_from(s: Seq<u8>, b: u8, i: int) -> int {
    first_in(s, b, i, s.len() as int)
}

/// Whether `pat` occurs in `s` at `j`.
pub open spec fn occurs_at(s: Seq<u8>, j: int, pat: Seq<u8>) -> bool {
    0 <= j && j + pat.len() <= s.len() && s.subrange(j, j + pat.len()) == pat
}

/// Whether `pat` occurs inside `s[lo..hi]`.
pub open spec fn occurs_in(s: Seq<u8>, lo: int, hi: int, pat: Seq<u8>) -> bool {
    exists|j: int| lo <= j && j + pat.len() <= hi && #[trigger] occurs_at(s, j, pat)
}

/// Index of the last byte `b` in `s[lo..hi]`, or `lo - 1` when there is none.
pub open spec fn last_in(s: Seq<u8>, b: u8, lo: int, hi: int) -> int
    decreases hi - lo,
{
    if hi <= lo {
        lo - 1
    } else if s[hi - 1] == b {
        hi - 1
    } else {
        last_in(s, b, lo, hi - 1)
    }
}

/// Where the content of the line that starts at `start` stops: before its
/// newline, and before a carriage return that precedes that newline.
pub open spec fn line_stop(s: Seq<u8>, start: int) -> int {
    let e = first_from(s, 10, start);
    if e < s.len() && e > start && s[e - 1] == 13 {
        e - 1
    } else {
        e
    }
}

/// Where the line after the one that starts at `start` begins.
pub open spec fn after_line(s: Seq<u8>, start: int) -> int {
    let e = first_from(s, 10, start);
    if e < s.len() {
        e + 1
    } else {
        s.len() as int
    }
}

pub proof fn lemma_first_in_bounds(s: Seq<u8>, b: u8, i: int, hi: int)
    requires
        i <= hi,
    ensures
        i <= first_in(s, b, i, hi) <= hi,
        first_in(s, b, i, hi) < hi ==> s[first_in(s, b, i, hi)] == b,
    decreases hi - i,
{
    if i < hi && s[i] != b {
        lemma_first_in_bounds(s, b, i + 1, hi);
    }
}

pub proof fn lemma_last_in_bounds(s: Seq<u8>, b: u8, lo: int, hi: int)
    requires
        lo <= hi,
    ensures
        lo - 1 <= last_in(s, b, lo, hi) < hi,
    decreases hi - lo,
{
    if hi > lo && s[hi - 1] != b {
        lemma_last_in_bounds(s, b, lo, hi - 1);
    }
}

/// Index of the first byte `b` in `s[i..hi]`, or `hi`.
pub fn find_in(s: &[u8], b: u8, i: usize, hi: usize) -> (r: usize)
    requires
        i <= hi <= s@.len(),
    ensures
        r as int == first_in(s@, b, i as int, hi as int),
        i <= r <= hi,
{
    proof {
        lemma_first_in_bounds(s@, b, i as int, hi as int);
    }
    let mut j: usize = i;
    while j < hi
        invariant
            i <= j <= hi <= s@.len(),
            first_in(s@, b, i as int, hi as int) == first_in(s@, b, j as int, hi as int),
        decreases hi - j,
    {
        if s[j] == b {
            return j;
        }
        j = j + 1;
    }
    j
}

/// Index of the last byte `b` in `s[lo..hi]`; `None` when there is none.
pub fn find_last_in(s: &[u8], b: u8, lo: usize, hi: usize) -> (r: Option<usize>)
    requires
        lo <= hi <= s@.len(),
    ensures
        match r {
            Some(k) => k as int == last_in(s@, b, lo as int, hi as int),
            None => last_in(s@, b, lo as int, hi as int) == lo - 1,
        },
{
    let mut j: usize = hi;
    while j > lo
        invariant
            lo <= j <= hi <= s@.len(),
            last_in(s@, b, lo as int, hi as int) == last_in(s@, b, lo as int, j as int),
        decreases j,
    {
        if s[j - 1] == b {
            return Some(j - 1);
        }
        j = j - 1;
    }
    None
}

/// Whether `pat` occurs in `s` at `j`.
pub fn matches_at(s: &[u8], j: usize, pat: &[u8]) -> (r: bool)
    ensures
        r == occurs_at(s@, j as int, pat@),
{
    if j > s.len() || pat.len() > s.len() - j {
        return false;
    }
    let mut k: usize = 0;
    while k < pat.len()
        invariant
            j + pat@.len() <= s@.len(),
            s@.len() <= usize::MAX,
            k <= pat@.len(),
            forall|t: int| 0 <= t < k ==> s@[j + t] == pat@[t],
        decreases pat@.len() - k,
    {
        if s[j + k] != pat[k] {
            proof {
                assert(s@.subrange(j as int, j + pat@.len())[k as int] != pat@[k as int]);
            }
            return false;
        }
        k = k + 1;
    }
    proof {
        assert(s@.subrange(j as int, j + pat@.len()) =~= pat@);
    }
    true
}

/// Whether `pat` occurs inside `s[lo..hi]`.
pub fn occurs_within(s: &[u8], lo: usize, hi: usize, pat: &[u8]) -> (r: bool)
    requires
        lo <= hi <= s@.len(),
    ensures
        r == occurs_in(s@, lo as int, hi as int, pat@),
{
    if pat.len() > hi - lo {
        return false;
    }
    if pat.len() == 0 {
        assert(s@.subrange(lo as int, lo as int) =~= pat@);
        assert(occurs_at(s@, lo as int, pat@));
        return true;
    }
    let len: usize = s.len();
    let last: usize = hi - pat.len();
    let mut j: usize = lo;
    while j <= last
        invariant
            lo <= j <= last + 1,
            last + pat@.len() == hi,
            pat@.len() > 0,
            hi <= s@.len(),
            s@.len() == len,
            forall|t: int| lo <= t < j ==> !occurs_at(s@, t, pat@),
        decreases last + 1 - j,
    {
        if matches_at(s, j, pat) {
            return true;
        }
        j = j + 1;
    }
    false
}

/// The line that starts at `start`: where its content stops, and where the
/// next line begins.
pub fn next_line(s: &[u8], start: usize) -> (r: (usize, usize))
    requires
        start < s@.len(),
    ensures
        r.0 as int == line_stop(s@, start as int),
        r.1 as int == after_line(s@, start as int),
        start <= r.0 <= s@.len(),
        start < r.1 <= s@.len(),
{
    let e = find_in(s, 10, start, s.len());
    let stop = if e < s.len() && e > start && s[e - 1] == 13 {
        e - 1
    } else {
        e
    };
    let next = if e < s.len() {
        e + 1
    } else {
        s.len()
    };
    (stop, next)
}

proof fn lemma_digits_grow(s: Seq<u8>, lo: int, k: int, hi: int)
    requires
        lo <= k <= hi,
    ensures
        digits_value(s, lo, k) <= digits_value(s, lo, hi),
    decreases hi - k,
{
    if k < hi {
        lemma_digits_grow(s, lo, k, hi - 1);
    }
}

/// Reads `s[lo..hi]` as an unsigned number no larger than `max`.
pub fn parse_unsigned(s: &[u8], lo: usize, hi: usize, max: u64) -> (r: Option<u64>)
    requires
        lo <= hi <= s@.len(),
        max <= u32::MAX,
    ensures
        match r {
            Some(v) => unsigned_in(s@, lo as int, hi as int, max as nat) == Some(v as nat),
            None => unsigned_in(s@, lo as int, hi as int, max as nat) is None,
        },
{
    let d: usize = if lo < hi && s[lo] == 43 {
        lo + 1
    } else {
        lo
    };
    assert(d as int == (if lo < hi && s@[lo as int] == 43 {
        lo + 1
    } else {
        lo as int
    }));
    if d >= hi {
        return None;
    }
    let mut acc: u64 = 0;
    let mut i: usize = d;
    while i < hi
        invariant
            lo <= d <= i <= hi <= s@.len(),
            d as int == (if lo < hi && s@[lo as int] == 43 {
                lo + 1
            } else {
                lo as int
            }),
            all_digits(s@, d as int, i as int),
            acc as nat == digits_value(s@, d as int, i as int),
            acc <= max,
            max <= u32::MAX,
        decreases hi - i,
    {
        let c = s[i];
        if c < 48 || c > 57 {
            assert(!is_digit(s@[i as int]));
            assert(!all_digits(s@, d as int, hi as int));
            return None;
        }
        assert(acc * 10 <= u32::MAX * 10) by (nonlinear_arith)
            requires
                acc <= u32::MAX,
        ;
        let next: u64 = acc * 10 + (c - 48) as u64;
        if next > max {
            proof {
                assert(digits_value(s@, d as int, i as int + 1) == next as nat);
                lemma_digits_grow(s@, d as int, i as int + 1, hi as int);
                assert(digits_value(s@, d as int, hi as int) > max);
            }
            return None;
        }
        acc = next;
        i = i + 1;
    }
    Some(acc)
}

} // verus!
