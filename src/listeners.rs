//! Reading the (pid, port) pairs of listening TCP sockets out of the text
//! that the platform's socket-listing tool prints.
use vstd::prelude::*;
use vstd::string::StringSliceAdditionalSpecFns;
use crate::text::{after_line, find_last_in, last_in, lemma_first_in_bounds, lemma_last_in_bounds, line_stop, next_line, occurs_at, matches_at, parse_unsigned, unsigned_in};

verus! {

/// What one line of field output does: a `p` line sets the current pid (or
/// clears it when the rest is no number), an `n` line yields a pair when a pid
/// is current and the text after its last `:` is a port.
pub open spec fn field_line(s: Seq<u8>, lo: int, hi: int, pid: Option<u32>) -> (
    Option<u32>,
    Seq<(u32, u16)>,
) {
    if lo < hi && s[lo] == 112 {
        (
            match unsigned_in(s, lo + 1, hi, u32::MAX as nat) {
                Some(v) => Some(v as u32),
                None => None,
            },
            Seq::empty(),
        )
    } else if lo < hi && s[lo] == 110 && pid is Some {
        let c = last_in(s, 58, lo + 1, hi);
        match unsigned_in(s, c + 1, hi, u16::MAX as nat) {
            Some(port) => (pid, seq![(pid->0, port as u16)]),
            None => (pid, Seq::empty()),
        }
    } else {
        (pid, Seq::empty())
    }
}

/// The pairs read from the lines of `s` that start at `start` or later,
/// with `pid` current.
pub open spec fn field_pairs_from(s: Seq<u8>, start: int, pid: Option<u32>) -> Seq<(u32, u16)>
    decreases s.len() - start,
    via field_pairs_from_decreases
{
    if start < 0 || start >= s.len() {
        Seq::empty()
    } else {
        let r = field_line(s, start, line_stop(s, start), pid);
        r.1 + field_pairs_from(s, after_line(s, start), r.0)
    }
}

#[via_fn]
proof fn field_pairs_from_decreases(s: Seq<u8>, start: int, pid: Option<u32>) {
    if 0 <= start < s.len() {
        lemma_first_in_bounds(s, 10, start, s.len() as int);
    }
}

/// The pairs that the POSIX socket lister's field output (`p<pid>` and
/// `n<address>:<port>` lines) describes, in order.
pub open spec fn field_pairs(s: Seq<u8>) -> Seq<(u32, u16)> {
    field_pairs_from(s, 0, None)
}

fn read_field_line(s: &[u8], lo: usize, hi: usize, pid: Option<u32>) -> (r: (
    Option<u32>,
    Option<(u32, u16)>,
))
    requires
        lo <= hi <= s@.len(),
    ensures
        r.0 == field_line(s@, lo as int, hi as int, pid).0,
        field_line(s@, lo as int, hi as int, pid).1 == match r.1 {
            Some(p) => seq![p],
            None => Seq::<(u32, u16)>::empty(),
        },
{
    if lo < hi && s[lo] == 112 {
        let v = parse_unsigned(s, lo + 1, hi, 0xffff_ffff);
        match v {
            Some(n) => (Some(n as u32), None),
            None => (None, None),
        }
    } else if lo < hi && s[lo] == 110 && pid.is_some() {
        proof {
            lemma_last_in_bounds(s@, 58, lo + 1, hi as int);
        }
        let start = match find_last_in(s, 58, lo + 1, hi) {
            Some(c) => c + 1,
            None => lo + 1,
        };
        match parse_unsigned(s, start, hi, 0xffff) {
            Some(port) => (pid, Some((pid.unwrap(), port as u16))),
            None => (pid, None),
        }
    } else {
        (pid, None)
    }
}

/// Parses the POSIX socket lister's field output into (pid, port) pairs.
pub fn parse_field_output(s: &[u8]) -> (r: Vec<(u32, u16)>)
    ensures
        r@ == field_pairs(s@),
{
    let mut out: Vec<(u32, u16)> = Vec::new();
    let mut pid: Option<u32> = None;
    let mut start: usize = 0;
    while start < s.len()
        invariant
            start <= s@.len(),
            out@ + field_pairs_from(s@, start as int, pid) == field_pairs(s@),
        decreases s@.len() - start,
    {
        let (stop, next) = next_line(s, start);
        let (p, found) = read_field_line(s, start, stop, pid);
        let ghost before = out@;
        let ghost line = field_line(s@, start as int, stop as int, pid);
        match found {
            Some(pair) => out.push(pair),
            None => {},
        }
        proof {
            assert(out@ == before + line.1);
            assert(field_pairs_from(s@, start as int, pid) == line.1 + field_pairs_from(
                s@,
                next as int,
                p,
            ));
            assert(before + (line.1 + field_pairs_from(s@, next as int, p)) =~= out@
                + field_pairs_from(s@, next as int, p));
        }
        pid = p;
        start = next;
    }
    out
}

pub open spec fn is_blank(b: u8) -> bool {
    b == 32 || (9 <= b && b <= 13)
}

/// The spans of the blank-separated words of `s[i..hi]`, where `cur` is the
/// start of a word that is already open at `i`.
pub open spec fn words_from(s: Seq<u8>, i: usize, hi: usize, cur: Option<usize>) -> Seq<
    (usize, usize),
>
    decreases hi - i,
{
    if i >= hi {
        match cur {
            Some(st) => seq![(st, hi)],
            None => Seq::empty(),
        }
    } else if is_blank(s[i as int]) {
        match cur {
            Some(st) => seq![(st, i)] + words_from(s, (i + 1) as usize, hi, None),
            None => words_from(s, (i + 1) as usize, hi, None),
        }
    } else {
        words_from(
            s,
            (i + 1) as usize,
            hi,
            match cur {
                Some(st) => Some(st),
                None => Some(i),
            },
        )
    }
}

/// Whether the word at `span` is exactly `pat`.
pub open spec fn word_is(s: Seq<u8>, span: (usize, usize), pat: Seq<u8>) -> bool {
    span.1 - span.0 == pat.len() && occurs_at(s, span.0 as int, pat)
}

/// The pair that one line of the connection table yields: only a line of at
/// least five words whose fourth word, the state column, is `LISTENING`; its
/// second word ends in `:<port>` and its last word is the pid. The table is
/// ASCII, so words are split at ASCII blanks only.
pub open spec fn table_line(s: Seq<u8>, lo: usize, hi: usize) -> Seq<(u32, u16)> {
    let w = words_from(s, lo, hi, None);
    if w.len() >= 5 && word_is(s, w[3], "LISTENING".spec_bytes()) {
        let a = w[1];
        let p = w[w.len() - 1];
        let c = last_in(s, 58, a.0 as int, a.1 as int);
        match (unsigned_in(s, c + 1, a.1 as int, u16::MAX as nat), unsigned_in(s, p.0 as int, p.1 as int, u32::MAX as nat)) {
            (Some(port), Some(pid)) => seq![(pid as u32, port as u16)],
            _ => Seq::empty(),
        }
    } else {
        Seq::empty()
    }
}

pub open spec fn table_pairs_from(s: Seq<u8>, start: int) -> Seq<(u32, u16)>
    decreases s.len() - start,
    via table_pairs_from_decreases
{
    if start < 0 || start >= s.len() {
        Seq::empty()
    } else {
        table_line(s, start as usize, line_stop(s, start) as usize) + table_pairs_from(
            s,
            after_line(s, start),
        )
    }
}

#[via_fn]
proof fn table_pairs_from_decreases(s: Seq<u8>, start: int) {
    if 0 <= start < s.len() {
        lemma_first_in_bounds(s, 10, start, s.len() as int);
    }
}

/// The pairs that the Windows connection table describes, in order.
pub open spec fn table_pairs(s: Seq<u8>) -> Seq<(u32, u16)> {
    table_pairs_from(s, 0)
}

proof fn lemma_words_in_range(s: Seq<u8>, i: usize, hi: usize, cur: Option<usize>)
    requires
        i <= hi,
        match cur {
            Some(st) => st <= i,
            None => true,
        },
    ensures
        forall|k: int|
            0 <= k < words_from(s, i, hi, cur).len() ==> {
                let w = #[trigger] words_from(s, i, hi, cur)[k];
                w.0 <= w.1 <= hi && match cur {
                    Some(st) => st <= w.0,
                    None => i <= w.0,
                }
            },
    decreases hi - i,
{
    if i < hi {
        let ws = words_from(s, i, hi, cur);
        if is_blank(s[i as int]) {
            let rest = words_from(s, (i + 1) as usize, hi, None);
            lemma_words_in_range(s, (i + 1) as usize, hi, None);
            match cur {
                Some(st) => {
                    assert forall|k: int| 0 <= k < ws.len() implies {
                        let w = #[trigger] ws[k];
                        w.0 <= w.1 <= hi && st <= w.0
                    } by {
                        if k > 0 {
                            assert(ws[k] == rest[k - 1]);
                        }
                    }
                },
                None => {
                    assert(ws == rest);
                },
            }
        } else {
            let next = match cur {
                Some(st) => Some(st),
                None => Some(i),
            };
            lemma_words_in_range(s, (i + 1) as usize, hi, next);
            assert(ws == words_from(s, (i + 1) as usize, hi, next));
        }
    }
}

fn split_words(s: &[u8], lo: usize, hi: usize) -> (r: Vec<(usize, usize)>)
    requires
        lo <= hi <= s@.len(),
    ensures
        r@ == words_from(s@, lo, hi, None),
{
    let mut out: Vec<(usize, usize)> = Vec::new();
    let mut cur: Option<usize> = None;
    let mut i: usize = lo;
    while i < hi
        invariant
            lo <= i <= hi <= s@.len(),
            out@ + words_from(s@, i, hi, cur) == words_from(s@, lo, hi, None),
        decreases hi - i,
    {
        let ghost before = out@;
        if s[i] == 32 || (9 <= s[i] && s[i] <= 13) {
            match cur {
                Some(st) => {
                    out.push((st, i));
                    proof {
                        assert(before + words_from(s@, i, hi, cur) =~= out@ + words_from(
                            s@,
                            (i + 1) as usize,
                            hi,
                            None,
                        ));
                    }
                },
                None => {},
            }
            cur = None;
        } else if cur.is_none() {
            cur = Some(i);
        }
        i = i + 1;
    }
    match cur {
        Some(st) => {
            let ghost before = out@;
            out.push((st, hi));
            proof {
                assert(before + words_from(s@, i, hi, Some(st)) =~= out@);
            }
        },
        None => {
            assert(out@ + words_from(s@, i, hi, cur) =~= out@);
        },
    }
    out
}

fn read_table_line(s: &[u8], lo: usize, hi: usize) -> (r: Option<(u32, u16)>)
    requires
        lo <= hi <= s@.len(),
    ensures
        table_line(s@, lo, hi) == match r {
            Some(p) => seq![p],
            None => Seq::<(u32, u16)>::empty(),
        },
{
    let w = split_words(s, lo, hi);
    if w.len() < 5 {
        return None;
    }
    proof {
        lemma_words_in_range(s@, lo, hi, None);
        assert(w@[3] == words_from(s@, lo, hi, None)[3]);
    }
    let (state_lo, state_hi) = w[3];
    let pat = "LISTENING".as_bytes();
    if state_hi - state_lo != pat.len() || !matches_at(s, state_lo, pat) {
        return None;
    }
    proof {
        assert(w@[1] == words_from(s@, lo, hi, None)[1]);
        assert(w@[w@.len() - 1] == words_from(s@, lo, hi, None)[w@.len() - 1]);
    }
    let (addr_lo, addr_hi) = w[1];
    let (pid_lo, pid_hi) = w[w.len() - 1];
    proof {
        lemma_last_in_bounds(s@, 58, addr_lo as int, addr_hi as int);
    }
    let start = match find_last_in(s, 58, addr_lo, addr_hi) {
        Some(c) => c + 1,
        None => addr_lo,
    };
    let port = parse_unsigned(s, start, addr_hi, 0xffff);
    let pid = parse_unsigned(s, pid_lo, pid_hi, 0xffff_ffff);
    match (port, pid) {
        (Some(port), Some(pid)) => Some((pid as u32, port as u16)),
        _ => None,
    }
}

/// Parses the Windows connection table into (pid, port) pairs.
pub fn parse_table_output(s: &[u8]) -> (r: Vec<(u32, u16)>)
    ensures
        r@ == table_pairs(s@),
{
    let mut out: Vec<(u32, u16)> = Vec::new();
    let mut start: usize = 0;
    while start < s.len()
        invariant
            start <= s@.len(),
            out@ + table_pairs_from(s@, start as int) == table_pairs(s@),
        decreases s@.len() - start,
    {
        let (stop, next) = next_line(s, start);
        let found = read_table_line(s, start, stop);
        let ghost before = out@;
        let ghost line = table_line(s@, start, stop);
        match found {
            Some(pair) => out.push(pair),
            None => {},
        }
        proof {
            assert(out@ == before + line);
            assert(before + (line + table_pairs_from(s@, next as int)) =~= out@ + table_pairs_from(
                s@,
                next as int,
            ));
        }
        start = next;
    }
    out
}

/// The listener pairs that the platform's socket-listing tool printed: the
/// connection table on Windows, the field output elsewhere.
pub fn get_all_listening_ports(output: &[u8], windows: bool) -> (r: Vec<(u32, u16)>)
    ensures
        r@ == if windows {
            table_pairs(output@)
        } else {
            field_pairs(output@)
        },
{
    if windows {
        parse_table_output(output)
    } else {
        parse_field_output(output)
    }
}

} // verus!
