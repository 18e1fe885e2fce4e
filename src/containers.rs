//! Reading the host ports that running containers publish out of the
//! container runtime's two-column listing (`<name>\t<port specs>`).
use vstd::prelude::*;
use std::collections::HashMap;
use crate::text::{
    after_line, find_in, find_last_in, first_in, last_in, lemma_first_in_bounds,
    lemma_last_in_bounds, line_stop, lossy_text, next_line, parse_unsigned, text_from_bytes,
    unsigned_in,
};

verus! {

broadcast use vstd::std_specs::hash::group_hash_axioms;

/// Index of the first `->` in `s[i..hi]`, or `hi`.
pub open spec fn arrow_in(s: Seq<u8>, i: int, hi: int) -> int
    decreases hi - i,
{
    if i + 1 >= hi {
        hi
    } else if s[i] == 45 && s[i + 1] == 62 {
        i
    } else {
        arrow_in(s, i + 1, hi)
    }
}

/// The host port of one binding `s[a..b]` such as `0.0.0.0:8080->80/tcp`:
/// the number after the last `:` before the first `->`.
pub open spec fn binding_port(s: Seq<u8>, a: int, b: int) -> Option<nat> {
    let e = arrow_in(s, a, b);
    unsigned_in(s, last_in(s, 58, a, e) + 1, e, u16::MAX as nat)
}

/// The host ports of the comma-separated bindings in `s[a..stop]`, in order.
pub open spec fn bindings_from(s: Seq<u8>, a: int, stop: int) -> Seq<u16>
    decreases stop - a + 1,
    via bindings_from_decreases
{
    if a > stop {
        Seq::empty()
    } else {
        let e = first_in(s, 44, a, stop);
        let here = match binding_port(s, a, e) {
            Some(p) => seq![p as u16],
            None => Seq::empty(),
        };
        if e < stop {
            here + bindings_from(s, e + 1, stop)
        } else {
            here
        }
    }
}

#[via_fn]
proof fn bindings_from_decreases(s: Seq<u8>, a: int, stop: int) {
    if a <= stop {
        lemma_first_in_bounds(s, 44, a, stop);
    }
}

/// The (port, name start, name end) entries of the line `s[lo..hi]`: none
/// unless the line has a tab; the name is what precedes the first tab, the
/// bindings what follows it up to a second tab.
pub open spec fn line_entries(s: Seq<u8>, lo: int, hi: int) -> Seq<(u16, int, int)> {
    let t1 = first_in(s, 9, lo, hi);
    if t1 < hi {
        let t2 = first_in(s, 9, t1 + 1, hi);
        bindings_from(s, t1 + 1, t2).map_values(|p: u16| (p, lo, t1))
    } else {
        Seq::empty()
    }
}

pub open spec fn entries_from(s: Seq<u8>, start: int) -> Seq<(u16, int, int)>
    decreases s.len() - start,
    via entries_from_decreases
{
    if start < 0 || start >= s.len() {
        Seq::empty()
    } else {
        line_entries(s, start, line_stop(s, start)) + entries_from(s, after_line(s, start))
    }
}

#[via_fn]
proof fn entries_from_decreases(s: Seq<u8>, start: int) {
    if 0 <= start < s.len() {
        lemma_first_in_bounds(s, 10, start, s.len() as int);
    }
}

/// The map that entries build when each one in turn sets its port to its
/// name, a later one replacing an earlier one.
pub open spec fn entries_map(s: Seq<u8>, e: Seq<(u16, int, int)>) -> Map<u16, Seq<char>>
    decreases e.len(),
{
    if e.len() == 0 {
        Map::empty()
    } else {
        let x = e.last();
        entries_map(s, e.drop_last()).insert(x.0, lossy_text(s.subrange(x.1, x.2)))
    }
}

/// Port to container name, as the runtime's listing `s` describes it.
pub open spec fn container_map(s: Seq<u8>) -> Map<u16, Seq<char>> {
    entries_map(s, entries_from(s, 0))
}

pub open spec fn names_of(m: Map<u16, String>) -> Map<u16, Seq<char>> {
    m.map_values(|v: String| v@)
}

fn find_arrow(s: &[u8], i: usize, hi: usize) -> (r: usize)
    requires
        i <= hi <= s@.len(),
    ensures
        r as int == arrow_in(s@, i as int, hi as int),
        i <= r <= hi,
{
    let mut j: usize = i;
    while hi > 0 && j < hi - 1
        invariant
            i <= j <= hi <= s@.len(),
            arrow_in(s@, i as int, hi as int) == arrow_in(s@, j as int, hi as int),
        decreases hi - j,
    {
        if s[j] == 45 && s[j + 1] == 62 {
            return j;
        }
        j = j + 1;
    }
    hi
}

proof fn lemma_arrow_bounds(s: Seq<u8>, i: int, hi: int)
    requires
        i <= hi,
    ensures
        i <= arrow_in(s, i, hi) <= hi,
    decreases hi - i,
{
    if i + 1 < hi && !(s[i] == 45 && s[i + 1] == 62) {
        lemma_arrow_bounds(s, i + 1, hi);
    }
}

fn read_binding(s: &[u8], a: usize, b: usize) -> (r: Option<u16>)
    requires
        a <= b <= s@.len(),
    ensures
        match r {
            Some(p) => binding_port(s@, a as int, b as int) == Some(p as nat),
            None => binding_port(s@, a as int, b as int) is None,
        },
{
    let e = find_arrow(s, a, b);
    proof {
        lemma_last_in_bounds(s@, 58, a as int, e as int);
    }
    let start = match find_last_in(s, 58, a, e) {
        Some(c) => c + 1,
        None => a,
    };
    match parse_unsigned(s, start, e, 0xffff) {
        Some(p) => Some(p as u16),
        None => None,
    }
}

proof fn lemma_entries_map_push(s: Seq<u8>, e: Seq<(u16, int, int)>, x: (u16, int, int))
    ensures
        entries_map(s, e.push(x)) == entries_map(s, e).insert(x.0, lossy_text(s.subrange(x.1, x.2))),
{
    assert(e.push(x).drop_last() =~= e);
}

/// Reads the runtime's listing into a map from host port to container name.
pub fn parse_container_ports(s: &[u8]) -> (r: HashMap<u16, String>)
    ensures
        names_of(r@) == container_map(s@),
{
    let mut map: HashMap<u16, String> = HashMap::new();
    let ghost done: Seq<(u16, int, int)> = Seq::empty();
    let mut start: usize = 0;
    proof {
        assert(names_of(map@) =~= entries_map(s@, done));
    }
    while start < s.len()
        invariant
            start <= s@.len(),
            names_of(map@) == entries_map(s@, done),
            done + entries_from(s@, start as int) == entries_from(s@, 0),
        decreases s@.len() - start,
    {
        let (stop, next) = next_line(s, start);
        let t1 = find_in(s, 9, start, stop);
        let ghost line = line_entries(s@, start as int, stop as int);
        let ghost target = done + line;
        if t1 < stop {
            let t2 = find_in(s, 9, t1 + 1, stop);
            let name = text_from_bytes(vstd::slice::slice_subrange(s, start, t1));
            let ghost f = |p: u16| (p, start as int, t1 as int);
            let mut a: usize = t1 + 1;
            let mut more: bool = true;
            while more
                invariant
                    t1 < a <= t2,
                    t2 <= stop <= s@.len(),
                    f == (|p: u16| (p, start as int, t1 as int)),
                    name@ == lossy_text(s@.subrange(start as int, t1 as int)),
                    names_of(map@) == entries_map(s@, done),
                    more ==> done + bindings_from(s@, a as int, t2 as int).map_values(f)
                        == target,
                    !more ==> done == target,
                decreases (t2 - a) * 2 + (if more {
                    1int
                } else {
                    0int
                }),
            {
                let e = find_in(s, 44, a, t2);
                let ghost rest = bindings_from(s@, a as int, t2 as int);
                let ghost old_done = done;
                match read_binding(s, a, e) {
                    Some(p) => {
                        let ghost x = (p, start as int, t1 as int);
                        map.insert(p, name.clone());
                        proof {
                            lemma_entries_map_push(s@, done, x);
                            done = done.push(x);
                            assert(names_of(map@) =~= entries_map(s@, done));
                        }
                    },
                    None => {},
                }
                proof {
                    let here = match binding_port(s@, a as int, e as int) {
                        Some(p) => seq![p as u16],
                        None => Seq::<u16>::empty(),
                    };
                    assert(done == old_done + here.map_values(f));
                    if e < t2 {
                        assert(rest == here + bindings_from(s@, e + 1, t2 as int));
                        assert(rest.map_values(f) =~= here.map_values(f) + bindings_from(
                            s@,
                            e + 1,
                            t2 as int,
                        ).map_values(f));
                        assert(old_done + rest.map_values(f) =~= done + bindings_from(
                            s@,
                            e + 1,
                            t2 as int,
                        ).map_values(f));
                    } else {
                        assert(rest == here);
                        assert(done =~= old_done + rest.map_values(f));
                    }
                }
                if e < t2 {
                    a = e + 1;
                } else {
                    more = false;
                }
            }
        } else {
            assert(line =~= Seq::<(u16, int, int)>::empty());
            assert(done =~= target);
        }
        proof {
            assert(entries_from(s@, start as int) == line + entries_from(s@, next as int));
            assert(target + entries_from(s@, next as int) =~= entries_from(s@, 0));
        }
        start = next;
    }
    map
}

} // verus!
