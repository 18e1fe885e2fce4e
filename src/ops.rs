//! Queries over a snapshot: the records in a port range, and the choice of a
//! free port from bind probes.
use vstd::prelude::*;
use crate::process::ProcessInfo;
use crate::snapshot::{groups_wf, lookup, SystemSnapshot};

verus! {

broadcast use vstd::std_specs::hash::group_hash_axioms;

/// The records on the ports `lo..=hi`, port by port in ascending order, each
/// port's records in their order.
pub open spec fn records_between(g: Map<u16, Seq<ProcessInfo>>, lo: int, hi: int) -> Seq<
    ProcessInfo,
>
    decreases hi - lo + 1,
{
    if hi < lo {
        Seq::empty()
    } else {
        records_between(g, lo, hi - 1) + lookup(g, hi as u16)
    }
}

/// The records listening on a port in `from..=to`, sorted by port.
pub fn scan_ports(snapshot: &SystemSnapshot, from: u16, to: u16) -> (r: Vec<ProcessInfo>)
    ensures
        r@ == records_between(snapshot.content(), from as int, to as int),
{
    let mut out: Vec<ProcessInfo> = Vec::new();
    if from > to {
        return out;
    }
    let mut p: u32 = from as u32;
    while p <= to as u32
        invariant
            from <= p <= to as u32 + 1,
            out@ == records_between(snapshot.content(), from as int, p - 1),
        decreases to as u32 + 1 - p,
    {
        let mut here = snapshot.get_process_info(p as u16);
        out.append(&mut here);
        p = p + 1;
    }
    out
}

/// What a scan returns, for a well-formed snapshot and any range: every record
/// lies in the range, the ports never decrease, and a record is returned
/// exactly when a lookup of its port in the range gives it.
pub proof fn lemma_scan_sorted(g: Map<u16, Seq<ProcessInfo>>, lo: int, hi: int)
    requires
        groups_wf(g),
        0 <= lo,
        hi <= u16::MAX,
    ensures
        forall|i: int|
            0 <= i < records_between(g, lo, hi).len() ==> lo <= (#[trigger] records_between(
                g,
                lo,
                hi,
            )[i]).port <= hi,
        forall|i: int, j: int|
            0 <= i < j < records_between(g, lo, hi).len() ==> (#[trigger] records_between(
                g,
                lo,
                hi,
            )[i]).port <= (#[trigger] records_between(g, lo, hi)[j]).port,
        forall|x: ProcessInfo|
            #[trigger] records_between(g, lo, hi).contains(x) <==> (lo <= x.port <= hi && lookup(
                g,
                x.port,
            ).contains(x)),
    decreases hi - lo + 1,
{
    if hi >= lo {
        lemma_scan_sorted(g, lo, hi - 1);
        let a = records_between(g, lo, hi - 1);
        let l = lookup(g, hi as u16);
        let r = records_between(g, lo, hi);
        assert(r == a + l);
        assert forall|i: int| 0 <= i < l.len() implies (#[trigger] l[i]).port == hi by {
            assert(g.contains_key(hi as u16));
        }
        assert forall|i: int| 0 <= i < r.len() implies lo <= (#[trigger] r[i]).port <= hi by {
            if i >= a.len() {
                assert(r[i] == l[i - a.len()]);
            }
        }
        assert forall|i: int, j: int| 0 <= i < j < r.len() implies (#[trigger] r[i]).port <= (
        #[trigger] r[j]).port by {
            if j >= a.len() {
                assert(r[j] == l[j - a.len()]);
            }
        }
        assert forall|x: ProcessInfo| #[trigger] r.contains(x) <==> (lo <= x.port <= hi && lookup(
            g,
            x.port,
        ).contains(x)) by {
            if r.contains(x) {
                let i = choose|i: int| 0 <= i < r.len() && r[i] == x;
                if i >= a.len() {
                    assert(r[i] == l[i - a.len()]);
                    assert(x.port == hi);
                } else {
                    assert(a[i] == x);
                    assert(a.contains(x));
                }
            }
            if lo <= x.port <= hi && lookup(g, x.port).contains(x) {
                if x.port == hi {
                    let i = choose|i: int| 0 <= i < l.len() && l[i] == x;
                    assert(r[a.len() + i] == x);
                } else {
                    assert(a.contains(x));
                    let i = choose|i: int| 0 <= i < a.len() && a[i] == x;
                    assert(r[i] == x);
                }
            }
        }
    }
}

/// Nothing observed means nothing scanned.
pub proof fn lemma_scan_empty(g: Map<u16, Seq<ProcessInfo>>, lo: int, hi: int)
    requires
        g.dom().is_empty(),
    ensures
        records_between(g, lo, hi).len() == 0,
    decreases hi - lo + 1,
{
    if hi >= lo {
        lemma_scan_empty(g, lo, hi - 1);
        assert(!g.contains_key(hi as u16));
    }
}

#[derive(Debug, Clone, Copy, PartialEq, Eq, Structural)]
pub enum SuggestError {
    /// Every port of the range failed the bind probe.
    NotFound,
}

/// The index of the first successful probe among the first `n`, if any.
pub open spec fn first_bindable(bindable: Seq<bool>, n: int) -> Option<int>
    decreases n,
{
    if n <= 0 {
        None
    } else {
        match first_bindable(bindable, n - 1) {
            Some(i) => Some(i),
            None => if bindable[n - 1] {
                Some(n - 1)
            } else {
                None
            },
        }
    }
}

/// How many of the probes belong to ports in `base..=max`.
pub open spec fn probes_in_range(base: u16, max: u16, len: int) -> int {
    if max < base {
        0
    } else if len < max - base + 1 {
        len
    } else {
        max - base + 1
    }
}

/// Picks the first port in `base..=max` whose bind probe succeeded, where
/// `bindable[i]` is the probe of `base + i`.
pub fn suggest_port(base: u16, max: u16, bindable: &Vec<bool>) -> (r: Result<u16, SuggestError>)
    ensures
        match first_bindable(bindable@, probes_in_range(base, max, bindable@.len() as int)) {
            Some(i) => r == Ok::<u16, SuggestError>((base + i) as u16),
            None => r == Err::<u16, SuggestError>(SuggestError::NotFound),
        },
{
    if max < base {
        return Err(SuggestError::NotFound);
    }
    let span: usize = (max - base) as usize + 1;
    let n: usize = if bindable.len() < span {
        bindable.len()
    } else {
        span
    };
    let mut i: usize = 0;
    while i < n
        invariant
            i <= n <= bindable@.len(),
            n as int == probes_in_range(base, max, bindable@.len() as int),
            n <= max - base + 1,
            first_bindable(bindable@, i as int) is None,
        decreases n - i,
    {
        if bindable[i] {
            assert(first_bindable(bindable@, i + 1) == Some(i as int));
            proof {
                lemma_first_bindable_stays(bindable@, i + 1, n as int);
            }
            return Ok(base + i as u16);
        }
        i = i + 1;
    }
    Err(SuggestError::NotFound)
}

proof fn lemma_first_bindable_stays(b: Seq<bool>, m: int, n: int)
    requires
        0 <= m <= n,
        first_bindable(b, m) is Some,
    ensures
        first_bindable(b, n) == first_bindable(b, m),
    decreases n - m,
{
    if n > m {
        lemma_first_bindable_stays(b, m, n - 1);
    }
}

proof fn lemma_first_bindable_bounds(b: Seq<bool>, n: int)
    ensures
        first_bindable(b, n) matches Some(i) ==> 0 <= i < n && b[i],
        first_bindable(b, n) is None ==> forall|i: int| 0 <= i < n ==> !b[i],
    decreases n,
{
    if n > 0 {
        lemma_first_bindable_bounds(b, n - 1);
    }
}

/// A suggested port lies in `base..=max` and its probe succeeded; when the
/// probes cover the whole range, the search fails exactly when every probe
/// failed.
pub proof fn lemma_suggest_in_range(base: u16, max: u16, bindable: Seq<bool>)
    ensures
        first_bindable(bindable, probes_in_range(base, max, bindable.len() as int)) matches Some(i)
            ==> base <= base + i <= max && bindable[i],
        bindable.len() == max - base + 1 ==> (first_bindable(
            bindable,
            probes_in_range(base, max, bindable.len() as int),
        ) is None <==> forall|i: int| 0 <= i < bindable.len() ==> !bindable[i]),
{
    let n = probes_in_range(base, max, bindable.len() as int);
    lemma_first_bindable_bounds(bindable, n);
}

} // verus!
