//! Deriving a process's classification tag, its owner's name and its project
//! root from what the process table reports.
use vstd::prelude::*;
use vstd::string::StringSliceAdditionalSpecFns;
use crate::process::ProcessKind;
use crate::text::{
    find_last_in, last_in, lemma_last_in_bounds, lossy_text, occurs_at, occurs_in,
    occurs_within, matches_at, text_from_bytes,
};

verus! {

pub open spec fn has(hay: Seq<u8>, pat: Seq<u8>) -> bool {
    occurs_in(hay, 0, hay.len() as int, pat)
}

/// The classification rules, first match wins: a container engine in the
/// command name; a workspace or projects segment in the working directory; a
/// system-binary or OS-vendor root; a package-manager prefix; else other.
pub open spec fn kind_rule(cmd: Seq<u8>, cwd: Seq<u8>) -> ProcessKind {
    if has(cmd, "docker".spec_bytes()) || has(cmd, "containerd".spec_bytes()) {
        ProcessKind::Docker
    } else if has(cwd, "/_workspace/".spec_bytes()) || has(cwd, "/_projects/".spec_bytes()) {
        ProcessKind::Dev
    } else if occurs_at(cwd, 0, "/usr/sbin".spec_bytes()) || occurs_at(
        cwd,
        0,
        "/System".spec_bytes(),
    ) {
        ProcessKind::System
    } else if has(cwd, "/opt/homebrew".spec_bytes()) || has(cwd, "/usr/local/Cellar".spec_bytes()) {
        ProcessKind::Brew
    } else {
        ProcessKind::Other
    }
}

fn contains_text(hay: &str, pat: &str) -> (r: bool)
    ensures
        r == has(hay.spec_bytes(), pat.spec_bytes()),
{
    let h = hay.as_bytes();
    occurs_within(h, 0, h.len(), pat.as_bytes())
}

fn begins_with(hay: &str, pat: &str) -> (r: bool)
    ensures
        r == occurs_at(hay.spec_bytes(), 0, pat.spec_bytes()),
{
    matches_at(hay.as_bytes(), 0, pat.as_bytes())
}

/// Classifies a process by its command name and working directory.
pub fn determine_kind(cmd: &str, cwd: &str, _user: &str) -> (r: ProcessKind)
    ensures
        r == kind_rule(cmd.spec_bytes(), cwd.spec_bytes()),
{
    if contains_text(cmd, "docker") || contains_text(cmd, "containerd") {
        return ProcessKind::Docker;
    }
    if contains_text(cwd, "/_workspace/") || contains_text(cwd, "/_projects/") {
        return ProcessKind::Dev;
    }
    if begins_with(cwd, "/usr/sbin") || begins_with(cwd, "/System") {
        return ProcessKind::System;
    }
    if contains_text(cwd, "/opt/homebrew") || contains_text(cwd, "/usr/local/Cellar") {
        return ProcessKind::Brew;
    }
    ProcessKind::Other
}

/// The name of the user with id `uid` in `users`, the first one listed.
pub open spec fn user_name_of(uid: Option<u32>, users: Seq<(u32, String)>) -> Seq<char>
    decreases users.len(),
{
    match uid {
        None => "unknown"@,
        Some(u) => if users.len() == 0 {
            "unknown"@
        } else if users[0].0 == u {
            users[0].1@
        } else {
            user_name_of(uid, users.drop_first())
        },
    }
}

/// The owner's name for a process: the first user listed with its id, or
/// `unknown`.
pub fn resolve_user(uid: Option<u32>, users: &Vec<(u32, String)>) -> (r: String)
    ensures
        r@ == user_name_of(uid, users@),
{
    match uid {
        None => "unknown".to_string(),
        Some(u) => {
            let mut i: usize = 0;
            assert(users@.skip(0) =~= users@);
            while i < users.len()
                invariant
                    i <= users@.len(),
                    uid == Some(u),
                    user_name_of(uid, users@) == user_name_of(uid, users@.skip(i as int)),
                decreases users@.len() - i,
            {
                proof {
                    assert(users@.skip(i as int).drop_first() =~= users@.skip(i + 1));
                }
                if users[i].0 == u {
                    return users[i].1.clone();
                }
                i = i + 1;
            }
            "unknown".to_string()
        },
    }
}

/// The length of the parent directory of the path `p`: what precedes its
/// last `/`, or the root itself when that `/` is the first byte. The root
/// and a path without `/` have no parent.
pub open spec fn parent_len(p: Seq<u8>) -> Option<int> {
    let k = last_in(p, 47, 0, p.len() as int);
    if k < 0 {
        None
    } else if k == 0 {
        if p.len() == 1 {
            None
        } else {
            Some(1)
        }
    } else {
        Some(k)
    }
}

pub proof fn lemma_parent_shorter(p: Seq<u8>)
    ensures
        parent_len(p) matches Some(e) ==> 0 < e < p.len(),
{
    lemma_last_in_bounds(p, 47, 0, p.len() as int);
}

/// The lengths of the directories visited when walking up from `p.take(n)`
/// to the top: `n` first, then each parent in turn.
pub open spec fn walk_lens(p: Seq<u8>, n: int) -> Seq<int>
    decreases n,
    via walk_lens_decreases
{
    if n <= 0 || n > p.len() {
        Seq::empty()
    } else {
        seq![n] + match parent_len(p.take(n)) {
            Some(e) => walk_lens(p, e),
            None => Seq::empty(),
        }
    }
}

#[via_fn]
proof fn walk_lens_decreases(p: Seq<u8>, n: int) {
    lemma_parent_shorter(p.take(n));
}

/// The directories from `p` up to the top, as text.
pub open spec fn ancestors(p: Seq<u8>) -> Seq<Seq<char>> {
    walk_lens(p, p.len() as int).map_values(|n: int| lossy_text(p.take(n)))
}

/// The last directory of every walk from an absolute path is the root.
pub proof fn lemma_walk_ends_at_root(p: Seq<u8>, n: int)
    requires
        0 < n <= p.len(),
        p[0] == 47,
    ensures
        walk_lens(p, n).len() > 0,
        walk_lens(p, n).last() == 1,
    decreases n,
{
    lemma_parent_shorter(p.take(n));
    let k = last_in(p.take(n), 47, 0, n);
    lemma_last_in_bounds(p.take(n), 47, 0, n);
    lemma_last_in_finds_first(p.take(n), n);
    match parent_len(p.take(n)) {
        Some(e) => {
            lemma_walk_ends_at_root(p, e);
            assert(walk_lens(p, n) == seq![n] + walk_lens(p, e));
        },
        None => {
            assert(k == 0 && n == 1);
        },
    }
}

proof fn lemma_last_in_finds_first(q: Seq<u8>, n: int)
    requires
        0 < n <= q.len(),
        q[0] == 47,
    ensures
        last_in(q, 47, 0, n) >= 0,
    decreases n,
{
    if n > 1 && q[n - 1] != 47 {
        lemma_last_in_finds_first(q, n - 1);
    }
}

pub open spec fn texts(v: Seq<String>) -> Seq<Seq<char>> {
    v.map_values(|d: String| d@)
}

/// The directories from `start` up to the top, the path itself first.
pub fn ancestor_dirs(start: &str) -> (r: Vec<String>)
    ensures
        texts(r@) == ancestors(start.spec_bytes()),
{
    let b = start.as_bytes();
    let ghost p = b@;
    let ghost f = |n: int| lossy_text(p.take(n));
    let mut out: Vec<String> = Vec::new();
    let mut n: usize = b.len();
    while n > 0
        invariant
            b@ == p,
            p == start.spec_bytes(),
            f == (|n: int| lossy_text(p.take(n))),
            n <= p.len(),
            texts(out@) + walk_lens(p, n as int).map_values(f) == ancestors(p),
        decreases n,
    {
        let sub = vstd::slice::slice_subrange(b, 0, n);
        proof {
            assert(sub@ =~= p.take(n as int));
            lemma_parent_shorter(p.take(n as int));
            lemma_last_in_bounds(sub@, 47, 0, n as int);
        }
        let dir = text_from_bytes(sub);
        let ghost before = out@;
        let ghost m = n;
        out.push(dir);
        n = match find_last_in(sub, 47, 0, n) {
            None => 0,
            Some(k) => if k == 0 {
                if n == 1 {
                    0
                } else {
                    1
                }
            } else {
                k
            },
        };
        proof {
            assert(walk_lens(p, m as int) == seq![m as int] + walk_lens(p, n as int));
            assert(texts(out@) =~= texts(before).push(f(m as int)));
            assert(walk_lens(p, m as int).map_values(f) =~= seq![f(m as int)] + walk_lens(
                p,
                n as int,
            ).map_values(f));
            assert(texts(out@) + walk_lens(p, n as int).map_values(f) =~= texts(before)
                + walk_lens(p, m as int).map_values(f));
        }
    }
    proof {
        assert(walk_lens(p, 0).map_values(f) =~= Seq::<Seq<char>>::empty());
        assert(texts(out@) + walk_lens(p, 0).map_values(f) =~= texts(out@));
    }
    out
}

/// The first of `dirs` whose answer in `marked` is yes.
pub open spec fn nearest(dirs: Seq<Seq<char>>, marked: Seq<bool>) -> Option<Seq<char>>
    decreases marked.len(),
{
    if marked.len() == 0 || dirs.len() == 0 {
        None
    } else if marked[0] {
        Some(dirs[0])
    } else {
        nearest(dirs.drop_first(), marked.drop_first())
    }
}

/// The first directory whose marker answer is yes; `None` when none is.
pub fn nearest_marked(dirs: &Vec<String>, marked: &Vec<bool>) -> (r: Option<String>)
    requires
        marked@.len() <= dirs@.len(),
    ensures
        match r {
            Some(d) => nearest(texts(dirs@), marked@) == Some(d@),
            None => nearest(texts(dirs@), marked@) is None,
        },
{
    let mut i: usize = 0;
    assert(texts(dirs@).skip(0) =~= texts(dirs@));
    assert(marked@.skip(0) =~= marked@);
    while i < marked.len()
        invariant
            i <= marked@.len() <= dirs@.len(),
            nearest(texts(dirs@), marked@) == nearest(texts(dirs@).skip(i as int), marked@.skip(
                i as int,
            )),
        decreases marked@.len() - i,
    {
        proof {
            assert(texts(dirs@).skip(i as int).drop_first() =~= texts(dirs@).skip(i + 1));
            assert(marked@.skip(i as int).drop_first() =~= marked@.skip(i + 1));
        }
        if marked[i] {
            return Some(dirs[i].clone());
        }
        i = i + 1;
    }
    None
}

/// The answers of a walk that probes the directories in order and stops at
/// the first yes: all but the last are no, and a walk that ends before the
/// top ended on a yes.
pub open spec fn walk_answers(dirs: Seq<Seq<char>>, marked: Seq<bool>) -> bool {
    &&& marked.len() <= dirs.len()
    &&& forall|i: int| 0 <= i < marked.len() - 1 ==> !marked[i]
    &&& marked.len() < dirs.len() ==> marked.len() > 0 && marked.last()
}

/// The path of the `.git` entry inside the directory `d`: no separator is
/// added after a trailing `/`.
pub open spec fn marker_path(d: Seq<char>) -> Seq<char> {
    let b = vstd::utf8::encode_utf8(d);
    if b.len() > 0 && b.last() == 47 {
        d + ".git"@
    } else {
        d + "/.git"@
    }
}

/// Relies on `Path::exists`: whether something is at `path`. It depends on
/// the disk, so nothing is stated of it.
#[verifier::external_body]
fn path_exists(path: &str) -> bool {
    std::path::Path::new(path).exists()
}

fn marker_of(d: &String) -> (r: String)
    ensures
        r@ == marker_path(d@),
{
    let b = d.as_str().as_bytes();
    let copy = d.clone();
    if b.len() > 0 && b[b.len() - 1] == 47 {
        copy.concat(".git")
    } else {
        copy.concat("/.git")
    }
}

/// Walks from `start` up to the top directory, probing each directory's
/// `.git` entry in turn, and returns the first that has one. An empty path
/// has none; a walk that finds none returns `None`.
pub fn find_git_root(start: &str) -> (r: Option<String>)
    ensures
        exists|marked: Seq<bool>|
            walk_answers(ancestors(start.spec_bytes()), marked) && match r {
                Some(d) => nearest(ancestors(start.spec_bytes()), marked) == Some(d@),
                None => nearest(ancestors(start.spec_bytes()), marked) is None,
            },
{
    let dirs = ancestor_dirs(start);
    let mut marked: Vec<bool> = Vec::new();
    let mut i: usize = 0;
    let mut found: bool = false;
    while i < dirs.len() && !found
        invariant
            i == marked@.len(),
            i <= dirs@.len(),
            forall|j: int| 0 <= j < i - 1 ==> !marked@[j],
            found ==> i > 0 && marked@[i - 1],
            !found ==> forall|j: int| 0 <= j < i ==> !marked@[j],
        decreases dirs@.len() - i,
    {
        let path = marker_of(&dirs[i]);
        let yes = path_exists(path.as_str());
        marked.push(yes);
        found = yes;
        i = i + 1;
    }
    let r = nearest_marked(&dirs, &marked);
    proof {
        assert(walk_answers(ancestors(start.spec_bytes()), marked@));
    }
    r
}

} // verus!
