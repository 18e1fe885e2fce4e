//! The join of the process table, the listening sockets and the container
//! port map into one immutable port-to-processes snapshot.
use vstd::prelude::*;
use vstd::utf8::encode_utf8;
use std::collections::HashMap;
use crate::classify::{ancestors, nearest, walk_answers, determine_kind, find_git_root, kind_rule, resolve_user, user_name_of};
use crate::process::{ProcessInfo, ProcessKind};

verus! {

broadcast use vstd::std_specs::hash::group_hash_axioms;

/// One row of the process table as the operating system reports it.
pub struct ProcessRow {
    pub pid: u32,
    pub uid: Option<u32>,
    pub cmd: String,
    pub cwd: String,
}

/// Port number to the processes seen listening there, in the order seen.
pub struct SystemSnapshot {
    pub processes_by_port: HashMap<u16, Vec<ProcessInfo>>,
}

/// The snapshot's content: each port's list as a sequence.
pub open spec fn groups(m: Map<u16, Vec<ProcessInfo>>) -> Map<u16, Seq<ProcessInfo>> {
    m.map_values(|v: Vec<ProcessInfo>| v@)
}

/// What a snapshot holds on `port`: its list, or nothing.
pub open spec fn lookup(g: Map<u16, Seq<ProcessInfo>>, port: u16) -> Seq<ProcessInfo> {
    if g.contains_key(port) {
        g[port]
    } else {
        Seq::empty()
    }
}

/// Every port key has at least one record; each record sits under its own
/// port and keeps the container invariant.
pub open spec fn groups_wf(g: Map<u16, Seq<ProcessInfo>>) -> bool {
    forall|k: u16|
        #[trigger] g.contains_key(k) ==> g[k].len() > 0 && forall|j: int|
            0 <= j < g[k].len() ==> (#[trigger] g[k][j]).port == k && g[k][j].wf()
}

/// The records grouped by port, each port's list in the records' order.
pub open spec fn group(rs: Seq<ProcessInfo>) -> Map<u16, Seq<ProcessInfo>>
    decreases rs.len(),
{
    if rs.len() == 0 {
        Map::empty()
    } else {
        let g = group(rs.drop_last());
        let r = rs.last();
        g.insert(r.port, lookup(g, r.port).push(r))
    }
}

/// The index of the first row with this pid.
pub open spec fn row_index(rows: Seq<ProcessRow>, pid: u32) -> Option<int>
    decreases rows.len(),
{
    if rows.len() == 0 {
        None
    } else if rows[0].pid == pid {
        Some(0)
    } else {
        match row_index(rows.drop_first(), pid) {
            Some(i) => Some(i + 1),
            None => None,
        }
    }
}

/// The listener pairs whose pid is in the process table, in order.
pub open spec fn known_pairs(rows: Seq<ProcessRow>, ls: Seq<(u32, u16)>) -> Seq<(u32, u16)>
    decreases ls.len(),
{
    if ls.len() == 0 {
        Seq::empty()
    } else {
        let rest = known_pairs(rows, ls.drop_last());
        if row_index(rows, ls.last().0) is Some {
            rest.push(ls.last())
        } else {
            rest
        }
    }
}

/// `info` is the record built for `pid` on `port` from the row `row`: the
/// fields come from the row, the owner's name from the user list, the tag from
/// the rules unless the port is container-published, and the project root is
/// the nearest ancestor of the working directory whose `.git` probe said yes.
pub open spec fn record_fits(
    info: ProcessInfo,
    row: ProcessRow,
    users: Seq<(u32, String)>,
    pid: u32,
    port: u16,
    containers: Map<u16, String>,
) -> bool {
    &&& info.pid == pid
    &&& info.port == port
    &&& info.user@ == user_name_of(row.uid, users)
    &&& info.uid is None
    &&& info.cmd@ == row.cmd@
    &&& info.cwd@ == row.cwd@
    &&& exists|marked: Seq<bool>|
        walk_answers(ancestors(encode_utf8(row.cwd@)), marked) && match info.project_root {
            Some(d) => nearest(ancestors(encode_utf8(row.cwd@)), marked) == Some(d@),
            None => nearest(ancestors(encode_utf8(row.cwd@)), marked) is None,
        }
    &&& if containers.contains_key(port) {
        info.container_name == Some(containers[port]) && info.kind == ProcessKind::Docker
    } else {
        info.container_name is None && info.kind == kind_rule(
            encode_utf8(row.cmd@),
            encode_utf8(row.cwd@),
        )
    }
}

fn find_row(rows: &Vec<ProcessRow>, pid: u32) -> (r: Option<usize>)
    ensures
        match r {
            Some(i) => row_index(rows@, pid) == Some(i as int),
            None => row_index(rows@, pid) is None,
        },
{
    let mut i: usize = 0;
    assert(rows@.skip(0) =~= rows@);
    while i < rows.len()
        invariant
            i <= rows@.len(),
            row_index(rows@, pid) == match row_index(rows@.skip(i as int), pid) {
                Some(j) => Some(j + i),
                None => None,
            },
        decreases rows@.len() - i,
    {
        proof {
            assert(rows@.skip(i as int).drop_first() =~= rows@.skip(i + 1));
        }
        if rows[i].pid == pid {
            return Some(i);
        }
        i = i + 1;
    }
    None
}

proof fn lemma_row_index_bounds(rows: Seq<ProcessRow>, pid: u32)
    ensures
        row_index(rows, pid) matches Some(i) ==> 0 <= i < rows.len() && rows[i].pid == pid,
    decreases rows.len(),
{
    if rows.len() > 0 && rows[0].pid != pid {
        lemma_row_index_bounds(rows.drop_first(), pid);
    }
}

/// Builds the record for `pid` on `port`, or `None` when the process table
/// has no such pid (the process exited in between).
pub fn enrich_process_info(
    rows: &Vec<ProcessRow>,
    users: &Vec<(u32, String)>,
    pid: u32,
    port: u16,
    containers: &HashMap<u16, String>,
) -> (r: Option<ProcessInfo>)
    ensures
        r is None <==> row_index(rows@, pid) is None,
        r matches Some(info) ==> record_fits(
            info,
            rows@[row_index(rows@, pid)->0],
            users@,
            pid,
            port,
            containers@,
        ) && info.wf(),
{
    proof {
        lemma_row_index_bounds(rows@, pid);
    }
    let i = match find_row(rows, pid) {
        Some(i) => i,
        None => return None,
    };
    let row = &rows[i];
    let user = resolve_user(row.uid, users);
    let cmd = row.cmd.clone();
    let cwd = row.cwd.clone();
    let mut kind = determine_kind(cmd.as_str(), cwd.as_str(), user.as_str());
    let project_root = find_git_root(cwd.as_str());
    let mut container_name: Option<String> = None;
    match containers.get(&port) {
        Some(name) => {
            container_name = Some(name.clone());
            kind = ProcessKind::Docker;
        },
        None => {},
    }
    Some(ProcessInfo {
        pid,
        user,
        uid: None,
        cmd,
        cwd,
        project_root,
        container_name,
        kind,
        port,
    })
}

/// The records built for the listener pairs, one for each pair whose pid is in
/// the process table, in the pairs' order.
pub open spec fn records_fit(
    rs: Seq<ProcessInfo>,
    rows: Seq<ProcessRow>,
    users: Seq<(u32, String)>,
    listeners: Seq<(u32, u16)>,
    containers: Map<u16, String>,
) -> bool {
    let k = known_pairs(rows, listeners);
    &&& rs.len() == k.len()
    &&& forall|i: int|
        0 <= i < rs.len() ==> record_fits(
            #[trigger] rs[i],
            rows[row_index(rows, k[i].0)->0],
            users,
            k[i].0,
            k[i].1,
            containers,
        ) && rs[i].wf()
}

/// Builds a record for each listener pair whose process is still in the
/// table; pairs whose process has gone are dropped.
pub fn correlate(
    rows: &Vec<ProcessRow>,
    users: &Vec<(u32, String)>,
    listeners: &Vec<(u32, u16)>,
    containers: &HashMap<u16, String>,
) -> (r: Vec<ProcessInfo>)
    ensures
        records_fit(r@, rows@, users@, listeners@, containers@),
{
    let mut out: Vec<ProcessInfo> = Vec::new();
    let mut i: usize = 0;
    while i < listeners.len()
        invariant
            i <= listeners@.len(),
            records_fit(out@, rows@, users@, listeners@.take(i as int), containers@),
        decreases listeners@.len() - i,
    {
        let (pid, port) = listeners[i];
        let ghost before = out@;
        proof {
            assert(listeners@.take(i + 1).drop_last() =~= listeners@.take(i as int));
        }
        match enrich_process_info(rows, users, pid, port, containers) {
            Some(info) => {
                out.push(info);
            },
            None => {},
        }
        proof {
            let k = known_pairs(rows@, listeners@.take(i + 1));
            let k0 = known_pairs(rows@, listeners@.take(i as int));
            assert forall|j: int| 0 <= j < out@.len() implies record_fits(
                #[trigger] out@[j],
                rows@[row_index(rows@, k[j].0)->0],
                users@,
                k[j].0,
                k[j].1,
                containers@,
            ) && out@[j].wf() by {
                if j < before.len() {
                    assert(k[j] == k0[j]);
                    assert(out@[j] == before[j]);
                }
            }
        }
        i = i + 1;
    }
    proof {
        assert(listeners@.take(listeners@.len() as int) =~= listeners@);
    }
    out
}

proof fn lemma_group_push(rs: Seq<ProcessInfo>, r: ProcessInfo)
    ensures
        group(rs.push(r)) == group(rs).insert(r.port, lookup(group(rs), r.port).push(r)),
{
    assert(rs.push(r).drop_last() =~= rs);
}

/// Groups records by port, keeping each port's records in their order.
pub fn from_records(records: Vec<ProcessInfo>) -> (r: SystemSnapshot)
    ensures
        groups(r.processes_by_port@) == group(records@),
{
    let mut map: HashMap<u16, Vec<ProcessInfo>> = HashMap::new();
    let mut i: usize = 0;
    proof {
        assert(groups(map@) =~= group(records@.take(0)));
    }
    while i < records.len()
        invariant
            i <= records@.len(),
            groups(map@) == group(records@.take(i as int)),
        decreases records@.len() - i,
    {
        let rec = records[i].copied();
        let port = rec.port;
        let ghost g = groups(map@);
        let mut list = match map.remove(&port) {
            Some(v) => v,
            None => Vec::new(),
        };
        proof {
            assert(list@ == lookup(g, port));
        }
        list.push(rec);
        map.insert(port, list);
        proof {
            assert(records@.take(i + 1) =~= records@.take(i as int).push(records@[i as int]));
            lemma_group_push(records@.take(i as int), records@[i as int]);
            assert(groups(map@) =~= g.insert(port, lookup(g, port).push(records@[i as int])));
        }
        i = i + 1;
    }
    proof {
        assert(records@.take(records@.len() as int) =~= records@);
    }
    SystemSnapshot { processes_by_port: map }
}

/// Grouping records that each keep the container invariant gives a
/// well-formed snapshot: no port maps to an empty list.
pub proof fn lemma_group_wf(rs: Seq<ProcessInfo>)
    requires
        forall|i: int| 0 <= i < rs.len() ==> (#[trigger] rs[i]).wf(),
    ensures
        groups_wf(group(rs)),
    decreases rs.len(),
{
    if rs.len() > 0 {
        let g = group(rs.drop_last());
        assert forall|i: int| 0 <= i < rs.drop_last().len() implies (#[trigger] rs.drop_last()[i]).wf() by {
            assert(rs.drop_last()[i] == rs[i]);
        }
        lemma_group_wf(rs.drop_last());
        let r = rs.last();
        let l = lookup(g, r.port).push(r);
        assert forall|k: u16| #[trigger] group(rs).contains_key(k) implies group(rs)[k].len() > 0
            && forall|j: int| 0 <= j < group(rs)[k].len() ==> (#[trigger] group(rs)[k][j]).port == k
            && group(rs)[k][j].wf() by {
            if k == r.port {
                assert(group(rs)[k] == l);
                assert forall|j: int| 0 <= j < l.len() implies (#[trigger] l[j]).port == k && l[j].wf() by {
                    if j < l.len() - 1 {
                        assert(g.contains_key(k));
                    }
                }
            }
        }
    }
}

impl SystemSnapshot {
    /// The snapshot's content, port by port.
    pub open spec fn content(&self) -> Map<u16, Seq<ProcessInfo>> {
        groups(self.processes_by_port@)
    }

    pub open spec fn wf(&self) -> bool {
        groups_wf(self.content())
    }

    /// Joins one reading of the process table, the user list, the listening
    /// sockets and the container port map. Pairs whose pid has gone are
    /// dropped; container evidence decides the tag.
    pub fn from_sources(
        rows: &Vec<ProcessRow>,
        users: &Vec<(u32, String)>,
        listeners: &Vec<(u32, u16)>,
        containers: &HashMap<u16, String>,
    ) -> (r: SystemSnapshot)
        ensures
            r.wf(),
            exists|rs: Seq<ProcessInfo>|
                records_fit(rs, rows@, users@, listeners@, containers@) && r.content() == group(rs),
    {
        let records = correlate(rows, users, listeners, containers);
        let ghost rs = records@;
        let snap = from_records(records);
        proof {
            lemma_group_wf(rs);
        }
        snap
    }

    /// The records listening on `port`, in the order seen; empty if none.
    pub fn get_process_info(&self, port: u16) -> (r: Vec<ProcessInfo>)
        ensures
            r@ == lookup(self.content(), port),
    {
        match self.processes_by_port.get(&port) {
            Some(list) => copy_records(list),
            None => Vec::new(),
        }
    }
}

/// A copy of each record, in order.
pub fn copy_records(v: &Vec<ProcessInfo>) -> (r: Vec<ProcessInfo>)
    ensures
        r@ == v@,
{
    let mut out: Vec<ProcessInfo> = Vec::new();
    let mut i: usize = 0;
    while i < v.len()
        invariant
            i <= v@.len(),
            out@ == v@.take(i as int),
        decreases v@.len() - i,
    {
        out.push(v[i].copied());
        proof {
            assert(v@.take(i + 1) =~= v@.take(i as int).push(v@[i as int]));
        }
        i = i + 1;
    }
    proof {
        assert(v@.take(v@.len() as int) =~= v@);
    }
    out
}

} // verus!
