//! The interactive table's view state: the displayed records, the selected
//! row and whether a termination awaits confirmation.
use vstd::prelude::*;
use crate::ops::{records_between, scan_ports};
use crate::process::ProcessInfo;
use crate::snapshot::SystemSnapshot;

verus! {

#[derive(Debug, Clone, Copy, PartialEq, Eq, Structural)]
pub enum InputMode {
    Normal,
    /// Waiting for the user to confirm stopping this pid.
    ConfirmKill(u32),
}

/// The least interval between two refreshes that nobody forced, in
/// milliseconds.
pub const REFRESH_INTERVAL_MS: u64 = 2000;

/// Whether a refresh is due: forced, or the interval has passed.
pub fn refresh_due(force: bool, elapsed_ms: u64) -> (r: bool)
    ensures
        r == (force || elapsed_ms >= REFRESH_INTERVAL_MS),
{
    force || elapsed_ms >= REFRESH_INTERVAL_MS
}

pub open spec fn last_index(len: nat) -> nat {
    if len == 0 {
        0
    } else {
        (len - 1) as nat
    }
}

pub struct AppState {
    pub selected: Option<usize>,
    pub processes: Vec<ProcessInfo>,
    pub input_mode: InputMode,
}

/// Every record of a snapshot, sorted by port.
pub open spec fn all_records(snapshot: SystemSnapshot) -> Seq<ProcessInfo> {
    records_between(snapshot.content(), 0, u16::MAX as int)
}

/// The position of the first record of `pid`.
pub open spec fn position_of(ps: Seq<ProcessInfo>, pid: u32) -> Option<int>
    decreases ps.len(),
{
    if ps.len() == 0 {
        None
    } else if ps[0].pid == pid {
        Some(0)
    } else {
        match position_of(ps.drop_first(), pid) {
            Some(i) => Some(i + 1),
            None => None,
        }
    }
}

/// The selection after a refresh: the row of the pid that was selected, if
/// it is still there; else the old index clamped to the new list; with no
/// pid selected, the first row.
pub open spec fn reselect(selected_pid: Option<u32>, old: Option<usize>, ps: Seq<ProcessInfo>) -> Option<usize> {
    match selected_pid {
        Some(pid) => match position_of(ps, pid) {
            Some(i) => Some(i as usize),
            None => {
                let cur: nat = match old {
                    Some(i) => i as nat,
                    None => 0,
                };
                Some(
                    (if cur < last_index(ps.len()) {
                        cur
                    } else {
                        last_index(ps.len())
                    }) as usize,
                )
            },
        },
        None => Some(0),
    }
}

pub open spec fn pid_at(selected: Option<usize>, ps: Seq<ProcessInfo>) -> Option<u32> {
    match selected {
        Some(i) => if i < ps.len() {
            Some(ps[i as int].pid)
        } else {
            None
        },
        None => None,
    }
}

fn find_pid(ps: &Vec<ProcessInfo>, pid: u32) -> (r: Option<usize>)
    ensures
        match r {
            Some(i) => position_of(ps@, pid) == Some(i as int),
            None => position_of(ps@, pid) is None,
        },
{
    let mut i: usize = 0;
    assert(ps@.skip(0) =~= ps@);
    while i < ps.len()
        invariant
            i <= ps@.len(),
            position_of(ps@, pid) == match position_of(ps@.skip(i as int), pid) {
                Some(j) => Some(j + i),
                None => None,
            },
        decreases ps@.len() - i,
    {
        proof {
            assert(ps@.skip(i as int).drop_first() =~= ps@.skip(i + 1));
        }
        if ps[i].pid == pid {
            return Some(i);
        }
        i = i + 1;
    }
    None
}

impl AppState {
    /// All records of the snapshot, sorted by port, with the first row
    /// selected.
    pub fn new(snapshot: &SystemSnapshot) -> (r: AppState)
        ensures
            r.processes@ == all_records(*snapshot),
            r.selected == Some(0usize),
            r.input_mode == InputMode::Normal,
    {
        AppState {
            selected: Some(0),
            processes: scan_ports(snapshot, 0, 65535),
            input_mode: InputMode::Normal,
        }
    }

    /// Moves the selection down, from the last row back to the first.
    pub fn next(&mut self)
        ensures
            final(self).processes == old(self).processes,
            final(self).input_mode == old(self).input_mode,
            final(self).selected == Some(
                match old(self).selected {
                    Some(i) => if i >= last_index(old(self).processes@.len()) {
                        0usize
                    } else {
                        (i + 1) as usize
                    },
                    None => 0usize,
                },
            ),
    {
        let last: usize = if self.processes.len() == 0 {
            0
        } else {
            self.processes.len() - 1
        };
        let i: usize = match self.selected {
            Some(i) => if i >= last {
                0
            } else {
                i + 1
            },
            None => 0,
        };
        self.selected = Some(i);
    }

    /// Moves the selection up, from the first row round to the last.
    pub fn previous(&mut self)
        ensures
            final(self).processes == old(self).processes,
            final(self).input_mode == old(self).input_mode,
            final(self).selected == Some(
                match old(self).selected {
                    Some(i) => if i == 0 {
                        last_index(old(self).processes@.len()) as usize
                    } else {
                        (i - 1) as usize
                    },
                    None => 0usize,
                },
            ),
    {
        let i: usize = match self.selected {
            Some(i) => if i == 0 {
                if self.processes.len() == 0 {
                    0
                } else {
                    self.processes.len() - 1
                }
            } else {
                i - 1
            },
            None => 0,
        };
        self.selected = Some(i);
    }

    /// Asks for confirmation to stop the selected row's process, if a row is
    /// selected.
    pub fn kill_selected(&mut self)
        ensures
            final(self).processes == old(self).processes,
            final(self).selected == old(self).selected,
            final(self).input_mode == match pid_at(old(self).selected, old(self).processes@) {
                Some(pid) => InputMode::ConfirmKill(pid),
                None => old(self).input_mode,
            },
    {
        match self.selected {
            Some(i) => if i < self.processes.len() {
                self.input_mode = InputMode::ConfirmKill(self.processes[i].pid);
            },
            None => {},
        }
    }

    /// The pid awaiting confirmation; the mode returns to normal.
    pub fn confirm_kill(&mut self) -> (r: Option<u32>)
        ensures
            final(self).processes == old(self).processes,
            final(self).selected == old(self).selected,
            final(self).input_mode == InputMode::Normal,
            r == match old(self).input_mode {
                InputMode::ConfirmKill(pid) => Some(pid),
                InputMode::Normal => None,
            },
    {
        let r = match self.input_mode {
            InputMode::ConfirmKill(pid) => Some(pid),
            InputMode::Normal => None,
        };
        self.input_mode = InputMode::Normal;
        r
    }

    pub fn cancel_kill(&mut self)
        ensures
            final(self).processes == old(self).processes,
            final(self).selected == old(self).selected,
            final(self).input_mode == InputMode::Normal,
    {
        self.input_mode = InputMode::Normal;
    }

    /// Replaces the records with those of a new snapshot and keeps the
    /// selection on the same pid where it can.
    pub fn refresh(&mut self, snapshot: &SystemSnapshot)
        ensures
            final(self).processes@ == all_records(*snapshot),
            final(self).input_mode == old(self).input_mode,
            final(self).selected == reselect(
                pid_at(old(self).selected, old(self).processes@),
                old(self).selected,
                all_records(*snapshot),
            ),
    {
        let selected_pid: Option<u32> = match self.selected {
            Some(i) => if i < self.processes.len() {
                Some(self.processes[i].pid)
            } else {
                None
            },
            None => None,
        };
        let processes = scan_ports(snapshot, 0, 65535);
        let last: usize = if processes.len() == 0 {
            0
        } else {
            processes.len() - 1
        };
        let sel: Option<usize> = match selected_pid {
            Some(pid) => match find_pid(&processes, pid) {
                Some(pos) => Some(pos),
                None => {
                    let cur: usize = match self.selected {
                        Some(i) => i,
                        None => 0,
                    };
                    Some(
                        if cur < last {
                            cur
                        } else {
                            last
                        },
                    )
                },
            },
            None => Some(0),
        };
        self.processes = processes;
        self.selected = sel;
    }
}

} // verus!
