//! Graduated termination as a state machine: each phase names the next
//! action (send a signal, wait and probe, or finish), and the answer to that
//! action decides the next phase. Whoever runs it performs the actions.
use vstd::prelude::*;
use vstd::string::StringSliceAdditionalSpecFns;
use crate::text::matches_at;

verus! {

#[derive(Debug, Clone, Copy, PartialEq, Eq, Structural)]
pub enum Signal {
    Interrupt,
    Terminate,
    Kill,
}

#[derive(Debug, Clone, Copy, PartialEq, Eq, Structural)]
pub enum Outcome {
    /// Dry run: the pid that would have been signalled.
    WouldKill(u32),
    /// The one requested signal was delivered.
    Sent(Signal),
    ExitedAfterInterrupt,
    ExitedAfterTerminate,
    /// Still alive after the graduated signals; the kill signal was sent.
    ForcedAfterGraduated,
    /// The process was not there to signal.
    NotFound,
    /// Delivering this signal failed.
    SendFailed(Signal),
}

#[derive(Debug, Clone, Copy, PartialEq, Eq, Structural)]
pub enum Phase {
    Interrupt,
    ProbeAfterInterrupt,
    Terminate,
    ProbeAfterTerminate,
    FinalKill,
    /// Send this one signal, then stop.
    Direct(Signal),
    Done(Outcome),
}

#[derive(Debug, Clone, Copy, PartialEq, Eq, Structural)]
pub enum Action {
    Send(Signal),
    /// Wait the fixed delay, then check whether the process is alive.
    WaitAndProbe,
    Finish(Outcome),
}

/// The answer to an action. To a send: `Yes` when the signal was delivered,
/// `No` when there is no such process, `Denied` when delivery was refused.
/// To a probe: `Yes` when the process is alive, `No` when it is gone,
/// `Denied` when it exists but may not be signalled (so it is alive).
#[derive(Debug, Clone, Copy, PartialEq, Eq, Structural)]
pub enum Answer {
    Yes,
    No,
    Denied,
}

#[derive(Debug, Clone, Copy, PartialEq, Eq, Structural)]
pub enum KillError {
    UnknownSignal,
}

pub open spec fn action_spec(p: Phase) -> Action {
    match p {
        Phase::Interrupt => Action::Send(Signal::Interrupt),
        Phase::ProbeAfterInterrupt => Action::WaitAndProbe,
        Phase::Terminate => Action::Send(Signal::Terminate),
        Phase::ProbeAfterTerminate => Action::WaitAndProbe,
        Phase::FinalKill => Action::Send(Signal::Kill),
        Phase::Direct(s) => Action::Send(s),
        Phase::Done(o) => Action::Finish(o),
    }
}

/// The phase after `p` given the answer to its action. A refused delivery
/// ends in an error; a process that has gone ends the run as not found.
pub open spec fn next_spec(p: Phase, answer: Answer) -> Phase {
    match p {
        Phase::Interrupt => match answer {
            Answer::Yes => Phase::ProbeAfterInterrupt,
            Answer::No => Phase::Done(Outcome::NotFound),
            Answer::Denied => Phase::Done(Outcome::SendFailed(Signal::Interrupt)),
        },
        Phase::ProbeAfterInterrupt => match answer {
            Answer::No => Phase::Done(Outcome::ExitedAfterInterrupt),
            _ => Phase::Terminate,
        },
        Phase::Terminate => match answer {
            Answer::Yes => Phase::ProbeAfterTerminate,
            Answer::No => Phase::Done(Outcome::NotFound),
            Answer::Denied => Phase::Done(Outcome::SendFailed(Signal::Terminate)),
        },
        Phase::ProbeAfterTerminate => match answer {
            Answer::No => Phase::Done(Outcome::ExitedAfterTerminate),
            _ => Phase::FinalKill,
        },
        Phase::FinalKill => match answer {
            Answer::Yes => Phase::Done(Outcome::ForcedAfterGraduated),
            Answer::No => Phase::Done(Outcome::NotFound),
            Answer::Denied => Phase::Done(Outcome::SendFailed(Signal::Kill)),
        },
        Phase::Direct(s) => match answer {
            Answer::Yes => Phase::Done(Outcome::Sent(s)),
            Answer::No => Phase::Done(Outcome::NotFound),
            Answer::Denied => Phase::Done(Outcome::SendFailed(s)),
        },
        Phase::Done(o) => Phase::Done(o),
    }
}

impl Phase {
    /// What to do in this phase.
    pub fn action(&self) -> (r: Action)
        ensures
            r == action_spec(*self),
    {
        match *self {
            Phase::Interrupt => Action::Send(Signal::Interrupt),
            Phase::ProbeAfterInterrupt => Action::WaitAndProbe,
            Phase::Terminate => Action::Send(Signal::Terminate),
            Phase::ProbeAfterTerminate => Action::WaitAndProbe,
            Phase::FinalKill => Action::Send(Signal::Kill),
            Phase::Direct(s) => Action::Send(s),
            Phase::Done(o) => Action::Finish(o),
        }
    }

    /// The phase that follows, given the answer to this phase's action.
    pub fn next(&self, answer: Answer) -> (r: Phase)
        ensures
            r == next_spec(*self, answer),
    {
        let p = *self;
            match p {
            Phase::Interrupt => match answer {
                Answer::Yes => Phase::ProbeAfterInterrupt,
                Answer::No => Phase::Done(Outcome::NotFound),
                Answer::Denied => Phase::Done(Outcome::SendFailed(Signal::Interrupt)),
            },
            Phase::ProbeAfterInterrupt => match answer {
                Answer::No => Phase::Done(Outcome::ExitedAfterInterrupt),
                _ => Phase::Terminate,
            },
            Phase::Terminate => match answer {
                Answer::Yes => Phase::ProbeAfterTerminate,
                Answer::No => Phase::Done(Outcome::NotFound),
                Answer::Denied => Phase::Done(Outcome::SendFailed(Signal::Terminate)),
            },
            Phase::ProbeAfterTerminate => match answer {
                Answer::No => Phase::Done(Outcome::ExitedAfterTerminate),
                _ => Phase::FinalKill,
            },
            Phase::FinalKill => match answer {
                Answer::Yes => Phase::Done(Outcome::ForcedAfterGraduated),
                Answer::No => Phase::Done(Outcome::NotFound),
                Answer::Denied => Phase::Done(Outcome::SendFailed(Signal::Kill)),
            },
            Phase::Direct(s) => match answer {
                Answer::Yes => Phase::Done(Outcome::Sent(s)),
                Answer::No => Phase::Done(Outcome::NotFound),
                Answer::Denied => Phase::Done(Outcome::SendFailed(s)),
            },
            Phase::Done(o) => Phase::Done(o),
        }
    }
}

/// The signals delivered while `p` runs through the answers `a`: each phase
/// whose action is a send, and which got its answer, sent its signal.
pub open spec fn signals_sent(p: Phase, a: Seq<Answer>) -> Seq<Signal>
    decreases a.len(),
{
    if a.len() == 0 {
        Seq::empty()
    } else {
        let here = match action_spec(p) {
            Action::Send(s) => seq![s],
            _ => Seq::empty(),
        };
        here + signals_sent(next_spec(p, a[0]), a.drop_first())
    }
}

/// The phase reached from `p` after the answers `a`.
pub open spec fn run_to(p: Phase, a: Seq<Answer>) -> Phase
    decreases a.len(),
{
    if a.len() == 0 {
        p
    } else {
        run_to(next_spec(p, a[0]), a.drop_first())
    }
}

/// The signal that an upper-case name stands for.
pub open spec fn signal_named(u: Seq<u8>) -> Option<Signal> {
    if u == "INT".spec_bytes() {
        Some(Signal::Interrupt)
    } else if u == "TERM".spec_bytes() {
        Some(Signal::Terminate)
    } else if u == "KILL".spec_bytes() {
        Some(Signal::Kill)
    } else {
        None
    }
}

/// What upper-casing gives for `s`.
pub uninterp spec fn upper_text(s: Seq<char>) -> Seq<char>;

/// Relies on `str::to_uppercase`: its result depends on the text alone.
#[verifier::external_body]
fn to_upper(s: &str) -> (r: String)
    ensures
        r@ == upper_text(s@),
{
    s.to_uppercase()
}

fn same_text(a: &str, b: &str) -> (r: bool)
    ensures
        r == (a.spec_bytes() == b.spec_bytes()),
{
    let x = a.as_bytes();
    let y = b.as_bytes();
    if x.len() != y.len() {
        return false;
    }
    let r = matches_at(x, 0, y);
    assert(x@.subrange(0, y@.len() as int) =~= x@);
    r
}

/// The signal an upper-case name stands for: `INT`, `TERM` or `KILL`.
pub fn signal_from_upper(u: &str) -> (r: Option<Signal>)
    ensures
        r == signal_named(u.spec_bytes()),
{
    if same_text(u, "INT") {
        Some(Signal::Interrupt)
    } else if same_text(u, "TERM") {
        Some(Signal::Terminate)
    } else if same_text(u, "KILL") {
        Some(Signal::Kill)
    } else {
        None
    }
}

/// The signal a name stands for, in any case.
pub fn parse_signal(name: &str) -> (r: Option<Signal>)
    ensures
        r == signal_named(vstd::utf8::encode_utf8(upper_text(name@))),
{
    let u = to_upper(name);
    signal_from_upper(u.as_str())
}

/// The first phase for a request to stop `pid`: a dry run finishes at once,
/// reporting the pid; `force` sends the kill signal alone; a named signal is
/// sent alone; otherwise the graduated path starts with an interrupt. A name
/// that is no signal is refused before anything is sent.
pub open spec fn first_phase(
    pid: u32,
    signal_name: Option<Seq<char>>,
    force: bool,
    dry_run: bool,
) -> Result<Phase, KillError> {
    if dry_run {
        Ok(Phase::Done(Outcome::WouldKill(pid)))
    } else if force {
        Ok(Phase::Direct(Signal::Kill))
    } else {
        match signal_name {
            None => Ok(Phase::Interrupt),
            Some(n) => match signal_named(vstd::utf8::encode_utf8(upper_text(n))) {
                Some(s) => Ok(Phase::Direct(s)),
                None => Err(KillError::UnknownSignal),
            },
        }
    }
}

pub open spec fn name_view(signal_name: Option<&str>) -> Option<Seq<char>> {
    match signal_name {
        Some(n) => Some(n@),
        None => None,
    }
}

/// Starts the termination of `pid`; see [`first_phase`].
pub fn kill_process(pid: u32, signal_name: Option<&str>, force: bool, dry_run: bool) -> (r: Result<
    Phase,
    KillError,
>)
    ensures
        r == first_phase(pid, name_view(signal_name), force, dry_run),
{
    if dry_run {
        return Ok(Phase::Done(Outcome::WouldKill(pid)));
    }
    if force {
        return Ok(Phase::Direct(Signal::Kill));
    }
    match signal_name {
        Some(name) => match parse_signal(name) {
            Some(s) => Ok(Phase::Direct(s)),
            None => Err(KillError::UnknownSignal),
        },
        None => Ok(Phase::Interrupt),
    }
}

proof fn lemma_done_stays(o: Outcome, a: Seq<Answer>)
    ensures
        signals_sent(Phase::Done(o), a) == Seq::<Signal>::empty(),
        run_to(Phase::Done(o), a) == Phase::Done(o),
    decreases a.len(),
{
    if a.len() > 0 {
        lemma_done_stays(o, a.drop_first());
        assert(signals_sent(Phase::Done(o), a) =~= Seq::<Signal>::empty());
    }
}

/// A dry run delivers no signal, whatever the other flags and whatever
/// answers come, and reports the pid.
pub proof fn lemma_dry_run_sends_nothing(
    pid: u32,
    signal_name: Option<Seq<char>>,
    force: bool,
    a: Seq<Answer>,
)
    ensures
        first_phase(pid, signal_name, force, true) == Ok::<Phase, KillError>(
            Phase::Done(Outcome::WouldKill(pid)),
        ),
        signals_sent(Phase::Done(Outcome::WouldKill(pid)), a) == Seq::<Signal>::empty(),
        run_to(Phase::Done(Outcome::WouldKill(pid)), a) == Phase::Done(Outcome::WouldKill(pid)),
{
    lemma_done_stays(Outcome::WouldKill(pid), a);
}

/// A forced request that is no dry run delivers exactly one signal, the kill
/// signal, whatever signal was named, and goes through no graduated phase:
/// once its send is answered, it is finished.
pub proof fn lemma_force_sends_one_kill(pid: u32, signal_name: Option<Seq<char>>, a: Seq<Answer>)
    requires
        a.len() > 0,
    ensures
        first_phase(pid, signal_name, true, false) == Ok::<Phase, KillError>(
            Phase::Direct(Signal::Kill),
        ),
        signals_sent(Phase::Direct(Signal::Kill), a) == seq![Signal::Kill],
        run_to(Phase::Direct(Signal::Kill), a) is Done,
{
    let p = next_spec(Phase::Direct(Signal::Kill), a[0]);
    match p {
        Phase::Done(o) => {
            lemma_done_stays(o, a.drop_first());
        },
        _ => {},
    }
    assert(signals_sent(Phase::Direct(Signal::Kill), a) =~= seq![Signal::Kill]);
}

} // verus!
