//! When a supervised process is started again, and when its supervision ends.
use vstd::prelude::*;

verus! {

/// The seconds before a start: two, doubled `doublings` times, at most 120.
pub open spec fn backoff(doublings: int) -> int
    decreases doublings,
{
    if doublings <= 0 {
        2
    } else {
        let longer = 2 * backoff(doublings - 1);
        if longer > 120 {
            120
        } else {
            longer
        }
    }
}

/// The wait before a start never shrinks with more failures, and stays from 2 to 120 seconds.
pub proof fn backoff_is_bounded_and_grows(a: int, b: int)
    requires
        a <= b,
    ensures
        2 <= backoff(a) <= backoff(b) <= 120,
    decreases b,
{
    if b <= 0 {
    } else if a < b {
        backoff_is_bounded_and_grows(a, b - 1);
    } else {
        backoff_is_bounded_and_grows(a - 1, b - 1);
    }
}

/// After six doublings the wait has reached its limit.
pub proof fn lemma_backoff_limit(n: int)
    requires
        n >= 6,
    ensures
        backoff(n) == 120,
{
    reveal_with_fuel(backoff, 7);
    assert(backoff(6) == 120);
    backoff_is_bounded_and_grows(6, n);
}

/// The seconds before a start after some doublings.
pub fn backoff_seconds(doublings: u32) -> (r: u64)
    ensures
        r == backoff(doublings as int),
{
    if doublings >= 6 {
        proof {
            lemma_backoff_limit(doublings as int);
        }
        return 120;
    }
    let mut wait: u64 = 2;
    let mut i: u32 = 0;
    while i < doublings
        invariant
            i <= doublings < 6,
            wait == backoff(i as int),
            wait <= 120,
        decreases doublings - i,
    {
        wait = if wait > 60 {
            120
        } else {
            wait * 2
        };
        i = i + 1;
    }
    wait
}

/// One more failed start, held at the end of the range.
pub open spec fn one_more(attempt: u32) -> u32 {
    if attempt == u32::MAX {
        attempt
    } else {
        (attempt + 1) as u32
    }
}

fn count(attempt: u32) -> (r: u32)
    ensures
        r == one_more(attempt),
{
    attempt.saturating_add(1)
}

/// What the supervision of a process waits for.
#[derive(Debug, Clone, Copy, PartialEq, Eq, Structural)]
pub enum Phase {
    /// No process runs, and the time before the next start passes.
    Waiting,
    /// The process ended, and the time before the next start passes.
    Ended,
    /// The process runs.
    Watching,
}

/// What happened to a supervised process.
#[derive(Debug, Clone, Copy, PartialEq, Eq, Structural)]
pub enum Event {
    /// The time before a start has passed.
    Elapsed,
    /// The supervisor was woken, with the two flags that its owner sets.
    Woken { restart: bool },
    /// The process ended by itself.
    Exited,
    /// A start was tried.
    Started { ok: bool },
}

/// What the supervisor does next.
#[derive(Debug, Clone, Copy, PartialEq, Eq, Structural)]
pub enum Action {
    /// Let some seconds pass before a start.
    Wait { seconds: u64 },
    /// Start the process.
    Start,
    /// Wait for the process to end.
    Watch,
    /// End the supervision.
    Finish,
}

/// The supervision of one process.
#[derive(Debug, Clone, Copy, PartialEq, Eq, Structural)]
pub struct Supervision {
    pub phase: Phase,
    pub attempt: u32,
}

/// The next round of the mesh process: watch what runs, or wait before a start.
pub open spec fn mesh_round(attempt: u32, running: bool) -> (Supervision, Action) {
    if running {
        (Supervision { phase: Phase::Watching, attempt }, Action::Watch)
    } else {
        let next = one_more(attempt);
        (
            Supervision { phase: Phase::Waiting, attempt: next },
            Action::Wait { seconds: backoff(next - 1) as u64 },
        )
    }
}

/// What the supervisor of the mesh process does upon an event; once it is to stop, it finishes.
pub open spec fn mesh_next(state: Supervision, event: Event, stopping: bool) -> (
    Supervision,
    Action,
) {
    if stopping {
        (state, Action::Finish)
    } else {
        match (event, state.phase) {
            (Event::Elapsed, _) => (state, Action::Start),
            (Event::Started { ok }, _) => mesh_round(
                if ok {
                    0
                } else {
                    state.attempt
                },
                ok,
            ),
            (Event::Woken { restart }, Phase::Waiting) => if restart {
                mesh_round(state.attempt, false)
            } else {
                (state, Action::Finish)
            },
            (Event::Woken { restart: _ }, Phase::Ended) => (state, Action::Finish),
            (Event::Woken { restart }, Phase::Watching) => if restart {
                mesh_round(0, false)
            } else {
                (state, Action::Finish)
            },
            (Event::Exited, _) => {
                let next = one_more(state.attempt);
                (
                    Supervision { phase: Phase::Ended, attempt: next },
                    Action::Wait { seconds: backoff(next - 1) as u64 },
                )
            },
        }
    }
}

fn mesh_turn(attempt: u32, running: bool) -> (r: (Supervision, Action))
    ensures
        r == mesh_round(attempt, running),
{
    if running {
        (Supervision { phase: Phase::Watching, attempt }, Action::Watch)
    } else {
        let next: u32 = count(attempt);
        (
            Supervision { phase: Phase::Waiting, attempt: next },
            Action::Wait { seconds: backoff_seconds(next - 1) },
        )
    }
}

/// What the supervisor of the mesh process does first.
pub fn begin_mesh(running: bool, stopping: bool) -> (r: (Supervision, Action))
    ensures
        r == (if stopping {
            (Supervision { phase: Phase::Waiting, attempt: 0 }, Action::Finish)
        } else {
            mesh_round(0, running)
        }),
{
    if stopping {
        (Supervision { phase: Phase::Waiting, attempt: 0 }, Action::Finish)
    } else {
        mesh_turn(0, running)
    }
}

/// What the supervisor of the mesh process does upon an event.
pub fn supervise_mesh(state: Supervision, event: Event, stopping: bool) -> (r: (
    Supervision,
    Action,
))
    ensures
        r == mesh_next(state, event, stopping),
{
    if stopping {
        return (state, Action::Finish);
    }
    match event {
        Event::Elapsed => (state, Action::Start),
        Event::Started { ok } => if ok {
            mesh_turn(0, true)
        } else {
            mesh_turn(state.attempt, false)
        },
        Event::Woken { restart } => match state.phase {
            Phase::Waiting => if restart {
                mesh_turn(state.attempt, false)
            } else {
                (state, Action::Finish)
            },
            Phase::Ended => (state, Action::Finish),
            Phase::Watching => if restart {
                mesh_turn(0, false)
            } else {
                (state, Action::Finish)
            },
        },
        Event::Exited => {
            let next: u32 = count(state.attempt);
            (
                Supervision { phase: Phase::Ended, attempt: next },
                Action::Wait { seconds: backoff_seconds(next - 1) },
            )
        },
    }
}

/// The next round of the edge process: watch what runs, or wait before a start. Its failures are
/// counted for good.
pub open spec fn edge_round(attempt: u32, running: bool) -> (Supervision, Action) {
    if running {
        (Supervision { phase: Phase::Watching, attempt }, Action::Watch)
    } else {
        (
            Supervision { phase: Phase::Waiting, attempt: one_more(attempt) },
            Action::Wait { seconds: backoff(attempt as int) as u64 },
        )
    }
}

/// What the supervisor of the edge process does upon an event; any wake ends it.
pub open spec fn edge_next(state: Supervision, event: Event, stopping: bool) -> (
    Supervision,
    Action,
) {
    if stopping {
        (state, Action::Finish)
    } else {
        match event {
            Event::Elapsed => (state, Action::Start),
            Event::Started { ok } => edge_round(state.attempt, ok),
            Event::Woken { restart: _ } => (state, Action::Finish),
            Event::Exited => edge_round(one_more(state.attempt), false),
        }
    }
}

fn edge_turn(attempt: u32, running: bool) -> (r: (Supervision, Action))
    ensures
        r == edge_round(attempt, running),
{
    if running {
        (Supervision { phase: Phase::Watching, attempt }, Action::Watch)
    } else {
        (
            Supervision { phase: Phase::Waiting, attempt: count(attempt) },
            Action::Wait { seconds: backoff_seconds(attempt) },
        )
    }
}

/// What the supervisor of the edge process does first.
pub fn begin_edge(running: bool, stopping: bool) -> (r: (Supervision, Action))
    ensures
        r == (if stopping {
            (Supervision { phase: Phase::Waiting, attempt: 0 }, Action::Finish)
        } else {
            edge_round(0, running)
        }),
{
    if stopping {
        (Supervision { phase: Phase::Waiting, attempt: 0 }, Action::Finish)
    } else {
        edge_turn(0, running)
    }
}

/// What the supervisor of the edge process does upon an event.
pub fn supervise_edge(state: Supervision, event: Event, stopping: bool) -> (r: (
    Supervision,
    Action,
))
    ensures
        r == edge_next(state, event, stopping),
{
    if stopping {
        return (state, Action::Finish);
    }
    match event {
        Event::Elapsed => (state, Action::Start),
        Event::Started { ok } => edge_turn(state.attempt, ok),
        Event::Woken { restart: _ } => (state, Action::Finish),
        Event::Exited => edge_turn(count(state.attempt), false),
    }
}

/// A failed start or an end of the process never ends its supervision: another start follows a
/// wait of at most 120 seconds, unless the supervisor is to stop.
pub proof fn failures_are_always_retried(state: Supervision, event: Event)
    requires
        event == Event::Exited || event == (Event::Started { ok: false }),
    ensures
        mesh_next(state, event, false).1 matches Action::Wait { seconds } && 2 <= seconds <= 120,
        edge_next(state, event, false).1 matches Action::Wait { seconds } && 2 <= seconds <= 120,
{
    let a = one_more(state.attempt);
    backoff_is_bounded_and_grows(a - 1, a - 1);
    backoff_is_bounded_and_grows(state.attempt as int, state.attempt as int);
    backoff_is_bounded_and_grows(a as int, a as int);
}

/// The wait before a start is two seconds at first, doubles with each failure and stays at two minutes.
pub proof fn waits_double_up_to_two_minutes(n: int)
    ensures
        n <= 0 ==> backoff(n) == 2,
        backoff(1) == 4,
        backoff(5) == 64,
        n >= 0 && 2 * backoff(n) <= 120 ==> backoff(n + 1) == 2 * backoff(n),
        n >= 6 ==> backoff(n) == 120,
    decreases n,
{
    reveal_with_fuel(backoff, 7);
    if n >= 6 {
        lemma_backoff_limit(n);
    }
}

/// What the supervision of the mesh does: it ends when it is told to, starts when the wait is over,
/// forgets the failures with a start that works, and waits longer after each that does not. A restart
/// counts as a new failure while it waits and as the first one while the process runs.
pub proof fn the_mesh_is_kept_running(state: Supervision, event: Event)
    requires
        state.attempt < u32::MAX,
    ensures
        mesh_next(state, event, true) == (state, Action::Finish),
        event is Elapsed ==> mesh_next(state, event, false) == (state, Action::Start),
        event == (Event::Started { ok: true }) ==> {
            let next = mesh_next(state, event, false);
            next.0.phase is Watching && next.0.attempt == 0 && next.1 is Watch
        },
        event == (Event::Started { ok: false }) || (event == (Event::Woken { restart: true })
            && state.phase is Waiting) ==> {
            let next = mesh_next(state, event, false);
            next.0.phase is Waiting && next.0.attempt == state.attempt + 1 && next.1 == (
            Action::Wait { seconds: backoff(state.attempt as int) as u64 })
        },
        event is Exited ==> {
            let next = mesh_next(state, event, false);
            next.0.phase is Ended && next.0.attempt == state.attempt + 1 && next.1 == (
            Action::Wait { seconds: backoff(state.attempt as int) as u64 })
        },
        event == (Event::Woken { restart: true }) && state.phase is Watching ==> {
            let next = mesh_next(state, event, false);
            next.0.phase is Waiting && next.0.attempt == 1 && next.1 == (Action::Wait {
                seconds: 2,
            })
        },
        event == (Event::Woken { restart: false }) || (event is Woken && state.phase is Ended)
            ==> mesh_next(state, event, false) == (state, Action::Finish),
{
}

/// What the supervision of the edge does: it ends when it is woken or told to, starts when the wait is
/// over, and waits longer after each start that fails and each end of the process.
pub proof fn the_edge_is_kept_running(state: Supervision, event: Event)
    requires
        state.attempt + 2 <= u32::MAX,
    ensures
        edge_next(state, event, true) == (state, Action::Finish),
        event is Elapsed ==> edge_next(state, event, false) == (state, Action::Start),
        event == (Event::Started { ok: true }) ==> {
            let next = edge_next(state, event, false);
            next.0.phase is Watching && next.0.attempt == state.attempt && next.1 is Watch
        },
        event == (Event::Started { ok: false }) ==> {
            let next = edge_next(state, event, false);
            next.0.phase is Waiting && next.0.attempt == state.attempt + 1 && next.1 == (
            Action::Wait { seconds: backoff(state.attempt as int) as u64 })
        },
        event is Exited ==> {
            let next = edge_next(state, event, false);
            next.0.phase is Waiting && next.0.attempt == state.attempt + 2 && next.1 == (
            Action::Wait { seconds: backoff(state.attempt + 1) as u64 })
        },
        event is Woken ==> edge_next(state, event, false) == (state, Action::Finish),
{
}

/// At the start a running process is watched, and one that does not run is started after two seconds.
pub proof fn supervision_begins_with_what_runs()
    ensures
        mesh_round(0, true).1 is Watch && mesh_round(0, true).0.phase is Watching,
        edge_round(0, true).1 is Watch && edge_round(0, true).0.phase is Watching,
        mesh_round(0, false).1 == (Action::Wait { seconds: 2 }),
        edge_round(0, false).1 == (Action::Wait { seconds: 2 }),
        mesh_round(0, false).0 == (Supervision { phase: Phase::Waiting, attempt: 1 }),
        edge_round(0, false).0 == (Supervision { phase: Phase::Waiting, attempt: 1 }),
{
}

} // verus!
