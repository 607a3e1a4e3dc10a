//! What holds of the session registry over every sequence of steps.
//!
//! The callers of the registry run concurrently, but each operation is one
//! step under the registry's lock, so every interleaving of starts, stops,
//! polls and a shutdown is a sequence of steps. The laws here are stated
//! over such sequences.

use crate::session::{
    lemma_begin_start_wf, lemma_drain_wf, lemma_live_place_unique, lemma_place_unique,
    lemma_running_wf, lemma_stop_requested_wf, lemma_without_wf, ExitObservation, Lifecycle,
    RegistryView, SessionState, SessionView, SpawnOutcome, StartError,
    StartResolution, StopOutcome, SupervisionView,
};
use vstd::prelude::*;

verus! {

/// One step on the registry.
pub ghost enum Step<H> {
    BeginStart { device: Seq<char> },
    FinishStart { id: nat, outcome: SpawnOutcome<H> },
    Stop { device: Seq<char> },
    Supervise { id: nat, observation: ExitObservation },
    Drain,
}

impl<H> Step<H> {
    /// Whether the step is taken by the starter or the supervisor of the
    /// session `id`.
    pub open spec fn is_by_session(self, id: nat) -> bool {
        match self {
            Step::FinishStart { id: other, .. } => other == id,
            Step::Supervise { id: other, .. } => other == id,
            _ => false,
        }
    }
}

impl<H> RegistryView<H> {
    /// The registry after one step.
    pub open spec fn step(self, s: Step<H>) -> Self {
        match s {
            Step::BeginStart { device } => self.begin_start(device).0,
            Step::FinishStart { id, outcome } => self.finish_start(id, outcome).0,
            Step::Stop { device } => self.stop(device).0,
            Step::Supervise { id, observation } => self.supervise(id, observation).0,
            Step::Drain => self.drain().0,
        }
    }

    /// The registry after a sequence of steps.
    pub open spec fn run(self, steps: Seq<Step<H>>) -> Self
        decreases steps.len(),
    {
        if steps.len() == 0 {
            self
        } else {
            self.run(steps.drop_last()).step(steps.last())
        }
    }

    /// Whether the step tells a supervisor that the session `id` has ended.
    pub open spec fn reports_end(self, s: Step<H>, id: nat) -> bool {
        match s {
            Step::Supervise { id: other, observation } => other == id && self.supervise(
                id,
                observation,
            ).1 is Ended,
            _ => false,
        }
    }

    /// How often a sequence of steps tells a supervisor that the session
    /// `id` has ended.
    pub open spec fn end_reports(self, steps: Seq<Step<H>>, id: nat) -> nat
        decreases steps.len(),
    {
        if steps.len() == 0 {
            0
        } else {
            let before = self.end_reports(steps.drop_last(), id);
            if self.run(steps.drop_last()).reports_end(steps.last(), id) {
                before + 1
            } else {
                before
            }
        }
    }
}

/// The place of a lifecycle tag on the way from a fresh identifier to a
/// terminated session.
pub open spec fn rank(tag: Option<Lifecycle>) -> int {
    match tag {
        None => 0,
        Some(Lifecycle::Starting) => 1,
        Some(Lifecycle::Running) => 2,
        Some(Lifecycle::StopRequested) => 3,
        Some(Lifecycle::Terminated) => 4,
    }
}

/// The changes of a lifecycle tag that one step can make: a fresh
/// identifier is given to a starting session; a starting session comes to
/// run, is asked to stop or terminates; a running session is asked to stop
/// or terminates; a session that was asked to stop terminates; a terminated
/// session stays so.
pub open spec fn may_follow(before: Option<Lifecycle>, after: Option<Lifecycle>) -> bool {
    match before {
        None => after is None || after == Some(Lifecycle::Starting),
        Some(Lifecycle::Starting) => after is Some,
        Some(Lifecycle::Running) => after is Some && after != Some(Lifecycle::Starting),
        Some(Lifecycle::StopRequested) => after == Some(Lifecycle::StopRequested) || after == Some(
            Lifecycle::Terminated,
        ),
        Some(Lifecycle::Terminated) => after == Some(Lifecycle::Terminated),
    }
}

/// Dropping the session at `i` drops its entry and leaves every other
/// entry as it is.
pub proof fn lemma_entries_without<H>(r: RegistryView<H>, i: int, id: nat)
    requires
        r.wf(),
        0 <= i < r.sessions.len(),
    ensures
        r.without(i).entry(id) == if id == r.sessions[i].id {
            None
        } else {
            r.entry(id)
        },
{
    let next = r.without(i);
    lemma_without_wf(r, i);
    assert forall|k: int| 0 <= k < next.sessions.len() implies next.sessions[k]
        == r.sessions[if k < i {
        k
    } else {
        k + 1
    }] by {}
    if next.has(id) {
        let q = next.place(id);
        assert(next.is_at(id, q));
        let p = if q < i {
            q
        } else {
            q + 1
        };
        assert(r.is_at(id, p));
        lemma_place_unique(r, id, p);
        if id == r.sessions[i].id {
            lemma_place_unique(r, id, i);
        }
    } else if r.has(id) {
        let p = r.place(id);
        assert(r.is_at(id, p));
        if p != i {
            let q = if p < i {
                p
            } else {
                p - 1
            };
            assert(next.is_at(id, q));
        }
    }
}

/// Replacing the state of the session at `i` changes that entry only.
pub proof fn lemma_entries_with_state<H>(
    r: RegistryView<H>,
    i: int,
    state: SessionState<H>,
    id: nat,
)
    requires
        r.wf(),
        0 <= i < r.sessions.len(),
    ensures
        r.with_state(i, state).entry(id) == if id == r.sessions[i].id {
            Some(SessionView { id, device: r.sessions[i].device, state })
        } else {
            r.entry(id)
        },
{
    let next = r.with_state(i, state);
    if id == r.sessions[i].id {
        assert(next.is_at(id, i));
    }
    if next.has(id) {
        let q = next.place(id);
        assert(next.is_at(id, q));
        assert(r.is_at(id, q));
        lemma_place_unique(r, id, q);
        if id == r.sessions[i].id {
            lemma_place_unique(r, id, i);
        }
    } else if r.has(id) {
        let p = r.place(id);
        assert(r.is_at(id, p));
        assert(next.is_at(id, p));
    }
}

/// A shutdown keeps every entry and asks each to stop.
pub proof fn lemma_entries_drain<H>(r: RegistryView<H>, id: nat)
    requires
        r.wf(),
    ensures
        r.drain().0.entry(id) == match r.entry(id) {
            Some(s) => Some(RegistryView::<H>::drained_session(s)),
            None => None,
        },
{
    let next = r.drain().0;
    if next.has(id) {
        let q = next.place(id);
        assert(next.is_at(id, q));
        assert(r.is_at(id, q));
        lemma_place_unique(r, id, q);
    } else if r.has(id) {
        let p = r.place(id);
        assert(r.is_at(id, p));
        assert(next.is_at(id, p));
    }
}

/// An accepted start adds the entry of the new session and leaves every
/// other entry as it is.
pub proof fn lemma_entries_begin_start<H>(r: RegistryView<H>, device: Seq<char>, id: nat)
    requires
        r.wf(),
    ensures
        r.begin_start(device).0.entry(id) == if r.begin_start(device).1 is Ok && id == r.next_id {
            Some(SessionView { id, device, state: SessionState::Starting })
        } else {
            r.entry(id)
        },
{
    let next = r.begin_start(device).0;
    if r.begin_start(device).1 is Ok {
        lemma_begin_start_wf(r, device);
        let n = r.sessions.len() as int;
        if id == r.next_id {
            assert(next.is_at(id, n));
            lemma_place_unique(next, id, n);
            if r.has(id) {
                assert(r.is_at(id, r.place(id)));
            }
        } else if next.has(id) {
            let q = next.place(id);
            assert(next.is_at(id, q));
            assert(r.is_at(id, q));
            lemma_place_unique(r, id, q);
        } else if r.has(id) {
            let p = r.place(id);
            assert(r.is_at(id, p));
            assert(next.is_at(id, p));
        }
    }
}

/// What one step makes of the entry of the session `id`.
pub open spec fn entry_after<H>(r: RegistryView<H>, s: Step<H>, id: nat) -> Option<
    SessionView<H>,
> {
    let entry = r.entry(id);
    match s {
        Step::BeginStart { device } => if r.begin_start(device).1 is Ok && id == r.next_id {
            Some(SessionView { id, device, state: SessionState::Starting })
        } else {
            entry
        },
        Step::FinishStart { id: other, outcome } => match entry {
            Some(session) if other == id => match session.state {
                SessionState::Starting => match outcome {
                    SpawnOutcome::Spawned(h) => Some(
                        SessionView { id, device: session.device, state: SessionState::Running(h) },
                    ),
                    _ => None,
                },
                SessionState::StopRequested => None,
                SessionState::Running(_) => entry,
            },
            _ => entry,
        },
        Step::Stop { device } => match entry {
            Some(session) if session.device == device && session.state.is_live() => Some(
                SessionView { id, device, state: SessionState::StopRequested },
            ),
            _ => entry,
        },
        Step::Supervise { id: other, observation } => match entry {
            Some(session) if other == id => match session.state {
                SessionState::Starting => entry,
                SessionState::Running(_) => if observation is StillRunning {
                    entry
                } else {
                    None
                },
                SessionState::StopRequested => None,
            },
            _ => entry,
        },
        Step::Drain => match entry {
            Some(session) => Some(RegistryView::<H>::drained_session(session)),
            None => None,
        },
    }
}

/// A kept entry carries the identifier it is kept under.
pub proof fn lemma_entry_id<H>(r: RegistryView<H>, id: nat)
    requires
        r.entry(id) is Some,
    ensures
        r.entry(id)->0.id == id,
        r.is_at(id, r.place(id)),
        id < r.next_id || !r.wf(),
{
    assert(r.is_at(id, r.place(id)));
}

/// One step keeps the registry well formed, gives out identifiers in
/// growing order, and changes the entry of each session as `entry_after`
/// says.
pub proof fn lemma_step<H>(r: RegistryView<H>, s: Step<H>, id: nat)
    requires
        r.wf(),
    ensures
        r.step(s).wf(),
        r.step(s).next_id >= r.next_id,
        r.step(s).next_id > r.next_id ==> s is BeginStart && r.step(s).next_id == r.next_id + 1,
        r.step(s).entry(id) == entry_after(r, s, id),
{
    match s {
        Step::BeginStart { device } => {
            lemma_begin_start_wf(r, device);
            lemma_entries_begin_start(r, device, id);
        },
        Step::FinishStart { id: other, outcome } => {
            if r.has(other) {
                let i = r.place(other);
                assert(r.is_at(other, i));
                lemma_without_wf(r, i);
                lemma_entries_without(r, i, id);
                match outcome {
                    SpawnOutcome::Spawned(h) => {
                        lemma_entries_with_state(r, i, SessionState::Running(h), id);
                        if r.sessions[i].state is Starting {
                            lemma_running_wf(r, i, h);
                        }
                    },
                    _ => {},
                }
            }
        },
        Step::Stop { device } => {
            if r.is_active(device) {
                let i = r.live_place(device);
                assert(r.is_live_at(device, i));
                lemma_stop_requested_wf(r, i);
                lemma_entries_with_state(r, i, SessionState::StopRequested, id);
                if id == r.sessions[i].id {
                    lemma_place_unique(r, id, i);
                }
                if r.has(id) {
                    let p = r.place(id);
                    assert(r.is_at(id, p));
                    if r.sessions[p].device == device && r.sessions[p].state.is_live() {
                        lemma_live_place_unique(r, device, p);
                    }
                }
            } else if r.has(id) {
                let p = r.place(id);
                assert(r.is_at(id, p));
                assert(!r.is_live_at(device, p));
            }
        },
        Step::Supervise { id: other, observation } => {
            if r.has(other) {
                let i = r.place(other);
                assert(r.is_at(other, i));
                lemma_without_wf(r, i);
                lemma_entries_without(r, i, id);
            }
        },
        Step::Drain => {
            lemma_drain_wf(r);
            lemma_entries_drain(r, id);
        },
    }
}

/// The registry stays well formed over every sequence of steps: however
/// starts, stops, polls and shutdowns interleave, no device has two live
/// sessions, and so the registry never holds two processes for one device.
pub proof fn law_well_formed_throughout<H>(r: RegistryView<H>, steps: Seq<Step<H>>)
    requires
        r.wf(),
    ensures
        r.run(steps).wf(),
        r.run(steps).next_id >= r.next_id,
    decreases steps.len(),
{
    if steps.len() > 0 {
        law_well_formed_throughout(r, steps.drop_last());
        lemma_step(r.run(steps.drop_last()), steps.last(), 0);
    }
}

/// In every registry reached from the empty one, two live sessions of one
/// device are one and the same session.
pub proof fn law_one_live_session_per_device<H>(steps: Seq<Step<H>>, i: int, j: int)
    requires
        ({
            let r = RegistryView::<H>::empty().run(steps);
            &&& 0 <= i < r.sessions.len()
            &&& 0 <= j < r.sessions.len()
            &&& r.sessions[i].state.is_live()
            &&& r.sessions[j].state.is_live()
            &&& r.sessions[i].device == r.sessions[j].device
        }),
    ensures
        i == j,
{
    law_well_formed_throughout(RegistryView::<H>::empty(), steps);
}

/// One step moves the lifecycle tag of a session forward only, along the
/// changes that `may_follow` lists.
pub proof fn law_lifecycle_step<H>(r: RegistryView<H>, s: Step<H>, id: nat)
    requires
        r.wf(),
    ensures
        may_follow(r.lifecycle(id), r.step(s).lifecycle(id)),
{
    lemma_step(r, s, id);
    if r.entry(id) is Some {
        lemma_entry_id(r, id);
    }
}

/// Over every sequence of steps the lifecycle tag of a session never goes
/// back: a session that has terminated stays terminated, one that was asked
/// to stop never runs again, and a running one never starts again.
pub proof fn law_lifecycle_never_goes_back<H>(r: RegistryView<H>, steps: Seq<Step<H>>, id: nat)
    requires
        r.wf(),
    ensures
        rank(r.lifecycle(id)) <= rank(r.run(steps).lifecycle(id)),
    decreases steps.len(),
{
    if steps.len() > 0 {
        law_lifecycle_never_goes_back(r, steps.drop_last(), id);
        law_well_formed_throughout(r, steps.drop_last());
        law_lifecycle_step(r.run(steps.drop_last()), steps.last(), id);
    }
}

/// Over a sequence of steps a session keeps its device for as long as it
/// is kept, and its identifier stays below the next one.
pub proof fn lemma_device_kept<H>(r: RegistryView<H>, steps: Seq<Step<H>>, id: nat)
    requires
        r.wf(),
        r.entry(id) is Some,
    ensures
        id < r.run(steps).next_id,
        r.run(steps).entry(id) is Some ==> r.run(steps).entry(id)->0.device == r.entry(
            id,
        )->0.device,
    decreases steps.len(),
{
    lemma_entry_id(r, id);
    if steps.len() > 0 {
        lemma_device_kept(r, steps.drop_last(), id);
        law_well_formed_throughout(r, steps.drop_last());
        lemma_step(r.run(steps.drop_last()), steps.last(), id);
    }
}

/// While the session that a start has reserved is starting or running,
/// every further start of the same device is refused with `AlreadyRunning`
/// and changes nothing, whatever steps were taken in between. So of two
/// starts of one device that run at the same time only one spawns a
/// process.
pub proof fn law_second_start_is_refused<H>(
    r: RegistryView<H>,
    device: Seq<char>,
    between: Seq<Step<H>>,
)
    requires
        r.wf(),
        !r.is_active(device),
        ({
            let tag = r.begin_start(device).0.run(between).lifecycle(r.next_id);
            tag == Some(Lifecycle::Starting) || tag == Some(Lifecycle::Running)
        }),
    ensures
        r.begin_start(device).1 == Ok::<nat, StartError>(r.next_id),
        ({
            let later = r.begin_start(device).0.run(between);
            later.begin_start(device) == (later, Err::<nat, StartError>(
                StartError::AlreadyRunning,
            ))
        }),
{
    let id = r.next_id;
    let reserved = r.begin_start(device).0;
    let later = reserved.run(between);
    lemma_begin_start_wf(r, device);
    lemma_entries_begin_start(r, device, id);
    lemma_device_kept(reserved, between, id);
    lemma_entry_id(later, id);
    assert(later.is_live_at(device, later.place(id)));
}

/// Of two starts of one device that run at the same time, the one that
/// comes second is refused with `AlreadyRunning` and changes nothing,
/// whether it comes while the process of the first is being spawned or
/// after it has been spawned. Only the first hands a process to the
/// registry, and the device has no session but that of the first.
pub proof fn law_concurrent_starts_spawn_once<H>(r: RegistryView<H>, device: Seq<char>, handle: H)
    requires
        r.wf(),
        !r.is_active(device),
    ensures
        ({
            let refused = Err::<nat, StartError>(StartError::AlreadyRunning);
            let reserved = r.begin_start(device).0;
            let spawned = reserved.finish_start(r.next_id, SpawnOutcome::Spawned(handle));
            &&& reserved.begin_start(device) == (reserved, refused)
            &&& spawned.1 == (StartResolution::<H> { result: Ok(()), orphan: None })
            &&& spawned.0.begin_start(device) == (spawned.0, refused)
            &&& spawned.0.entry(r.next_id) == Some(
                SessionView { id: r.next_id, device, state: SessionState::Running(handle) },
            )
            &&& forall|i: int|
                spawned.0.is_live_at(device, i) ==> (#[trigger] spawned.0.sessions[i]).id
                    == r.next_id
        }),
{
    let id = r.next_id;
    let reserved = r.begin_start(device).0;
    let outcome = SpawnOutcome::Spawned(handle);
    let spawned = reserved.finish_start(id, outcome).0;
    lemma_begin_start_wf(r, device);
    lemma_entries_begin_start(r, device, id);
    lemma_entry_id(reserved, id);
    assert(reserved.is_live_at(device, reserved.place(id)));
    lemma_step(reserved, Step::FinishStart { id, outcome }, id);
    lemma_entry_id(spawned, id);
    let p = spawned.place(id);
    assert(spawned.is_live_at(device, p));
    assert forall|i: int| spawned.is_live_at(device, i) implies (#[trigger] spawned.sessions[i]).id
        == id by {
        lemma_live_place_unique(spawned, device, i);
        lemma_live_place_unique(spawned, device, p);
    }
}

/// A session that was asked to stop stays as it is until its own starter
/// or supervisor takes a step.
pub proof fn lemma_stop_request_stays<H>(r: RegistryView<H>, steps: Seq<Step<H>>, id: nat)
    requires
        r.wf(),
        r.entry(id) is Some,
        r.entry(id)->0.state is StopRequested,
        forall|k: int| 0 <= k < steps.len() ==> !(#[trigger] steps[k]).is_by_session(id),
    ensures
        r.run(steps).entry(id) == r.entry(id),
    decreases steps.len(),
{
    lemma_entry_id(r, id);
    if steps.len() > 0 {
        lemma_stop_request_stays(r, steps.drop_last(), id);
        law_well_formed_throughout(r, steps.drop_last());
        lemma_step(r.run(steps.drop_last()), steps.last(), id);
        assert(!steps[steps.len() - 1].is_by_session(id));
    }
}

/// A stop that arrives while the process of a session is being spawned
/// leaves no process behind: whatever steps others take in between, the
/// starter is told to give up and gets the spawned process back to
/// terminate it, and the session has terminated.
pub proof fn law_stop_during_spawn_leaves_no_orphan<H>(
    r: RegistryView<H>,
    device: Seq<char>,
    between: Seq<Step<H>>,
    outcome: SpawnOutcome<H>,
)
    requires
        r.wf(),
        !r.is_active(device),
        forall|k: int|
            0 <= k < between.len() ==> !(#[trigger] between[k]).is_by_session(r.next_id),
    ensures
        ({
            let id = r.next_id;
            let stopped = r.begin_start(device).0.stop(device);
            let done = stopped.0.run(between).finish_start(id, outcome);
            &&& stopped.1 == StopOutcome::<H>::Cancelled
            &&& done.1.result == Err::<(), StartError>(outcome.failure())
            &&& done.1.orphan == outcome.handle()
            &&& done.0.lifecycle(id) == Some(Lifecycle::Terminated)
        }),
{
    let id = r.next_id;
    let reserved = r.begin_start(device).0;
    lemma_begin_start_wf(r, device);
    lemma_entries_begin_start(r, device, id);
    lemma_entry_id(reserved, id);
    let p = reserved.place(id);
    assert(reserved.is_live_at(device, p));
    lemma_live_place_unique(reserved, device, p);
    let stopped = reserved.stop(device).0;
    lemma_step(reserved, Step::Stop { device }, id);
    lemma_stop_request_stays(stopped, between, id);
    let later = stopped.run(between);
    law_well_formed_throughout(stopped, between);
    lemma_entry_id(later, id);
    lemma_step(later, Step::FinishStart { id, outcome }, id);
}

/// Stopping a device twice is stopping it once: after a stop the device
/// has no live session, and a further stop finds nothing and changes
/// nothing. The same holds of a device that had no session to begin with.
pub proof fn law_stop_is_idempotent<H>(r: RegistryView<H>, device: Seq<char>)
    requires
        r.wf(),
    ensures
        !r.is_active(device) ==> r.stop(device) == (r, StopOutcome::<H>::NotFound),
        !r.stop(device).0.is_active(device),
        r.stop(device).0.stop(device) == (r.stop(device).0, StopOutcome::<H>::NotFound),
{
    let next = r.stop(device).0;
    if r.is_active(device) {
        let i = r.live_place(device);
        assert(r.is_live_at(device, i));
        if next.is_active(device) {
            let j = next.live_place(device);
            assert(next.is_live_at(device, j));
            assert(r.is_live_at(device, j));
            lemma_live_place_unique(r, device, j);
        }
    }
}

/// Starts and stops of one device leave the sessions of every other device
/// alone.
pub proof fn law_devices_are_independent<H>(
    r: RegistryView<H>,
    device: Seq<char>,
    other: Seq<char>,
)
    requires
        r.wf(),
        device != other,
    ensures
        r.begin_start(device).0.is_active(other) == r.is_active(other),
        r.stop(device).0.is_active(other) == r.is_active(other),
{
    let started = r.begin_start(device).0;
    if started.is_active(other) {
        let j = started.live_place(other);
        assert(started.is_live_at(other, j));
        assert(r.is_live_at(other, j));
    }
    if r.is_active(other) {
        let j = r.live_place(other);
        assert(r.is_live_at(other, j));
        assert(started.is_live_at(other, j));
    }
    let stopped = r.stop(device).0;
    if stopped.is_active(other) {
        let j = stopped.live_place(other);
        assert(stopped.is_live_at(other, j));
        assert(r.is_live_at(other, j));
    }
    if r.is_active(other) {
        let j = r.live_place(other);
        assert(r.is_live_at(other, j));
        assert(stopped.is_live_at(other, j));
    }
}

/// A running session whose process has exited on its own is reported to
/// its supervisor with the exit status that was observed, and terminates.
pub proof fn law_self_exit_is_reported<H>(r: RegistryView<H>, id: nat, code: Option<i32>)
    requires
        r.wf(),
        r.lifecycle(id) == Some(Lifecycle::Running),
    ensures
        ({
            let polled = r.supervise(id, ExitObservation::Exited(code));
            &&& polled.1 matches SupervisionView::Ended { device, exit_status, released }
            &&& device == r.entry(id)->0.device
            &&& exit_status == code
            &&& r.entry(id)->0.state == SessionState::Running(released->0)
            &&& polled.0.lifecycle(id) == Some(Lifecycle::Terminated)
        }),
{
    lemma_entry_id(r, id);
    lemma_step(r, Step::Supervise { id, observation: ExitObservation::Exited(code) }, id);
}

/// However polls, stops and shutdowns interleave, the end of a session is
/// reported to a supervisor at most once, and once it has been reported
/// the session has terminated.
pub proof fn law_session_ends_once<H>(r: RegistryView<H>, steps: Seq<Step<H>>, id: nat)
    requires
        r.wf(),
    ensures
        r.end_reports(steps, id) <= 1,
        r.end_reports(steps, id) == 1 ==> r.run(steps).lifecycle(id) == Some(
            Lifecycle::Terminated,
        ),
    decreases steps.len(),
{
    if steps.len() > 0 {
        let before = r.run(steps.drop_last());
        law_session_ends_once(r, steps.drop_last(), id);
        law_well_formed_throughout(r, steps.drop_last());
        lemma_step(before, steps.last(), id);
        if before.entry(id) is Some {
            lemma_entry_id(before, id);
        }
    }
}

/// Where nothing is picked, picking yields nothing.
pub proof fn lemma_filter_map_none<A, B>(s: Seq<A>, f: spec_fn(A) -> Option<B>)
    requires
        forall|i: int| 0 <= i < s.len() ==> f(#[trigger] s[i]) is None,
    ensures
        s.filter_map(f) == Seq::<B>::empty(),
    decreases s.len(),
{
    if s.len() > 0 {
        assert(f(s[s.len() - 1]) is None);
        assert forall|i: int| 0 <= i < s.drop_last().len() implies f(
            #[trigger] s.drop_last()[i],
        ) is None by {
            assert(s.drop_last()[i] == s[i]);
        }
        lemma_filter_map_none(s.drop_last(), f);
    }
}

/// What is picked from one element is among what is picked from all.
pub proof fn lemma_filter_map_has<A, B>(s: Seq<A>, f: spec_fn(A) -> Option<B>, i: int)
    requires
        0 <= i < s.len(),
        f(s[i]) is Some,
    ensures
        s.filter_map(f).contains(f(s[i])->0),
    decreases s.len(),
{
    let rest = s.drop_last().filter_map(f);
    if i == s.len() - 1 {
        let all = s.filter_map(f);
        assert(all == rest + seq![f(s[i])->0]);
        assert(all[all.len() - 1] == f(s[i])->0);
    } else {
        lemma_filter_map_has(s.drop_last(), f, i);
        assert(s.drop_last()[i] == s[i]);
        let k = choose|k: int| 0 <= k < rest.len() && rest[k] == f(s[i])->0;
        match f(s.last()) {
            Some(b) => {
                assert(s.filter_map(f) == rest + seq![b]);
                assert((rest + seq![b])[k] == rest[k]);
            },
            None => {},
        }
    }
}

/// The devices of the processes that a shutdown hands out are the devices
/// whose session was running.
pub proof fn lemma_drain_hands_out_running<H>(r: RegistryView<H>)
    ensures
        r.drain().1.map_values(|p: (Seq<char>, H)| p.0) == r.snapshot(),
    decreases r.sessions.len(),
{
    let pick = |s: SessionView<H>| RegistryView::<H>::drained_handle(s);
    let running = |s: SessionView<H>| RegistryView::<H>::running_device(s);
    let first = |p: (Seq<char>, H)| p.0;
    if r.sessions.len() == 0 {
        assert(r.drain().1.map_values(first) =~= r.snapshot());
    } else {
        let rest = RegistryView { sessions: r.sessions.drop_last(), next_id: r.next_id };
        lemma_drain_hands_out_running(rest);
        let last = r.sessions.last();
        match last.state {
            SessionState::Running(h) => {
                assert(r.drain().1 == rest.drain().1 + seq![(last.device, h)]);
                assert(r.drain().1.map_values(first) =~= rest.drain().1.map_values(first) + seq![
                    last.device,
                ]);
            },
            _ => {},
        }
    }
}

/// A shutdown leaves no process with the registry, for any number of
/// sessions: afterwards no session runs and no device is occupied; every
/// process that the registry held has been handed out to be terminated, one
/// for each session that was running; and a start whose spawn ends after
/// the shutdown gets its process back to terminate it.
pub proof fn law_shutdown_leaves_no_process<H>(r: RegistryView<H>)
    requires
        r.wf(),
    ensures
        r.drain().0.snapshot() == Seq::<Seq<char>>::empty(),
        forall|i: int|
            0 <= i < r.drain().0.sessions.len() ==> (#[trigger] r.drain().0.sessions[i]).state
                is StopRequested,
        forall|device: Seq<char>| !(#[trigger] r.drain().0.is_active(device)),
        r.drain().1.map_values(|p: (Seq<char>, H)| p.0) == r.snapshot(),
        forall|i: int|
            0 <= i < r.sessions.len() && (#[trigger] r.sessions[i]).state is Running
                ==> r.drain().1.contains((r.sessions[i].device, r.sessions[i].state->Running_0)),
        forall|id: nat, outcome: SpawnOutcome<H>|
            #![trigger r.drain().0.finish_start(id, outcome)]
            r.drain().0.finish_start(id, outcome).1.result is Err && r.drain().0.finish_start(
                id,
                outcome,
            ).1.orphan == outcome.handle(),
{
    let after = r.drain().0;
    let pick = |s: SessionView<H>| RegistryView::<H>::drained_handle(s);
    let running = |s: SessionView<H>| RegistryView::<H>::running_device(s);
    lemma_drain_hands_out_running(r);
    lemma_filter_map_none(after.sessions, running);
    assert forall|device: Seq<char>| !(#[trigger] after.is_active(device)) by {
        if after.is_active(device) {
            assert(after.is_live_at(device, after.live_place(device)));
        }
    }
    assert forall|i: int|
        0 <= i < r.sessions.len() && (#[trigger] r.sessions[i]).state is Running implies r.drain().1.contains(
        (r.sessions[i].device, r.sessions[i].state->Running_0),
    ) by {
        lemma_filter_map_has(r.sessions, pick, i);
    }
    assert forall|id: nat, outcome: SpawnOutcome<H>|
        #![trigger after.finish_start(id, outcome)]
        after.finish_start(id, outcome).1.result is Err && after.finish_start(
            id,
            outcome,
        ).1.orphan == outcome.handle() by {
        if after.has(id) {
            assert(after.is_at(id, after.place(id)));
        }
    }
}

} // verus!
