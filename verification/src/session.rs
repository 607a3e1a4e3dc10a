//! The session registry: one supervised external process per device.
//!
//! Every operation here is one atomic step of the registry; the caller runs
//! it under its lock and performs the slow work (spawning, killing, polling
//! a process) between steps. A start is therefore two steps: `begin_start`
//! reserves the device before the process is spawned, and `finish_start`
//! reports how the spawn went. A `stop` that arrives between the two marks
//! the reservation, and `finish_start` then hands the freshly spawned
//! process back to be killed.
//!
//! The registry is generic in the process handle `H`: it never looks inside
//! a handle, it only keeps it while the session runs and hands it out to
//! whoever ends the session.

use crate::serial::Serial;
use vstd::prelude::*;

verus! {

/// The time between two polls of a supervisor, in milliseconds.
pub const SUPERVISE_INTERVAL_MS: u64 = 500;

/// Names one session. An identifier is given out once, when a start is
/// accepted, and never again; identifiers never run out.
#[derive(Clone, Debug, PartialEq, Eq)]
pub struct SessionId {
    serial: Serial,
}

impl View for SessionId {
    type V = nat;

    closed spec fn view(&self) -> nat {
        self.serial@
    }
}

impl SessionId {
    /// The identifier that a new registry gives out after `n` others.
    pub fn nth(n: u64) -> (out: Self)
        ensures
            out@ == n,
    {
        SessionId { serial: Serial::nth(n) }
    }
}

/// The state that the registry keeps for a session. A session that has
/// terminated is no longer kept.
#[derive(Debug, PartialEq, Eq)]
pub enum SessionState<H> {
    /// The device is reserved and the process is being spawned.
    Starting,
    /// The process runs; the registry owns its handle.
    Running(H),
    /// A stop or a shutdown reached the session. The handle, if there was
    /// one, has been handed out; the session waits for its starter or its
    /// supervisor to take note.
    StopRequested,
}

/// The lifecycle tag of a session, without the handle.
#[derive(Clone, Copy, Debug, PartialEq, Eq, Structural)]
pub enum Lifecycle {
    Starting,
    Running,
    StopRequested,
    Terminated,
}

/// How spawning the process of a session went.
#[derive(Debug, PartialEq, Eq)]
pub enum SpawnOutcome<H> {
    /// The process runs and both of its output streams were captured.
    Spawned(H),
    /// The process could not be created.
    SpawnFailed,
    /// The process runs but its standard output could not be captured.
    StdoutMissing(H),
    /// The process runs but its standard error could not be captured.
    StderrMissing(H),
}

/// Why a start did not lead to a running session.
#[derive(Clone, Copy, Debug, PartialEq, Eq, Structural)]
pub enum StartError {
    /// The device already has a session that is starting or running.
    AlreadyRunning,
    /// The process could not be created.
    SpawnFailed,
    /// The standard output of the process could not be captured.
    StdoutCapture,
    /// The standard error of the process could not be captured.
    StderrCapture,
    /// The session was stopped while its process was being spawned.
    Cancelled,
    /// The lock around the registry could not be taken after the spawn. The
    /// registry itself never reports this: it is for the caller that holds
    /// the lock.
    LockFailed,
    /// No start is pending under the given identifier.
    NotPending,
}

/// What `finish_start` decided.
#[derive(Debug, PartialEq, Eq)]
pub struct StartResolution<H> {
    /// `Ok` when the session now runs.
    pub result: Result<(), StartError>,
    /// A process that was spawned but does not belong to a running session:
    /// the caller must terminate it.
    pub orphan: Option<H>,
}

/// What `stop` found.
#[derive(Debug, PartialEq, Eq)]
pub enum StopOutcome<H> {
    /// The device had no session: nothing was changed.
    NotFound,
    /// The session was still starting; its starter will be told to give up.
    Cancelled,
    /// The session was running: the caller must terminate this process.
    Terminate(H),
}

/// A process that a shutdown hands out to be terminated.
#[derive(Debug, PartialEq, Eq)]
pub struct Released<H> {
    /// The device whose session the process belonged to.
    pub device: String,
    /// The handle of the process.
    pub handle: H,
}

impl<H> View for Released<H> {
    type V = (Seq<char>, H);

    open spec fn view(&self) -> (Seq<char>, H) {
        (self.device@, self.handle)
    }
}

/// What a supervisor saw when it polled the process of its session.
#[derive(Clone, Copy, Debug, PartialEq, Eq, Structural)]
pub enum ExitObservation {
    /// The process has not exited.
    StillRunning,
    /// The process has exited, with this exit code if one is available.
    Exited(Option<i32>),
    /// The process could not be polled.
    PollFailed,
}

/// What a supervisor has to do after a poll.
#[derive(Debug, PartialEq, Eq)]
pub enum Supervision<H> {
    /// The session is not known (any more): the supervisor ends silently.
    Gone,
    /// The session goes on: poll again after the interval.
    Continue,
    /// The session has terminated: the supervisor reports that it ended and
    /// stops. `released` is the handle that the registry held until now.
    Ended { device: String, exit_status: Option<i32>, released: Option<H> },
}

impl<H> SessionState<H> {
    /// The lifecycle tag of the state.
    pub open spec fn tag(self) -> Lifecycle {
        match self {
            SessionState::Starting => Lifecycle::Starting,
            SessionState::Running(_) => Lifecycle::Running,
            SessionState::StopRequested => Lifecycle::StopRequested,
        }
    }

    /// A live session is one that is starting or running: it occupies its
    /// device.
    pub open spec fn is_live(self) -> bool {
        self is Starting || self is Running
    }
}

impl<H> SpawnOutcome<H> {
    /// The handle of the spawned process, if one was spawned.
    pub open spec fn handle(self) -> Option<H> {
        match self {
            SpawnOutcome::Spawned(h) => Some(h),
            SpawnOutcome::SpawnFailed => None,
            SpawnOutcome::StdoutMissing(h) => Some(h),
            SpawnOutcome::StderrMissing(h) => Some(h),
        }
    }

    /// The error that the starter reports when the session does not come to
    /// run. A failure of the spawn itself is reported before a stop request.
    pub open spec fn failure(self) -> StartError {
        match self {
            SpawnOutcome::Spawned(_) => StartError::Cancelled,
            SpawnOutcome::SpawnFailed => StartError::SpawnFailed,
            SpawnOutcome::StdoutMissing(_) => StartError::StdoutCapture,
            SpawnOutcome::StderrMissing(_) => StartError::StderrCapture,
        }
    }
}

impl<H> SpawnOutcome<H> {
    /// Takes the handle of the spawned process out, if one was spawned.
    pub fn into_handle(self) -> (out: Option<H>)
        ensures
            out == self.handle(),
    {
        match self {
            SpawnOutcome::Spawned(h) => Some(h),
            SpawnOutcome::SpawnFailed => None,
            SpawnOutcome::StdoutMissing(h) => Some(h),
            SpawnOutcome::StderrMissing(h) => Some(h),
        }
    }

    /// The error that the starter reports when the session does not come to
    /// run.
    pub fn to_error(&self) -> (out: StartError)
        ensures
            out == self.failure(),
    {
        match self {
            SpawnOutcome::Spawned(_) => StartError::Cancelled,
            SpawnOutcome::SpawnFailed => StartError::SpawnFailed,
            SpawnOutcome::StdoutMissing(_) => StartError::StdoutCapture,
            SpawnOutcome::StderrMissing(_) => StartError::StderrCapture,
        }
    }
}

/// One session as the contracts see it.
pub ghost struct SessionView<H> {
    pub id: nat,
    pub device: Seq<char>,
    pub state: SessionState<H>,
}

/// The registry as the contracts see it: the sessions that have not
/// terminated, oldest first, and the next identifier to give out.
pub ghost struct RegistryView<H> {
    pub sessions: Seq<SessionView<H>>,
    pub next_id: nat,
}

/// The view of what `supervise` returns.
pub ghost enum SupervisionView<H> {
    Gone,
    Continue,
    Ended { device: Seq<char>, exit_status: Option<i32>, released: Option<H> },
}

impl<H> View for Supervision<H> {
    type V = SupervisionView<H>;

    open spec fn view(&self) -> SupervisionView<H> {
        match *self {
            Supervision::Gone => SupervisionView::Gone,
            Supervision::Continue => SupervisionView::Continue,
            Supervision::Ended { device, exit_status, released } => SupervisionView::Ended {
                device: device@,
                exit_status,
                released,
            },
        }
    }
}

impl<H> RegistryView<H> {
    /// The registry without sessions.
    pub open spec fn empty() -> Self {
        RegistryView { sessions: Seq::empty(), next_id: 0 }
    }

    /// Identifiers grow along the sessions and lie below the next one, and
    /// no device has two live sessions.
    pub open spec fn wf(self) -> bool {
        &&& forall|i: int, j: int|
            0 <= i < j < self.sessions.len() ==> self.sessions[i].id < self.sessions[j].id
        &&& forall|i: int| 0 <= i < self.sessions.len() ==> self.sessions[i].id < self.next_id
        &&& forall|i: int, j: int|
            0 <= i < j < self.sessions.len() && self.sessions[i].state.is_live()
                && self.sessions[j].state.is_live() ==> self.sessions[i].device
                != self.sessions[j].device
    }

    /// Whether `i` is the place of the session `id`.
    pub open spec fn is_at(self, id: nat, i: int) -> bool {
        0 <= i < self.sessions.len() && self.sessions[i].id == id
    }

    /// Whether the session `id` is kept.
    pub open spec fn has(self, id: nat) -> bool {
        exists|i: int| self.is_at(id, i)
    }

    /// The place of the session `id`, where it is kept.
    pub open spec fn place(self, id: nat) -> int {
        choose|i: int| self.is_at(id, i)
    }

    /// Whether `i` is the place of a live session of `device`.
    pub open spec fn is_live_at(self, device: Seq<char>, i: int) -> bool {
        0 <= i < self.sessions.len() && self.sessions[i].device == device
            && self.sessions[i].state.is_live()
    }

    /// Whether `device` has a live session.
    pub open spec fn is_active(self, device: Seq<char>) -> bool {
        exists|i: int| self.is_live_at(device, i)
    }

    /// The place of the live session of `device`, where it has one.
    pub open spec fn live_place(self, device: Seq<char>) -> int {
        choose|i: int| self.is_live_at(device, i)
    }

    /// The session `id`, while it is kept.
    pub open spec fn entry(self, id: nat) -> Option<SessionView<H>> {
        if self.has(id) {
            Some(self.sessions[self.place(id)])
        } else {
            None
        }
    }

    /// The lifecycle tag of the session `id`: that of its state while it is
    /// kept, `Terminated` once it is not, and none before the identifier
    /// has been given out.
    pub open spec fn lifecycle(self, id: nat) -> Option<Lifecycle> {
        match self.entry(id) {
            Some(session) => Some(session.state.tag()),
            None => if id < self.next_id {
                Some(Lifecycle::Terminated)
            } else {
                None
            },
        }
    }

    /// The registry with the state of the session at `i` replaced.
    pub open spec fn with_state(self, i: int, state: SessionState<H>) -> Self {
        RegistryView {
            sessions: self.sessions.update(
                i,
                SessionView { id: self.sessions[i].id, device: self.sessions[i].device, state },
            ),
            next_id: self.next_id,
        }
    }

    /// The registry without the session at `i`.
    pub open spec fn without(self, i: int) -> Self {
        RegistryView { sessions: self.sessions.remove(i), next_id: self.next_id }
    }

    /// Reserving `device` for a new session.
    pub open spec fn begin_start(self, device: Seq<char>) -> (Self, Result<nat, StartError>) {
        if self.is_active(device) {
            (self, Err(StartError::AlreadyRunning))
        } else {
            (
                RegistryView {
                    sessions: self.sessions.push(
                        SessionView { id: self.next_id, device, state: SessionState::Starting },
                    ),
                    next_id: self.next_id + 1,
                },
                Ok(self.next_id),
            )
        }
    }

    /// Taking note of how the spawn of the session `id` went.
    pub open spec fn finish_start(self, id: nat, outcome: SpawnOutcome<H>) -> (
        Self,
        StartResolution<H>,
    ) {
        if !self.has(id) {
            (self, StartResolution { result: Err(StartError::NotPending), orphan: outcome.handle() })
        } else {
            let i = self.place(id);
            match self.sessions[i].state {
                SessionState::Starting => match outcome {
                    SpawnOutcome::Spawned(h) => (
                        self.with_state(i, SessionState::Running(h)),
                        StartResolution { result: Ok(()), orphan: None },
                    ),
                    _ => (
                        self.without(i),
                        StartResolution { result: Err(outcome.failure()), orphan: outcome.handle() },
                    ),
                },
                SessionState::StopRequested => (
                    self.without(i),
                    StartResolution { result: Err(outcome.failure()), orphan: outcome.handle() },
                ),
                SessionState::Running(_) => (
                    self,
                    StartResolution { result: Err(StartError::NotPending), orphan: outcome.handle() },
                ),
            }
        }
    }

    /// Stopping the live session of `device`.
    pub open spec fn stop(self, device: Seq<char>) -> (Self, StopOutcome<H>) {
        if !self.is_active(device) {
            (self, StopOutcome::NotFound)
        } else {
            let i = self.live_place(device);
            let next = self.with_state(i, SessionState::StopRequested);
            match self.sessions[i].state {
                SessionState::Running(h) => (next, StopOutcome::Terminate(h)),
                _ => (next, StopOutcome::Cancelled),
            }
        }
    }

    /// One poll of the supervisor of the session `id`.
    pub open spec fn supervise(self, id: nat, observation: ExitObservation) -> (
        Self,
        SupervisionView<H>,
    ) {
        if !self.has(id) {
            (self, SupervisionView::Gone)
        } else {
            let i = self.place(id);
            let device = self.sessions[i].device;
            match self.sessions[i].state {
                SessionState::Starting => (self, SupervisionView::Continue),
                SessionState::Running(h) => match observation {
                    ExitObservation::StillRunning => (self, SupervisionView::Continue),
                    ExitObservation::Exited(code) => (
                        self.without(i),
                        SupervisionView::Ended { device, exit_status: code, released: Some(h) },
                    ),
                    ExitObservation::PollFailed => (
                        self.without(i),
                        SupervisionView::Ended { device, exit_status: None, released: Some(h) },
                    ),
                },
                SessionState::StopRequested => (
                    self.without(i),
                    SupervisionView::Ended { device, exit_status: None, released: None },
                ),
            }
        }
    }

    /// The state of a session after a shutdown.
    pub open spec fn drained_session(s: SessionView<H>) -> SessionView<H> {
        SessionView { id: s.id, device: s.device, state: SessionState::StopRequested }
    }

    /// What a shutdown hands out for a session: its device and its handle,
    /// where it was running.
    pub open spec fn drained_handle(s: SessionView<H>) -> Option<(Seq<char>, H)> {
        match s.state {
            SessionState::Running(h) => Some((s.device, h)),
            _ => None,
        }
    }

    /// Shutting down: every session is asked to stop, and the handles of
    /// those that were running are handed out, oldest session first.
    pub open spec fn drain(self) -> (Self, Seq<(Seq<char>, H)>) {
        (
            RegistryView {
                sessions: self.sessions.map_values(|s: SessionView<H>| Self::drained_session(s)),
                next_id: self.next_id,
            },
            self.sessions.filter_map(|s: SessionView<H>| Self::drained_handle(s)),
        )
    }

    /// The device of a session, where it is running.
    pub open spec fn running_device(s: SessionView<H>) -> Option<Seq<char>> {
        if s.state is Running {
            Some(s.device)
        } else {
            None
        }
    }

    /// The devices whose session is running, oldest session first.
    pub open spec fn snapshot(self) -> Seq<Seq<char>> {
        self.sessions.filter_map(|s: SessionView<H>| Self::running_device(s))
    }
}

/// One kept session.
struct Session<H> {
    id: Serial,
    device: String,
    state: SessionState<H>,
}

impl<H> View for Session<H> {
    type V = SessionView<H>;

    closed spec fn view(&self) -> SessionView<H> {
        SessionView { id: self.id@, device: self.device@, state: self.state }
    }
}

/// The registry of sessions, keyed by device.
pub struct SessionRegistry<H> {
    sessions: Vec<Session<H>>,
    next_id: Serial,
}

impl<H> View for SessionRegistry<H> {
    type V = RegistryView<H>;

    closed spec fn view(&self) -> RegistryView<H> {
        view_of(self.sessions@, self.next_id@)
    }
}

/// The view of a registry with these sessions and this next identifier.
spec fn view_of<H>(sessions: Seq<Session<H>>, next_id: nat) -> RegistryView<H> {
    RegistryView { sessions: sessions.map_values(|s: Session<H>| s@), next_id }
}

/// Reserving a device keeps the registry well formed.
pub proof fn lemma_begin_start_wf<H>(r: RegistryView<H>, device: Seq<char>)
    requires
        r.wf(),
    ensures
        r.begin_start(device).0.wf(),
{
    let next = r.begin_start(device).0;
    if next != r {
        let n = r.sessions.len() as int;
        assert forall|i: int, j: int|
            0 <= i < j < next.sessions.len() && next.sessions[i].state.is_live()
                && next.sessions[j].state.is_live() implies next.sessions[i].device
            != next.sessions[j].device by {
            if j == n {
                assert(!r.is_live_at(device, i));
            }
        }
    }
}

/// In a well-formed registry a session is found at one place only.
pub proof fn lemma_place_unique<H>(r: RegistryView<H>, id: nat, i: int)
    requires
        r.wf(),
        r.is_at(id, i),
    ensures
        r.has(id),
        r.place(id) == i,
{
}

/// In a well-formed registry a device has its live session at one place
/// only.
pub proof fn lemma_live_place_unique<H>(r: RegistryView<H>, device: Seq<char>, i: int)
    requires
        r.wf(),
        r.is_live_at(device, i),
    ensures
        r.is_active(device),
        r.live_place(device) == i,
{
    let j = r.live_place(device);
    assert(r.is_live_at(device, j));
    if i < j {
        assert(r.sessions[i].device != r.sessions[j].device);
    } else if j < i {
        assert(r.sessions[j].device != r.sessions[i].device);
    }
}

/// Dropping a session keeps the registry well formed.
pub proof fn lemma_without_wf<H>(r: RegistryView<H>, i: int)
    requires
        r.wf(),
        0 <= i < r.sessions.len(),
    ensures
        r.without(i).wf(),
{
    let next = r.without(i);
    assert forall|k: int| 0 <= k < next.sessions.len() implies next.sessions[k]
        == r.sessions[if k < i {
        k
    } else {
        k + 1
    }] by {}
}

/// Asking a session to stop keeps the registry well formed.
pub proof fn lemma_stop_requested_wf<H>(r: RegistryView<H>, i: int)
    requires
        r.wf(),
        0 <= i < r.sessions.len(),
    ensures
        r.with_state(i, SessionState::StopRequested).wf(),
{
}

/// A starting session that comes to run keeps the registry well formed.
pub proof fn lemma_running_wf<H>(r: RegistryView<H>, i: int, h: H)
    requires
        r.wf(),
        0 <= i < r.sessions.len(),
        r.sessions[i].state.is_live(),
    ensures
        r.with_state(i, SessionState::Running(h)).wf(),
{
}

/// A shutdown keeps the registry well formed.
pub proof fn lemma_drain_wf<H>(r: RegistryView<H>)
    requires
        r.wf(),
    ensures
        r.drain().0.wf(),
{
}

impl<H> SessionRegistry<H> {
    #[verifier::type_invariant]
    spec fn inv(self) -> bool {
        self@.wf()
    }

    /// A registry without sessions.
    pub fn new() -> (out: Self)
        ensures
            out@ == RegistryView::<H>::empty(),
    {
        let out = SessionRegistry { sessions: Vec::new(), next_id: Serial::zero() };
        assert(out@.sessions =~= Seq::empty());
        out
    }

    /// The lifecycle tag of the session `id` while the session is kept:
    /// none once it has terminated, and none for an identifier that has not
    /// been given out.
    pub fn phase(&self, id: &SessionId) -> (out: Option<Lifecycle>)
        ensures
            match out {
                Some(tag) => self@.entry(id@) is Some && tag == self@.entry(id@)->0.state.tag(),
                None => self@.entry(id@) is None,
            },
            self@.wf(),
    {
        proof {
            use_type_invariant(self);
        }
        match self.find(&id.serial) {
            Some(i) => {
                proof {
                    lemma_place_unique(self@, id@, i as int);
                }
                match &self.sessions[i].state {
                    SessionState::Starting => Some(Lifecycle::Starting),
                    SessionState::Running(_) => Some(Lifecycle::Running),
                    SessionState::StopRequested => Some(Lifecycle::StopRequested),
                }
            },
            None => None,
        }
    }

    /// Moves the sessions out, to be changed and put back.
    fn take_sessions(&mut self) -> (out: Vec<Session<H>>)
        ensures
            out == old(self).sessions,
            final(self).sessions@ == Seq::<Session<H>>::empty(),
            final(self).next_id == old(self).next_id,
    {
        let mut out: Vec<Session<H>> = Vec::new();
        std::mem::swap(&mut self.sessions, &mut out);
        out
    }

    /// The place of the session `id`.
    fn find(&self, id: &Serial) -> (out: Option<usize>)
        ensures
            match out {
                Some(i) => self@.is_at(id@, i as int) && i < self.sessions.len(),
                None => !self@.has(id@),
            },
    {
        let mut i: usize = 0;
        while i < self.sessions.len()
            invariant
                i <= self.sessions.len(),
                forall|k: int| 0 <= k < i ==> !self@.is_at(id@, k),
            decreases self.sessions.len() - i,
        {
            if self.sessions[i].id.same(id) {
                return Some(i);
            }
            i += 1;
        }
        None
    }

    /// The place of the live session of `device`.
    fn find_live(&self, device: &String) -> (out: Option<usize>)
        ensures
            match out {
                Some(i) => self@.is_live_at(device@, i as int) && i < self.sessions.len(),
                None => !self@.is_active(device@),
            },
    {
        let mut i: usize = 0;
        while i < self.sessions.len()
            invariant
                i <= self.sessions.len(),
                forall|k: int| 0 <= k < i ==> !self@.is_live_at(device@, k),
            decreases self.sessions.len() - i,
        {
            let live = match &self.sessions[i].state {
                SessionState::Starting => true,
                SessionState::Running(_) => true,
                SessionState::StopRequested => false,
            };
            if live && self.sessions[i].device == *device {
                return Some(i);
            }
            i += 1;
        }
        None
    }

    /// Whether `device` has a session that is starting or running.
    pub fn is_active(&self, device: &str) -> (out: bool)
        ensures
            out == self@.is_active(device@),
            self@.wf(),
    {
        proof {
            use_type_invariant(self);
        }
        let key = device.to_owned();
        self.find_live(&key).is_some()
    }

    /// Reserves `device` for a new session, before its process is spawned.
    ///
    /// A device that already has a starting or running session is refused
    /// with `AlreadyRunning` and nothing changes.
    pub fn begin_start(&mut self, device: &str) -> (out: Result<SessionId, StartError>)
        ensures
            final(self)@ == old(self)@.begin_start(device@).0,
            match out {
                Ok(id) => old(self)@.begin_start(device@).1 == Ok::<nat, StartError>(id@),
                Err(error) => old(self)@.begin_start(device@).1 == Err::<nat, StartError>(
                    error,
                ),
            },
            final(self)@.wf(),
    {
        proof {
            use_type_invariant(&*self);
        }
        let key = device.to_owned();
        if self.find_live(&key).is_some() {
            return Err(StartError::AlreadyRunning);
        }
        let id = self.next_id.copy();
        let next = self.next_id.next();
        let mut sessions = self.take_sessions();
        sessions.push(Session { id: id.copy(), device: key, state: SessionState::Starting });
        proof {
            lemma_begin_start_wf(old(self)@, device@);
            assert(view_of(sessions@, next@).sessions =~= old(self)@.begin_start(
                device@,
            ).0.sessions);
        }
        self.next_id = next;
        self.sessions = sessions;
        Ok(SessionId { serial: id })
    }

    /// Takes note of how the spawn of the session `id` went.
    ///
    /// A starting session comes to run when its process was spawned with
    /// both streams captured; the registry then owns the handle. In every
    /// other case the session does not run, and a process that was spawned
    /// all the same is handed back in `orphan` to be terminated: after a
    /// failed capture, after a stop that arrived during the spawn, and
    /// where no start is pending under `id`.
    pub fn finish_start(&mut self, id: &SessionId, outcome: SpawnOutcome<H>) -> (out:
        StartResolution<H>)
        ensures
            final(self)@ == old(self)@.finish_start(id@, outcome).0,
            out == old(self)@.finish_start(id@, outcome).1,
            final(self)@.wf(),
    {
        proof {
            use_type_invariant(&*self);
        }
        let found = self.find(&id.serial);
        let i = match found {
            None => {
                return StartResolution {
                    result: Err(StartError::NotPending),
                    orphan: outcome.into_handle(),
                };
            },
            Some(i) => i,
        };
        proof {
            lemma_place_unique(self@, id@, i as int);
        }
        let mut sessions = self.take_sessions();
        let session = sessions.remove(i);
        let ghost before = old(self)@;
        match session.state {
            SessionState::Starting => match outcome {
                SpawnOutcome::Spawned(h) => {
                    sessions.insert(
                        i,
                        Session {
                            id: session.id,
                            device: session.device,
                            state: SessionState::Running(h),
                        },
                    );
                    proof {
                        lemma_running_wf(before, i as int, h);
                        assert(view_of(sessions@, self.next_id@).sessions =~= before.with_state(
                            i as int,
                            SessionState::Running(h),
                        ).sessions);
                    }
                    self.sessions = sessions;
                    StartResolution { result: Ok(()), orphan: None }
                },
                other => {
                    proof {
                        lemma_without_wf(before, i as int);
                        assert(view_of(sessions@, self.next_id@).sessions =~= before.without(
                            i as int,
                        ).sessions);
                    }
                    self.sessions = sessions;
                    let error = other.to_error();
                    StartResolution { result: Err(error), orphan: other.into_handle() }
                },
            },
            SessionState::StopRequested => {
                proof {
                    lemma_without_wf(before, i as int);
                    assert(view_of(sessions@, self.next_id@).sessions =~= before.without(
                        i as int,
                    ).sessions);
                }
                self.sessions = sessions;
                let error = outcome.to_error();
                StartResolution { result: Err(error), orphan: outcome.into_handle() }
            },
            SessionState::Running(h) => {
                sessions.insert(
                    i,
                    Session {
                        id: session.id,
                        device: session.device,
                        state: SessionState::Running(h),
                    },
                );
                proof {
                    assert(view_of(sessions@, self.next_id@).sessions =~= before.sessions);
                }
                self.sessions = sessions;
                StartResolution { result: Err(StartError::NotPending), orphan: outcome.into_handle() }
            },
        }
    }

    /// Stops the live session of `device`.
    ///
    /// The session is marked as asked to stop and no longer occupies the
    /// device. The handle of a running session is handed out to be
    /// terminated. A device without a live session is left as it is.
    pub fn stop(&mut self, device: &str) -> (out: StopOutcome<H>)
        ensures
            final(self)@ == old(self)@.stop(device@).0,
            out == old(self)@.stop(device@).1,
            final(self)@.wf(),
    {
        proof {
            use_type_invariant(&*self);
        }
        let key = device.to_owned();
        let i = match self.find_live(&key) {
            None => {
                return StopOutcome::NotFound;
            },
            Some(i) => i,
        };
        proof {
            lemma_live_place_unique(self@, device@, i as int);
        }
        let ghost before = old(self)@;
        let mut sessions = self.take_sessions();
        let session = sessions.remove(i);
        sessions.insert(
            i,
            Session { id: session.id, device: session.device, state: SessionState::StopRequested },
        );
        proof {
            lemma_stop_requested_wf(before, i as int);
            assert(view_of(sessions@, self.next_id@).sessions =~= before.with_state(
                i as int,
                SessionState::StopRequested,
            ).sessions);
        }
        self.sessions = sessions;
        match session.state {
            SessionState::Running(h) => StopOutcome::Terminate(h),
            _ => StopOutcome::Cancelled,
        }
    }

    /// The handle of the session `id`, while the session runs.
    pub fn running_handle(&self, id: &SessionId) -> (out: Option<&H>)
        ensures
            match out {
                Some(h) => self@.has(id@) && self@.sessions[self@.place(id@)].state
                    == SessionState::Running(*h),
                None => !(self@.has(id@) && self@.sessions[self@.place(id@)].state is Running),
            },
    {
        proof {
            use_type_invariant(self);
        }
        match self.find(&id.serial) {
            None => None,
            Some(i) => {
                proof {
                    lemma_place_unique(self@, id@, i as int);
                }
                match &self.sessions[i].state {
                    SessionState::Running(h) => Some(h),
                    _ => None,
                }
            },
        }
    }

    /// One poll of the supervisor of the session `id`.
    ///
    /// `observation` is what polling the process showed; it counts only
    /// while the session runs. A running session whose process has exited,
    /// or could not be polled, terminates; so does a session that was asked
    /// to stop. The session is then dropped, and the supervisor is told
    /// once that it ended. A session that is not kept yields `Gone`.
    pub fn supervise(&mut self, id: &SessionId, observation: ExitObservation) -> (out: Supervision<
        H,
    >)
        ensures
            final(self)@ == old(self)@.supervise(id@, observation).0,
            out@ == old(self)@.supervise(id@, observation).1,
            final(self)@.wf(),
    {
        proof {
            use_type_invariant(&*self);
        }
        let i = match self.find(&id.serial) {
            None => {
                return Supervision::Gone;
            },
            Some(i) => i,
        };
        proof {
            lemma_place_unique(self@, id@, i as int);
        }
        let ends = match &self.sessions[i].state {
            SessionState::Starting => false,
            SessionState::Running(_) => match observation {
                ExitObservation::StillRunning => false,
                _ => true,
            },
            SessionState::StopRequested => true,
        };
        if !ends {
            return Supervision::Continue;
        }
        let ghost before = old(self)@;
        let mut sessions = self.take_sessions();
        let session = sessions.remove(i);
        proof {
            lemma_without_wf(before, i as int);
            assert(view_of(sessions@, self.next_id@).sessions =~= before.without(i as int).sessions);
        }
        self.sessions = sessions;
        match session.state {
            SessionState::Running(h) => {
                let exit_status = match observation {
                    ExitObservation::Exited(code) => code,
                    _ => None,
                };
                Supervision::Ended { device: session.device, exit_status, released: Some(h) }
            },
            _ => Supervision::Ended { device: session.device, exit_status: None, released: None },
        }
    }

    /// The devices whose session is running, oldest session first.
    pub fn snapshot(&self) -> (out: Vec<String>)
        ensures
            out.deep_view() == self@.snapshot(),
            self@.wf(),
    {
        proof {
            use_type_invariant(self);
        }
        let ghost views = self@.sessions;
        let ghost pick = |s: SessionView<H>| RegistryView::<H>::running_device(s);
        let mut out: Vec<String> = Vec::new();
        let mut i: usize = 0;
        while i < self.sessions.len()
            invariant
                i <= self.sessions.len(),
                views == self@.sessions,
                views.len() == self.sessions.len(),
                pick == |s: SessionView<H>| RegistryView::<H>::running_device(s),
                out.deep_view() == views.take(i as int).filter_map(pick),
            decreases self.sessions.len() - i,
        {
            proof {
                views.lemma_filter_map_take_succ(pick, i as int);
            }
            let ghost before = out.deep_view();
            match &self.sessions[i].state {
                SessionState::Running(_) => {
                    out.push(self.sessions[i].device.clone());
                    assert(out.deep_view() =~= before + seq![views[i as int].device]);
                },
                _ => {},
            }
            i += 1;
        }
        proof {
            assert(views.take(views.len() as int) =~= views);
        }
        out
    }

    /// Shuts the registry down: every session is asked to stop, and the
    /// handles of the sessions that were running are handed out to be
    /// terminated, oldest session first.
    ///
    /// Afterwards the registry holds no handle and no device is occupied. A
    /// start whose spawn is still under way finds its session asked to stop.
    pub fn drain_and_terminate_all(&mut self) -> (out: Vec<Released<H>>)
        ensures
            final(self)@ == old(self)@.drain().0,
            out@.map_values(|r: Released<H>| r@) == old(self)@.drain().1,
            final(self)@.wf(),
    {
        proof {
            use_type_invariant(&*self);
        }
        let ghost before = old(self)@;
        let ghost mark = |s: SessionView<H>| RegistryView::<H>::drained_session(s);
        let ghost pick = |s: SessionView<H>| RegistryView::<H>::drained_handle(s);
        let sessions = self.take_sessions();
        let mut kept: Vec<Session<H>> = Vec::new();
        let mut out: Vec<Released<H>> = Vec::new();
        for session in it: sessions
            invariant
                mark == |s: SessionView<H>| RegistryView::<H>::drained_session(s),
                pick == |s: SessionView<H>| RegistryView::<H>::drained_handle(s),
                it.seq().map_values(|s: Session<H>| s@) == before.sessions,
                kept@.map_values(|s: Session<H>| s@) == before.sessions.take(
                    it.index() as int,
                ).map_values(mark),
                out@.map_values(|r: Released<H>| r@) == before.sessions.take(
                    it.index() as int,
                ).filter_map(pick),
        {
            let ghost k = it.index() as int;
            let ghost kept_before = kept@.map_values(|s: Session<H>| s@);
            let ghost out_before = out@.map_values(|r: Released<H>| r@);
            proof {
                before.sessions.lemma_filter_map_take_succ(pick, k);
                assert(session@ == before.sessions[k]);
            }
            match session.state {
                SessionState::Running(h) => {
                    out.push(Released { device: session.device.clone(), handle: h });
                    assert(out@.map_values(|r: Released<H>| r@) =~= out_before + seq![
                        (before.sessions[k].device, h),
                    ]);
                },
                _ => {
                    assert(out@.map_values(|r: Released<H>| r@) =~= out_before);
                },
            }
            kept.push(
                Session { id: session.id, device: session.device, state: SessionState::StopRequested },
            );
            proof {
                assert(kept@.map_values(|s: Session<H>| s@) =~= kept_before.push(
                    mark(before.sessions[k]),
                ));
                assert(before.sessions.take(k + 1).map_values(mark) =~= before.sessions.take(
                    k,
                ).map_values(mark).push(mark(before.sessions[k])));
            }
        }
        proof {
            lemma_drain_wf(before);
            assert(before.sessions.take(before.sessions.len() as int) =~= before.sessions);
            assert(view_of(kept@, self.next_id@).sessions =~= before.drain().0.sessions);
        }
        self.sessions = kept;
        out
    }
}

} // verus!
