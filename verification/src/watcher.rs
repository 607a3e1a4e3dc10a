//! The device watcher: from one listing of the visible devices to the
//! next, which devices have come and which have gone.
//!
//! The caller runs the polling loop. `start` names the loop that it asks
//! for. Once per cycle the loop asks under that name whether it is still
//! meant to go on, runs the probe, hands the outcome to `on_probe` and
//! delivers the events it gets back; then it sleeps for
//! `WATCH_INTERVAL_MS`. Only the polling loop changes the snapshot: a
//! listing that is made on request is handed through by `on_request`.

use crate::event::{event_views, Event, EventView};
use crate::serial::Serial;
use vstd::prelude::*;
use vstd::string::StringExecFns;

verus! {

/// The time between two cycles of the watcher, in milliseconds.
pub const WATCH_INTERVAL_MS: u64 = 2000;

/// `s` without repetitions: each device where it occurs first.
pub open spec fn distinct(s: Seq<Seq<char>>) -> Seq<Seq<char>>
    decreases s.len(),
{
    if s.len() == 0 {
        s
    } else {
        let rest = distinct(s.drop_last());
        if rest.contains(s.last()) {
            rest
        } else {
            rest.push(s.last())
        }
    }
}

/// The devices of `s` that are not in `other`, in the order of `s`.
pub open spec fn minus(s: Seq<Seq<char>>, other: Seq<Seq<char>>) -> Seq<Seq<char>>
    decreases s.len(),
{
    if s.len() == 0 {
        s
    } else {
        let rest = minus(s.drop_last(), other);
        if other.contains(s.last()) {
            rest
        } else {
            rest.push(s.last())
        }
    }
}

/// What the log says when the probe has failed.
pub open spec fn probe_failure_message(error: Seq<char>) -> Seq<char> {
    "[Backend] Failed to read adb devices: "@ + error + "\n"@
}

/// The outcome of one probe as the contracts see it.
pub ghost enum ProbeView {
    /// The probe has failed, with this error.
    Failed(Seq<char>),
    /// The probe has listed these devices.
    Listed(Seq<Seq<char>>),
}

/// The watcher as the contracts see it.
pub ghost struct WatcherView {
    /// Whether the polling loop is meant to run.
    pub monitoring: bool,
    /// The name of the polling loop that was asked for last.
    pub epoch: nat,
    /// The devices of the last listing, without repetitions.
    pub snapshot: Seq<Seq<char>>,
}

impl WatcherView {
    /// The devices that a listing adds to the snapshot.
    pub open spec fn added(self, current: Seq<Seq<char>>) -> Seq<Seq<char>> {
        minus(distinct(current), self.snapshot)
    }

    /// The devices that a listing removes from the snapshot.
    pub open spec fn removed(self, current: Seq<Seq<char>>) -> Seq<Seq<char>> {
        minus(self.snapshot, current)
    }

    /// The watcher after a listing.
    pub open spec fn observe(self, current: Seq<Seq<char>>) -> Self {
        WatcherView { monitoring: self.monitoring, epoch: self.epoch, snapshot: distinct(current) }
    }

    /// The events of a listing: one for the devices that have come, if
    /// there are any, then one for the devices that have gone, if there are
    /// any.
    pub open spec fn change_events(self, current: Seq<Seq<char>>) -> Seq<EventView> {
        let added = self.added(current);
        let removed = self.removed(current);
        let connected = if added.len() > 0 {
            seq![EventView::DeviceConnected(added)]
        } else {
            Seq::empty()
        };
        let disconnected = if removed.len() > 0 {
            seq![EventView::DeviceDisconnected(removed)]
        } else {
            Seq::empty()
        };
        connected + disconnected
    }

    /// One cycle: the watcher after the probe, and the events to deliver. A
    /// failed probe leaves the snapshot as it is and is logged.
    pub open spec fn cycle(self, probe: ProbeView) -> (Self, Seq<EventView>) {
        match probe {
            ProbeView::Failed(error) => (
                self,
                seq![EventView::DiagnosticLog(probe_failure_message(error))],
            ),
            ProbeView::Listed(current) => (self.observe(current), self.change_events(current)),
        }
    }
}

impl WatcherView {
    /// Asking for monitoring: where the watcher is not monitoring, a new
    /// polling loop is named and has to be started; where it is, nothing
    /// changes.
    pub open spec fn start(self) -> (Self, Option<nat>) {
        if self.monitoring {
            (self, None)
        } else {
            (
                WatcherView {
                    monitoring: true,
                    epoch: self.epoch + 1,
                    snapshot: self.snapshot,
                },
                Some(self.epoch + 1),
            )
        }
    }

    /// Asking the polling loop to end.
    pub open spec fn stop(self) -> Self {
        WatcherView { monitoring: false, epoch: self.epoch, snapshot: self.snapshot }
    }

    /// Whether the polling loop `id` is meant to go on: the watcher is
    /// monitoring, and `id` is the loop that was asked for last.
    pub open spec fn continues(self, id: nat) -> bool {
        self.monitoring && self.epoch == id
    }
}

/// What the log says when a listing on request has failed.
pub open spec fn request_failure_message(error: Seq<char>) -> Seq<char> {
    "[Backend] Failed to get connected devices: "@ + error + "\n"@
}

/// What is logged for a listing on request: its failure, if it has failed.
pub open spec fn request_log(probe: ProbeView) -> Seq<EventView> {
    match probe {
        ProbeView::Failed(error) => seq![
            EventView::DiagnosticLog(request_failure_message(error)),
        ],
        ProbeView::Listed(_) => Seq::empty(),
    }
}

/// A device is in a sequence when it is its last device or is among the
/// devices before.
pub proof fn lemma_contains_last(s: Seq<Seq<char>>, d: Seq<char>)
    requires
        s.len() > 0,
    ensures
        s.contains(d) <==> s.drop_last().contains(d) || s.last() == d,
{
    if s.contains(d) {
        let i = choose|i: int| 0 <= i < s.len() && s[i] == d;
        if i < s.len() - 1 {
            assert(s.drop_last()[i] == d);
        }
    }
    if s.drop_last().contains(d) {
        let i = choose|i: int| 0 <= i < s.drop_last().len() && s.drop_last()[i] == d;
        assert(s[i] == d);
    }
    if s.last() == d {
        assert(s[s.len() - 1] == d);
    }
}

/// A device is in a sequence with one more device when it is that device
/// or was in the sequence.
pub proof fn lemma_contains_push(s: Seq<Seq<char>>, x: Seq<char>, d: Seq<char>)
    ensures
        s.push(x).contains(d) <==> s.contains(d) || x == d,
{
    lemma_contains_last(s.push(x), d);
    assert(s.push(x).drop_last() =~= s);
}

/// A listing without its repetitions holds the same devices.
pub proof fn lemma_distinct_contains(s: Seq<Seq<char>>, d: Seq<char>)
    ensures
        distinct(s).contains(d) <==> s.contains(d),
    decreases s.len(),
{
    if s.len() > 0 {
        lemma_distinct_contains(s.drop_last(), d);
        lemma_contains_last(s, d);
        lemma_contains_push(distinct(s.drop_last()), s.last(), d);
    }
}

/// A listing without its repetitions repeats nothing and holds the same
/// devices as a set.
pub proof fn lemma_distinct(s: Seq<Seq<char>>)
    ensures
        distinct(s).no_duplicates(),
        distinct(s).to_set() == s.to_set(),
    decreases s.len(),
{
    if s.len() > 0 {
        let rest = distinct(s.drop_last());
        lemma_distinct(s.drop_last());
        if !rest.contains(s.last()) {
            assert forall|i: int, j: int| 0 <= i < j < distinct(s).len() implies distinct(s)[i]
                != distinct(s)[j] by {
                if j == rest.len() {
                    assert(rest[i] == distinct(s)[i]);
                }
            }
        }
    }
    assert forall|d: Seq<char>| distinct(s).to_set().contains(d) <==> s.to_set().contains(d) by {
        lemma_distinct_contains(s, d);
    }
    assert(distinct(s).to_set() =~= s.to_set());
}

/// What is left of `s` without `other` holds the devices of `s` that
/// `other` lacks.
pub proof fn lemma_minus_contains(s: Seq<Seq<char>>, other: Seq<Seq<char>>, d: Seq<char>)
    ensures
        minus(s, other).contains(d) <==> s.contains(d) && !other.contains(d),
    decreases s.len(),
{
    if s.len() > 0 {
        lemma_minus_contains(s.drop_last(), other, d);
        lemma_contains_last(s, d);
        lemma_contains_push(minus(s.drop_last(), other), s.last(), d);
    }
}

/// What is left of `s` without `other` is, as a set, the difference of the
/// two, and repeats no device that `s` does not repeat.
pub proof fn lemma_minus(s: Seq<Seq<char>>, other: Seq<Seq<char>>)
    ensures
        minus(s, other).to_set() == s.to_set().difference(other.to_set()),
        s.no_duplicates() ==> minus(s, other).no_duplicates(),
    decreases s.len(),
{
    let out = minus(s, other);
    if s.len() > 0 && s.no_duplicates() {
        let rest = minus(s.drop_last(), other);
        lemma_minus(s.drop_last(), other);
        assert(s.drop_last().no_duplicates());
        if !other.contains(s.last()) {
            assert forall|i: int, j: int| 0 <= i < j < out.len() implies out[i] != out[j] by {
                if j == rest.len() {
                    assert(rest[i] == out[i]);
                    assert(rest.contains(out[i]));
                    lemma_minus_contains(s.drop_last(), other, out[i]);
                    let k = choose|k: int|
                        0 <= k < s.drop_last().len() && s.drop_last()[k] == out[i];
                    assert(s[k] == s.drop_last()[k]);
                }
            }
        }
    }
    assert forall|d: Seq<char>|
        out.to_set().contains(d) <==> s.to_set().difference(other.to_set()).contains(d) by {
        lemma_minus_contains(s, other, d);
    }
    assert(out.to_set() =~= s.to_set().difference(other.to_set()));
}

/// The devices that a listing reports as come and gone are the two
/// differences between the set of the listing and the set of the snapshot:
/// those in the listing that the snapshot lacks, and those in the snapshot
/// that the listing lacks. Neither report repeats a device, and the new
/// snapshot holds the devices of the listing.
pub proof fn law_changes_are_set_differences(w: WatcherView, current: Seq<Seq<char>>)
    requires
        w.snapshot.no_duplicates(),
    ensures
        w.added(current).to_set() == current.to_set().difference(w.snapshot.to_set()),
        w.removed(current).to_set() == w.snapshot.to_set().difference(current.to_set()),
        w.added(current).no_duplicates(),
        w.removed(current).no_duplicates(),
        w.observe(current).snapshot.to_set() == current.to_set(),
        w.observe(current).snapshot.no_duplicates(),
{
    lemma_distinct(current);
    lemma_minus(distinct(current), w.snapshot);
    lemma_minus(w.snapshot, current);
}

impl WatcherView {
    /// The watcher after a sequence of cycles.
    pub open spec fn run(self, probes: Seq<ProbeView>) -> Self
        decreases probes.len(),
    {
        if probes.len() == 0 {
            self
        } else {
            self.run(probes.drop_last()).cycle(probes.last()).0
        }
    }
}

/// The devices of the last probe that has listed any, or `initial` where
/// none has.
pub open spec fn last_listing(initial: Set<Seq<char>>, probes: Seq<ProbeView>) -> Set<Seq<char>>
    decreases probes.len(),
{
    if probes.len() == 0 {
        initial
    } else {
        match probes.last() {
            ProbeView::Listed(current) => current.to_set(),
            ProbeView::Failed(_) => last_listing(initial, probes.drop_last()),
        }
    }
}

/// The devices that the events report as connected.
pub open spec fn reported_connected(events: Seq<EventView>) -> Set<Seq<char>>
    decreases events.len(),
{
    if events.len() == 0 {
        Set::empty()
    } else {
        let before = reported_connected(events.drop_last());
        match events.last() {
            EventView::DeviceConnected(devices) => before.union(devices.to_set()),
            _ => before,
        }
    }
}

/// The devices that the events report as disconnected.
pub open spec fn reported_disconnected(events: Seq<EventView>) -> Set<Seq<char>>
    decreases events.len(),
{
    if events.len() == 0 {
        Set::empty()
    } else {
        let before = reported_disconnected(events.drop_last());
        match events.last() {
            EventView::DeviceDisconnected(devices) => before.union(devices.to_set()),
            _ => before,
        }
    }
}

/// Whether an event reports a change of device presence.
pub open spec fn is_device_event(event: EventView) -> bool {
    event is DeviceConnected || event is DeviceDisconnected
}

/// Over every sequence of cycles the snapshot stays free of repetitions
/// and holds the devices of the last probe that has listed any.
pub proof fn lemma_snapshot_is_last_listing(w: WatcherView, probes: Seq<ProbeView>)
    requires
        w.snapshot.no_duplicates(),
    ensures
        w.run(probes).snapshot.no_duplicates(),
        w.run(probes).snapshot.to_set() == last_listing(w.snapshot.to_set(), probes),
        w.run(probes).monitoring == w.monitoring,
        w.run(probes).epoch == w.epoch,
    decreases probes.len(),
{
    if probes.len() > 0 {
        lemma_snapshot_is_last_listing(w, probes.drop_last());
        match probes.last() {
            ProbeView::Listed(current) => {
                lemma_distinct(current);
            },
            ProbeView::Failed(_) => {},
        }
    }
}

/// For every sequence of probe outcomes, the devices that a cycle reports
/// as connected and as disconnected are the two differences between its
/// listing and the listing of the last probe that succeeded before it. A
/// cycle reports a change only where there is one, and a cycle whose probe
/// has failed reports no change and leaves the snapshot as it is.
pub proof fn law_events_follow_listings(w: WatcherView, probes: Seq<ProbeView>, probe: ProbeView)
    requires
        w.snapshot.no_duplicates(),
    ensures
        ({
            let before = w.run(probes);
            let seen = last_listing(w.snapshot.to_set(), probes);
            let (after, events) = before.cycle(probe);
            match probe {
                ProbeView::Failed(_) => {
                    &&& after == before
                    &&& forall|i: int| 0 <= i < events.len() ==> !is_device_event(events[i])
                    &&& reported_connected(events) == Set::<Seq<char>>::empty()
                    &&& reported_disconnected(events) == Set::<Seq<char>>::empty()
                },
                ProbeView::Listed(current) => {
                    &&& after.snapshot.to_set() == current.to_set()
                    &&& forall|i: int| 0 <= i < events.len() ==> is_device_event(events[i])
                    &&& reported_connected(events) == current.to_set().difference(seen)
                    &&& reported_disconnected(events) == seen.difference(current.to_set())
                    &&& events.len() == (if current.to_set().difference(seen).is_empty() {
                        0int
                    } else {
                        1int
                    }) + (if seen.difference(current.to_set()).is_empty() {
                        0int
                    } else {
                        1int
                    })
                },
            }
        }),
{
    let before = w.run(probes);
    lemma_snapshot_is_last_listing(w, probes);
    let (after, events) = before.cycle(probe);
    match probe {
        ProbeView::Failed(_) => {
            reveal_with_fuel(reported_connected, 2);
            reveal_with_fuel(reported_disconnected, 2);
            assert(events.drop_last() =~= Seq::<EventView>::empty());
        },
        ProbeView::Listed(current) => {
            law_changes_are_set_differences(before, current);
            let added = before.added(current);
            let removed = before.removed(current);
            lemma_nonempty_set(added);
            lemma_nonempty_set(removed);
            lemma_reported(added, removed);
        },
    }
}

/// A sequence holds a device exactly when its set is not empty.
pub proof fn lemma_nonempty_set(s: Seq<Seq<char>>)
    ensures
        s.len() > 0 <==> !s.to_set().is_empty(),
{
    if s.len() > 0 {
        assert(s.contains(s[0]));
        assert(s.to_set().contains(s[0]));
    } else {
        assert(s.to_set() =~= Set::<Seq<char>>::empty());
    }
    if !s.to_set().is_empty() {
        let d = choose|d: Seq<char>| s.to_set().contains(d);
        assert(s.contains(d));
    }
}

/// What the events of a listing report is what has been added and what
/// has been removed.
pub proof fn lemma_reported(added: Seq<Seq<char>>, removed: Seq<Seq<char>>)
    ensures
        ({
            let connected = if added.len() > 0 {
                seq![EventView::DeviceConnected(added)]
            } else {
                Seq::empty()
            };
            let disconnected = if removed.len() > 0 {
                seq![EventView::DeviceDisconnected(removed)]
            } else {
                Seq::empty()
            };
            let events = connected + disconnected;
            &&& reported_connected(events) == added.to_set()
            &&& reported_disconnected(events) == removed.to_set()
            &&& forall|i: int| 0 <= i < events.len() ==> is_device_event(events[i])
        }),
{
    let connected = if added.len() > 0 {
        seq![EventView::DeviceConnected(added)]
    } else {
        Seq::empty()
    };
    let disconnected = if removed.len() > 0 {
        seq![EventView::DeviceDisconnected(removed)]
    } else {
        Seq::empty()
    };
    let events = connected + disconnected;
    reveal_with_fuel(reported_connected, 3);
    reveal_with_fuel(reported_disconnected, 3);
    lemma_nonempty_set(added);
    lemma_nonempty_set(removed);
    if events.len() == 2 {
        assert(events.drop_last() =~= connected);
        assert(connected.drop_last() =~= Seq::<EventView>::empty());
        assert(reported_connected(events) =~= added.to_set());
        assert(reported_disconnected(events) =~= removed.to_set());
    } else if events.len() == 1 {
        assert(events.drop_last() =~= Seq::<EventView>::empty());
        assert(reported_connected(events) =~= added.to_set());
        assert(reported_disconnected(events) =~= removed.to_set());
    } else {
        assert(reported_connected(events) =~= added.to_set());
        assert(reported_disconnected(events) =~= removed.to_set());
    }
}

/// One step on the watcher.
pub ghost enum WatcherStep {
    /// Monitoring is asked for.
    Start,
    /// The polling loop is asked to end.
    Stop,
    /// A polling loop hands in the outcome of its probe.
    Probe(ProbeView),
}

impl WatcherView {
    /// The watcher after one step.
    pub open spec fn step(self, s: WatcherStep) -> Self {
        match s {
            WatcherStep::Start => self.start().0,
            WatcherStep::Stop => self.stop(),
            WatcherStep::Probe(probe) => self.cycle(probe).0,
        }
    }

    /// The watcher after a sequence of steps.
    pub open spec fn run_steps(self, steps: Seq<WatcherStep>) -> Self
        decreases steps.len(),
    {
        if steps.len() == 0 {
            self
        } else {
            self.run_steps(steps.drop_last()).step(steps.last())
        }
    }
}

/// Over every sequence of steps the names of the polling loops only grow,
/// and a watcher that monitors again after it was stopped has named a new
/// loop.
pub proof fn lemma_epoch_grows(w: WatcherView, steps: Seq<WatcherStep>)
    ensures
        w.epoch <= w.run_steps(steps).epoch,
        !w.monitoring && w.run_steps(steps).monitoring ==> w.epoch < w.run_steps(steps).epoch,
    decreases steps.len(),
{
    if steps.len() > 0 {
        lemma_epoch_grows(w, steps.drop_last());
    }
}

/// A polling loop that was asked to end does not go on: after a stop,
/// every loop that was named before gets the answer no at its next check
/// and at every later one, whatever starts, stops and cycles follow. So a
/// new start never leaves two loops running past one more cycle.
pub proof fn law_stopped_loop_ends(w: WatcherView, id: nat, steps: Seq<WatcherStep>)
    requires
        id <= w.epoch,
    ensures
        !w.stop().run_steps(steps).continues(id),
{
    lemma_epoch_grows(w.stop(), steps);
}

/// A start of a watcher that is not monitoring names a loop that no
/// earlier start has named, and from then on that loop is the only one
/// that is meant to go on.
pub proof fn law_start_names_a_new_loop(w: WatcherView)
    requires
        !w.monitoring,
    ensures
        w.start().1 == Some(w.epoch + 1),
        forall|id: nat| #[trigger] w.start().0.continues(id) <==> id == w.epoch + 1,
{
}

/// What has come and what has gone between two listings.
#[derive(Clone, Debug, PartialEq, Eq)]
pub struct DeviceChanges {
    /// The devices that the listing adds, in the order of the listing.
    pub added: Vec<String>,
    /// The devices that the listing lacks, in the order of the snapshot.
    pub removed: Vec<String>,
}

/// Whether `item` is among `list`.
fn holds(list: &Vec<String>, item: &String) -> (out: bool)
    ensures
        out == list.deep_view().contains(item@),
{
    let mut i: usize = 0;
    while i < list.len()
        invariant
            i <= list.len(),
            forall|k: int| 0 <= k < i ==> list.deep_view()[k] != item@,
        decreases list.len() - i,
    {
        if list[i] == *item {
            assert(list.deep_view()[i as int] == item@);
            return true;
        }
        i += 1;
    }
    false
}

/// `list` without repetitions.
fn distinct_of(list: &Vec<String>) -> (out: Vec<String>)
    ensures
        out.deep_view() == distinct(list.deep_view()),
{
    let ghost all = list.deep_view();
    let mut out: Vec<String> = Vec::new();
    let mut i: usize = 0;
    proof {
        assert(out.deep_view() =~= distinct(all.take(0)));
    }
    while i < list.len()
        invariant
            i <= list.len(),
            all == list.deep_view(),
            out.deep_view() == distinct(all.take(i as int)),
        decreases list.len() - i,
    {
        let ghost before = out.deep_view();
        proof {
            assert(all.take(i + 1).drop_last() =~= all.take(i as int));
            assert(all.take(i + 1).last() == list@[i as int]@);
        }
        if !holds(&out, &list[i]) {
            out.push(list[i].clone());
            assert(out.deep_view() =~= before.push(list@[i as int]@));
        }
        i += 1;
    }
    proof {
        assert(all.take(list.len() as int) =~= all);
    }
    out
}

/// The items of `list` that `other` lacks.
fn minus_of(list: &Vec<String>, other: &Vec<String>) -> (out: Vec<String>)
    ensures
        out.deep_view() == minus(list.deep_view(), other.deep_view()),
{
    let ghost all = list.deep_view();
    let mut out: Vec<String> = Vec::new();
    let mut i: usize = 0;
    proof {
        assert(out.deep_view() =~= minus(all.take(0), other.deep_view()));
    }
    while i < list.len()
        invariant
            i <= list.len(),
            all == list.deep_view(),
            out.deep_view() == minus(all.take(i as int), other.deep_view()),
        decreases list.len() - i,
    {
        let ghost before = out.deep_view();
        proof {
            assert(all.take(i + 1).drop_last() =~= all.take(i as int));
            assert(all.take(i + 1).last() == list@[i as int]@);
        }
        if !holds(other, &list[i]) {
            out.push(list[i].clone());
            assert(out.deep_view() =~= before.push(list@[i as int]@));
        }
        i += 1;
    }
    proof {
        assert(all.take(list.len() as int) =~= all);
    }
    out
}

/// The outcome of a probe as the contracts see it.
pub open spec fn probe_view(probe: Result<Vec<String>, String>) -> ProbeView {
    match probe {
        Ok(devices) => ProbeView::Listed(devices.deep_view()),
        Err(error) => ProbeView::Failed(error@),
    }
}

/// Names one polling loop.
#[derive(Clone, Debug, PartialEq, Eq)]
pub struct LoopId {
    epoch: Serial,
}

impl View for LoopId {
    type V = nat;

    closed spec fn view(&self) -> nat {
        self.epoch@
    }
}

/// A listing that was made on request, and what is logged for it.
#[derive(Debug, PartialEq, Eq)]
pub struct RequestedListing {
    /// The outcome of the probe, as it was.
    pub result: Result<Vec<String>, String>,
    /// The diagnostics to deliver.
    pub log: Vec<Event>,
}

/// The device watcher: whether it is monitoring, which polling loop it has
/// asked for last, and the devices of the last listing of that loop.
pub struct DeviceWatcher {
    monitoring: bool,
    epoch: Serial,
    snapshot: Vec<String>,
}

impl View for DeviceWatcher {
    type V = WatcherView;

    closed spec fn view(&self) -> WatcherView {
        WatcherView {
            monitoring: self.monitoring,
            epoch: self.epoch@,
            snapshot: self.snapshot.deep_view(),
        }
    }
}

impl DeviceWatcher {
    #[verifier::type_invariant]
    spec fn inv(self) -> bool {
        self.snapshot.deep_view().no_duplicates()
    }

    /// A watcher that is not monitoring, has asked for no polling loop and
    /// has seen no device.
    pub fn new() -> (out: Self)
        ensures
            out@ == (WatcherView {
                monitoring: false,
                epoch: 0,
                snapshot: Seq::empty(),
            }),
    {
        let out = DeviceWatcher { monitoring: false, epoch: Serial::zero(), snapshot: Vec::new() };
        assert(out.snapshot.deep_view() =~= Seq::<Seq<char>>::empty());
        out
    }

    /// Asks for monitoring. Where the watcher is not monitoring, the name
    /// of a new polling loop is returned: the caller has to start that
    /// loop. Where it is monitoring already, there is nothing to start.
    pub fn start(&mut self) -> (out: Option<LoopId>)
        ensures
            final(self)@ == old(self)@.start().0,
            match out {
                Some(id) => old(self)@.start().1 == Some(id@),
                None => old(self)@.start().1 is None,
            },
    {
        proof {
            use_type_invariant(&*self);
        }
        if self.monitoring {
            return None;
        }
        let epoch = self.epoch.next();
        let id = LoopId { epoch: epoch.copy() };
        self.monitoring = true;
        self.epoch = epoch;
        Some(id)
    }

    /// Asks the polling loop to end. The loop sees it at the start of its
    /// next cycle.
    pub fn stop(&mut self)
        ensures
            final(self)@ == old(self)@.stop(),
    {
        proof {
            use_type_invariant(&*self);
        }
        self.monitoring = false;
    }

    /// Whether the watcher is monitoring.
    pub fn is_monitoring(&self) -> (out: bool)
        ensures
            out == self@.monitoring,
    {
        self.monitoring
    }

    /// Whether the polling loop `id` is meant to go on. A loop asks this
    /// at the start of each cycle and ends when the answer is no: after a
    /// stop, and also after a stop and a new start, which has named another
    /// loop.
    pub fn continues(&self, id: &LoopId) -> (out: bool)
        ensures
            out == self@.continues(id@),
    {
        self.monitoring && self.epoch.same(&id.epoch)
    }

    /// Hands a listing that was made on request through. The watcher does
    /// not take note of it: its snapshot stays as the polling loop left it
    /// and no change of presence is reported. A probe that has failed is
    /// logged.
    pub fn on_request(&self, probe: Result<Vec<String>, String>) -> (out: RequestedListing)
        ensures
            out.result == probe,
            event_views(out.log@) == request_log(probe_view(probe)),
    {
        let mut log: Vec<Event> = Vec::new();
        match &probe {
            Err(error) => {
                let message = String::from_str(
                    "[Backend] Failed to get connected devices: ",
                ).concat(error.as_str()).concat("\n");
                log.push(Event::DiagnosticLog(message));
            },
            Ok(_) => {},
        }
        assert(event_views(log@) =~= request_log(probe_view(probe)));
        RequestedListing { result: probe, log }
    }

    /// The devices of the last listing.
    pub fn present_devices(&self) -> (out: Vec<String>)
        ensures
            out.deep_view() == self@.snapshot,
            self@.snapshot.no_duplicates(),
    {
        proof {
            use_type_invariant(self);
        }
        let out = self.snapshot.clone();
        proof {
            assert(out.deep_view() =~= self.snapshot.deep_view()) by {
                assert(out@.len() == self.snapshot@.len());
                assert forall|i: int| 0 <= i < out@.len() implies out@[i]@
                    == self.snapshot@[i]@ by {
                    assert(cloned(self.snapshot@[i], out@[i]));
                }
            }
        }
        out
    }

    /// Takes `devices` as the listing of the moment and tells what has
    /// come and what has gone since the last one.
    pub fn observe(&mut self, devices: &Vec<String>) -> (out: DeviceChanges)
        ensures
            final(self)@ == old(self)@.observe(devices.deep_view()),
            out.added.deep_view() == old(self)@.added(devices.deep_view()),
            out.removed.deep_view() == old(self)@.removed(devices.deep_view()),
            out.added.deep_view().to_set() == devices.deep_view().to_set().difference(
                old(self)@.snapshot.to_set(),
            ),
            out.removed.deep_view().to_set() == old(self)@.snapshot.to_set().difference(
                devices.deep_view().to_set(),
            ),
            final(self)@.snapshot.to_set() == devices.deep_view().to_set(),
            final(self)@.snapshot.no_duplicates(),
            out.added.deep_view().no_duplicates(),
            out.removed.deep_view().no_duplicates(),
    {
        proof {
            use_type_invariant(&*self);
            law_changes_are_set_differences(old(self)@, devices.deep_view());
        }
        let snapshot = distinct_of(devices);
        let added = minus_of(&snapshot, &self.snapshot);
        let removed = minus_of(&self.snapshot, devices);
        self.snapshot = snapshot;
        DeviceChanges { added, removed }
    }

    /// One cycle of the polling loop, after its probe: takes the outcome
    /// and returns the events to deliver, in order.
    ///
    /// A probe that has failed is logged and leaves the snapshot as it is.
    /// A listing replaces the snapshot; the devices that have come and
    /// those that have gone are reported in one event each, and where
    /// nothing has changed nothing is reported.
    pub fn on_probe(&mut self, probe: Result<Vec<String>, String>) -> (out: Vec<Event>)
        ensures
            final(self)@ == old(self)@.cycle(probe_view(probe)).0,
            event_views(out@) == old(self)@.cycle(probe_view(probe)).1,
            final(self)@.snapshot.no_duplicates(),
    {
        proof {
            use_type_invariant(&*self);
        }
        let mut out: Vec<Event> = Vec::new();
        match probe {
            Err(error) => {
                let message = String::from_str("[Backend] Failed to read adb devices: ").concat(
                    error.as_str(),
                ).concat("\n");
                out.push(Event::DiagnosticLog(message));
                assert(event_views(out@) =~= old(self)@.cycle(probe_view(probe)).1);
            },
            Ok(devices) => {
                let changes = self.observe(&devices);
                if changes.added.len() > 0 {
                    out.push(Event::DeviceConnected(changes.added));
                }
                if changes.removed.len() > 0 {
                    out.push(Event::DeviceDisconnected(changes.removed));
                }
                assert(event_views(out@) =~= old(self)@.change_events(devices.deep_view()));
            },
        }
        out
    }
}

} // verus!
