//! What the front end is told: changes of device presence, the output and
//! the end of sessions, and diagnostics.

use vstd::prelude::*;

verus! {

/// One notification for the event sink.
#[derive(Clone, Debug, PartialEq, Eq)]
pub enum Event {
    /// These devices have become visible.
    DeviceConnected(Vec<String>),
    /// These devices are no longer visible.
    DeviceDisconnected(Vec<String>),
    /// The process of a session has written a line.
    SessionLog { device_id: String, line: String },
    /// The session of a device has ended, with this exit status if one is
    /// known.
    SessionEnded { device_id: String, exit_status: Option<i32> },
    /// A message for the diagnostic log.
    DiagnosticLog(String),
}

/// An event as the contracts see it.
pub ghost enum EventView {
    DeviceConnected(Seq<Seq<char>>),
    DeviceDisconnected(Seq<Seq<char>>),
    SessionLog { device_id: Seq<char>, line: Seq<char> },
    SessionEnded { device_id: Seq<char>, exit_status: Option<i32> },
    DiagnosticLog(Seq<char>),
}

impl View for Event {
    type V = EventView;

    open spec fn view(&self) -> EventView {
        match *self {
            Event::DeviceConnected(devices) => EventView::DeviceConnected(devices.deep_view()),
            Event::DeviceDisconnected(devices) => EventView::DeviceDisconnected(
                devices.deep_view(),
            ),
            Event::SessionLog { device_id, line } => EventView::SessionLog {
                device_id: device_id@,
                line: line@,
            },
            Event::SessionEnded { device_id, exit_status } => EventView::SessionEnded {
                device_id: device_id@,
                exit_status,
            },
            Event::DiagnosticLog(message) => EventView::DiagnosticLog(message@),
        }
    }
}

/// What a vector of events holds.
pub open spec fn event_views(events: Seq<Event>) -> Seq<EventView> {
    Seq::new(events.len(), |i: int| events[i]@)
}

/// The name of the channel on which an event is delivered.
pub open spec fn channel_spec(event: EventView) -> Seq<char> {
    match event {
        EventView::DeviceConnected(_) => "device-connected"@,
        EventView::DeviceDisconnected(_) => "device-disconnected"@,
        EventView::SessionLog { .. } => "scrcpy-log"@,
        EventView::SessionEnded { .. } => "scrcpy-exit"@,
        EventView::DiagnosticLog(_) => "app-log"@,
    }
}

impl Event {
    /// The name of the channel on which the event is delivered.
    pub fn channel(&self) -> (out: &'static str)
        ensures
            out@ == channel_spec(self@),
    {
        match self {
            Event::DeviceConnected(_) => "device-connected",
            Event::DeviceDisconnected(_) => "device-disconnected",
            Event::SessionLog { .. } => "scrcpy-log",
            Event::SessionEnded { .. } => "scrcpy-exit",
            Event::DiagnosticLog(_) => "app-log",
        }
    }
}

/// The event for a line that the process of a session has written. The
/// line is passed on as it was read, with its line ending.
pub fn session_log(device_id: &str, line: &str) -> (out: Event)
    ensures
        out@ == (EventView::SessionLog { device_id: device_id@, line: line@ }),
{
    Event::SessionLog { device_id: device_id.to_owned(), line: line.to_owned() }
}

/// The event for a session that has ended.
pub fn session_ended(device_id: String, exit_status: Option<i32>) -> (out: Event)
    ensures
        out@ == (EventView::SessionEnded { device_id: device_id@, exit_status }),
{
    Event::SessionEnded { device_id, exit_status }
}

} // verus!
