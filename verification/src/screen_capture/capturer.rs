//! Choosing the monitor to capture.
use vstd::prelude::*;

verus! {

/// Why capturing could not start.
#[derive(Debug)]
pub enum CaptureError {
    /// No monitor was found.
    NoMonitors,
    /// The monitor index is past the last monitor.
    InvalidIndex(usize),
    /// The capturer of the operating system failed; its message.
    InitError(String),
}

/// Takes the monitor at `index` out of the monitors that were found: no monitors at all is
/// `NoMonitors`, an index past the last one is `InvalidIndex(index)`.
pub fn pick_monitor<T>(monitors: Vec<T>, index: usize) -> (monitor: Result<T, CaptureError>)
    ensures
        monitors@.len() == 0 ==> monitor matches Err(CaptureError::NoMonitors),
        monitors@.len() > 0 && index >= monitors@.len() ==> (monitor matches Err(
            CaptureError::InvalidIndex(i),
        ) && i == index),
        monitors@.len() > 0 && index < monitors@.len() ==> (monitor matches Ok(m) && m
            == monitors@[index as int]),
{
    if monitors.len() == 0 {
        return Err(CaptureError::NoMonitors);
    }
    let mut monitors = monitors;
    if index >= monitors.len() {
        return Err(CaptureError::InvalidIndex(index));
    }
    let monitor = monitors.remove(index);
    Ok(monitor)
}

/// What the capture thread keeps between two rounds: the monitor it has opened, whether
/// a capturer is open on it, and that monitor's size.
#[derive(Debug, Clone, Copy, PartialEq, Eq)]
pub struct CaptureState {
    pub monitor: Option<usize>,
    pub capturing: bool,
    pub width: u32,
    pub height: u32,
}

/// What the capture thread does in a round.
#[derive(Debug, Clone, Copy, PartialEq, Eq)]
pub enum CaptureAction {
    /// Open a capturer on this monitor.
    Open(usize),
    /// Grab a frame with the open capturer.
    Grab,
}

/// What came of a round.
#[derive(Debug, Clone, Copy, PartialEq, Eq)]
pub enum CaptureEvent {
    /// A capturer was opened on the monitor, which has this size.
    Opened { monitor: usize, width: u32, height: u32 },
    /// No monitor has the selected index.
    MonitorMissing,
    /// The capturer could not be opened.
    OpenFailed,
    /// A frame was grabbed.
    Grabbed,
    /// No new frame was ready yet.
    NotReady,
    /// The display server dropped the capture.
    ConnectionReset,
    /// Grabbing failed in another way.
    GrabFailed,
}

impl CaptureState {
    /// Nothing opened yet.
    pub fn new() -> (state: Self)
        ensures
            state == (CaptureState { monitor: None, capturing: false, width: 0, height: 0 }),
    {
        CaptureState { monitor: None, capturing: false, width: 0, height: 0 }
    }
}

/// The action for a round: a capturer is (re)opened when none is open or the selected
/// monitor is not the one opened; otherwise a frame is grabbed.
pub open spec fn capture_action_of(state: CaptureState, selected_monitor: usize) -> CaptureAction {
    if state.monitor != Some(selected_monitor) || !state.capturing {
        CaptureAction::Open(selected_monitor)
    } else {
        CaptureAction::Grab
    }
}

/// The state after a round, or none when the thread stops: it stops when the monitor is
/// missing or the capturer cannot be opened; an opened capturer records its monitor and
/// size; a connection reset or another grabbing error drops the capturer so that the next
/// round opens it again; a grabbed frame or one not ready yet changes nothing.
pub open spec fn capture_next(state: CaptureState, event: CaptureEvent) -> Option<CaptureState> {
    match event {
        CaptureEvent::Opened { monitor, width, height } => Some(
            CaptureState { monitor: Some(monitor), capturing: true, width, height },
        ),
        CaptureEvent::MonitorMissing => None,
        CaptureEvent::OpenFailed => None,
        CaptureEvent::Grabbed => Some(state),
        CaptureEvent::NotReady => Some(state),
        CaptureEvent::ConnectionReset => Some(CaptureState { capturing: false, ..state }),
        CaptureEvent::GrabFailed => Some(CaptureState { capturing: false, ..state }),
    }
}

/// Decides what the capture thread does in a round.
pub fn capture_action(state: &CaptureState, selected_monitor: usize) -> (action: CaptureAction)
    ensures
        action == capture_action_of(*state, selected_monitor),
{
    let same_monitor = match state.monitor {
        Some(m) => m == selected_monitor,
        None => false,
    };
    if !same_monitor || !state.capturing {
        CaptureAction::Open(selected_monitor)
    } else {
        CaptureAction::Grab
    }
}

/// The capture thread's state after a round, or none when it stops.
pub fn capture_transition(state: CaptureState, event: CaptureEvent) -> (next: Option<CaptureState>)
    ensures
        next == capture_next(state, event),
{
    match event {
        CaptureEvent::Opened { monitor, width, height } => Some(
            CaptureState { monitor: Some(monitor), capturing: true, width, height },
        ),
        CaptureEvent::MonitorMissing => None,
        CaptureEvent::OpenFailed => None,
        CaptureEvent::Grabbed => Some(state),
        CaptureEvent::NotReady => Some(state),
        CaptureEvent::ConnectionReset => Some(CaptureState { capturing: false, ..state }),
        CaptureEvent::GrabFailed => Some(CaptureState { capturing: false, ..state }),
    }
}

/// Once a capturer is open on the selected monitor, the thread grabs frames from it until
/// the selection changes or grabbing fails; after a failure it opens the monitor again.
pub proof fn lemma_capture_keeps_grabbing(state: CaptureState, selected_monitor: usize, width: u32, height: u32)
    ensures
        ({
            let opened = capture_next(
                state,
                CaptureEvent::Opened { monitor: selected_monitor, width, height },
            ).unwrap();
            &&& capture_action_of(opened, selected_monitor) == CaptureAction::Grab
            &&& capture_action_of(capture_next(opened, CaptureEvent::Grabbed).unwrap(), selected_monitor)
                == CaptureAction::Grab
            &&& capture_action_of(capture_next(opened, CaptureEvent::NotReady).unwrap(), selected_monitor)
                == CaptureAction::Grab
            &&& capture_action_of(
                capture_next(opened, CaptureEvent::ConnectionReset).unwrap(),
                selected_monitor,
            ) == CaptureAction::Open(selected_monitor)
            &&& capture_action_of(capture_next(opened, CaptureEvent::GrabFailed).unwrap(), selected_monitor)
                == CaptureAction::Open(selected_monitor)
        }),
{
}

} // verus!
