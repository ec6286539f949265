//! The capture of input at screen edges, as far as it does not depend on the compositor: what is
//! counted, what is handed on and when the capture ends. Key contents are never logged.
use crate::error::Error;
use crate::geometry::{Boundary, Edge};
use crate::input::emergency_modifiers;
use crate::number::Binary64;
use crate::protocol::{Axis, InputEvent, ScrollSource};
use std::collections::BTreeSet;
use vstd::prelude::*;

verus! {

broadcast use {vstd::std_specs::btree::group_btree_axioms, vstd::laws_cmp::group_laws_cmp};

/// Inputs that may wait until the capture is complete.
pub const MAX_WAITING_INPUTS: usize = 128;

pub const MAX_SECONDS: u64 = 30;

pub const MAX_STRIP_SIZE: u32 = 32768;

pub const MAX_STRIP_BYTES: u64 = 4_194_304;

/// The thickness of the surface at a screen edge, in logical pixels.
pub const STRIP_THICKNESS: u32 = 2;

/// Why a capture ended.
#[derive(Clone, Copy, Debug, PartialEq, Eq, Structural)]
pub enum StopCause {
    Escape,
    Timeout,
    Cancelled,
    ConnectionError,
    EventQueueUnavailable,
    UnsupportedInput,
    OutputConfigurationChanged,
    SeatRemoved,
    SurfaceError,
    SurfaceClosed,
    InvalidKeyState,
    KeyboardFocusLost,
    PointerUnlocked,
    ShortcutsInhibitorLost,
}

impl StopCause {
    pub open spec fn label(self) -> Seq<char> {
        match self {
            StopCause::Escape => "escape"@,
            StopCause::Timeout => "timeout"@,
            StopCause::Cancelled => "cancelled"@,
            StopCause::ConnectionError => "connection_error"@,
            StopCause::EventQueueUnavailable => "event_queue_unavailable"@,
            StopCause::UnsupportedInput => "unsupported_input"@,
            StopCause::OutputConfigurationChanged => "output_configuration_changed"@,
            StopCause::SeatRemoved => "seat_removed"@,
            StopCause::SurfaceError => "surface_error"@,
            StopCause::SurfaceClosed => "surface_closed"@,
            StopCause::InvalidKeyState => "invalid_key_state"@,
            StopCause::KeyboardFocusLost => "keyboard_focus_lost"@,
            StopCause::PointerUnlocked => "pointer_unlocked"@,
            StopCause::ShortcutsInhibitorLost => "shortcuts_inhibitor_lost"@,
        }
    }

    pub fn as_str(self) -> (r: &'static str)
        ensures
            r@ == self.label(),
    {
        match self {
            StopCause::Escape => "escape",
            StopCause::Timeout => "timeout",
            StopCause::Cancelled => "cancelled",
            StopCause::ConnectionError => "connection_error",
            StopCause::EventQueueUnavailable => "event_queue_unavailable",
            StopCause::UnsupportedInput => "unsupported_input",
            StopCause::OutputConfigurationChanged => "output_configuration_changed",
            StopCause::SeatRemoved => "seat_removed",
            StopCause::SurfaceError => "surface_error",
            StopCause::SurfaceClosed => "surface_closed",
            StopCause::InvalidKeyState => "invalid_key_state",
            StopCause::KeyboardFocusLost => "keyboard_focus_lost",
            StopCause::PointerUnlocked => "pointer_unlocked",
            StopCause::ShortcutsInhibitorLost => "shortcuts_inhibitor_lost",
        }
    }
}

/// What a capture hands on.
pub enum Event {
    Armed,
    Started { edge: usize, fraction: Binary64 },
    Ready,
    Input(InputEvent),
    Finished { reason: StopCause },
}

/// What was observed during a capture: never which keys.
#[derive(Clone, Copy, Debug, PartialEq, Eq, Structural)]
pub struct Counts {
    pub pointer_lock_observed: bool,
    pub keyboard_focus_observed: bool,
    pub shortcuts_inhibited_observed: bool,
    pub relative_motion_events: u64,
    pub keyboard_events: u64,
    pub button_events: u64,
    pub scroll_events: u64,
    pub stop_reason: Option<StopCause>,
}

/// Where and for how long to capture.
pub struct Options {
    pub output: String,
    pub edge: Edge,
    pub start: Binary64,
    pub end: Binary64,
    pub seconds: u64,
}

impl Options {
    pub open spec fn problem(self) -> Option<Error> {
        if !(Boundary { edge: self.edge, start: self.start, end: self.end }.valid()) {
            Some(Error::InvalidBoundary)
        } else if self.output@.len() == 0 {
            Some(Error::OutputNotChosen)
        } else if !(1 <= self.seconds <= MAX_SECONDS) {
            Some(Error::InvalidDuration)
        } else {
            None
        }
    }

    pub fn validate(&self) -> (r: Result<(), Error>)
        ensures
            match self.problem() {
                Some(e) => r == Err::<(), Error>(e),
                None => r is Ok,
            },
    {
        let boundary = Boundary { edge: self.edge, start: self.start, end: self.end };
        match boundary.validate() {
            Err(e) => return Err(e),
            Ok(()) => {},
        }
        if self.output.as_str().is_empty() {
            return Err(Error::OutputNotChosen);
        }
        if !(1 <= self.seconds && self.seconds <= MAX_SECONDS) {
            return Err(Error::InvalidDuration);
        }
        Ok(())
    }
}

pub open spec fn first_options_problem(list: Seq<Options>) -> Option<Error>
    decreases list.len(),
{
    if list.len() == 0 {
        None
    } else if list[0].problem() is Some {
        list[0].problem()
    } else {
        first_options_problem(list.drop_first())
    }
}

/// The first reason, in the order of the checks, for which a capture is refused. Only a stream of
/// events can come from several edges.
pub open spec fn capture_problem(list: Seq<Options>, streaming: bool) -> Option<Error> {
    if !(1 <= list.len() <= crate::edges::MAX_EDGES) {
        Some(Error::InvalidCaptureCount)
    } else if first_options_problem(list) is Some {
        first_options_problem(list)
    } else if !streaming && list.len() != 1 {
        Some(Error::ProbeNeedsOneEdge)
    } else {
        None
    }
}

pub fn check_options(list: &Vec<Options>, streaming: bool) -> (r: Result<(), Error>)
    ensures
        match capture_problem(list@, streaming) {
            Some(e) => r == Err::<(), Error>(e),
            None => r is Ok,
        },
{
    if list.len() < 1 || list.len() > crate::edges::MAX_EDGES {
        return Err(Error::InvalidCaptureCount);
    }
    assert(list@.skip(0) == list@);
    for i in 0..list.len()
        invariant
            1 <= list@.len() <= crate::edges::MAX_EDGES,
            first_options_problem(list@) == first_options_problem(list@.skip(i as int)),
    {
        assert(list@.skip(i as int).drop_first() == list@.skip(i + 1));
        match list[i].validate() {
            Err(e) => return Err(e),
            Ok(()) => {},
        }
    }
    if !streaming && list.len() != 1 {
        return Err(Error::ProbeNeedsOneEdge);
    }
    Ok(())
}

/// Where the surface of a screen edge goes.
#[derive(Clone, Copy, PartialEq, Eq, Structural)]
pub struct StripPlacement {
    /// The screen edge, across its length, that the surface is attached to.
    pub bottom: bool,
    pub right: bool,
    pub margin_top: i32,
    pub margin_left: i32,
    pub width: u32,
    pub height: u32,
}

pub open spec fn is_horizontal(edge: Edge) -> bool {
    edge == Edge::Top || edge == Edge::Bottom
}

pub fn horizontal(edge: Edge) -> (r: bool)
    ensures
        r == is_horizontal(edge),
{
    match edge {
        Edge::Top => true,
        Edge::Bottom => true,
        Edge::Left => false,
        Edge::Right => false,
    }
}

/// Places a surface along an edge: it starts at `offset` and is `extent` long, which is at least
/// one pixel.
pub fn strip_placement(edge: Edge, offset: i32, extent: u32) -> (r: Result<StripPlacement, Error>)
    ensures
        extent == 0 ==> r == Err::<StripPlacement, Error>(Error::SpanTooNarrow),
        extent > 0 ==> r == Ok::<StripPlacement, Error>(
            StripPlacement {
                bottom: edge == Edge::Bottom,
                right: edge == Edge::Right,
                margin_top: if is_horizontal(edge) {
                    0
                } else {
                    offset
                },
                margin_left: if is_horizontal(edge) {
                    offset
                } else {
                    0
                },
                width: if is_horizontal(edge) {
                    extent
                } else {
                    STRIP_THICKNESS
                },
                height: if is_horizontal(edge) {
                    STRIP_THICKNESS
                } else {
                    extent
                },
            },
        ),
{
    if extent == 0 {
        return Err(Error::SpanTooNarrow);
    }
    let along = horizontal(edge);
    Ok(
        StripPlacement {
            bottom: edge == Edge::Bottom,
            right: edge == Edge::Right,
            margin_top: if along {
                0
            } else {
                offset
            },
            margin_left: if along {
                offset
            } else {
                0
            },
            width: if along {
                extent
            } else {
                STRIP_THICKNESS
            },
            height: if along {
                STRIP_THICKNESS
            } else {
                extent
            },
        },
    )
}

/// The number of bytes that the picture of a surface takes.
pub fn strip_bytes(width: u32, height: u32) -> (r: Result<u64, Error>)
    ensures
        !(0 < width <= MAX_STRIP_SIZE && 0 < height <= MAX_STRIP_SIZE) ==> r == Err::<u64, Error>(
            Error::InvalidStripSize,
        ),
        0 < width <= MAX_STRIP_SIZE && 0 < height <= MAX_STRIP_SIZE ==> if width * height * 4
            <= MAX_STRIP_BYTES {
            r matches Ok(bytes) && bytes == width * height * 4
        } else {
            r == Err::<u64, Error>(Error::StripTooLarge)
        },
{
    if !(width > 0 && height > 0 && width <= MAX_STRIP_SIZE && height <= MAX_STRIP_SIZE) {
        return Err(Error::InvalidStripSize);
    }
    assert(width * height <= MAX_STRIP_SIZE * MAX_STRIP_SIZE) by (nonlinear_arith)
        requires
            0 < width <= MAX_STRIP_SIZE,
            0 < height <= MAX_STRIP_SIZE,
    ;
    let bytes: u64 = width as u64 * height as u64 * 4;
    if bytes > MAX_STRIP_BYTES {
        return Err(Error::StripTooLarge);
    }
    Ok(bytes)
}

/// The surface at one edge.
#[derive(Clone, Copy, PartialEq, Eq, Structural)]
pub struct Strip {
    pub output_id: u32,
    pub horizontal: bool,
    pub extent: u32,
    pub armed: bool,
    pub pointer_inside: bool,
}

/// The state of a capture.
pub ghost struct CaptureModel {
    pub counts: Counts,
    pub finished: bool,
    pub requested: bool,
    pub streaming: bool,
    pub ready_reported: bool,
    pub selected: Option<usize>,
    pub start_fraction: Binary64,
    pub waiting: Seq<InputEvent>,
    pub pressed: Set<u16>,
    pub scroll_source: ScrollSource,
    pub strips: Seq<Strip>,
}

pub open spec fn one_more(count: u64) -> u64 {
    if count == u64::MAX {
        u64::MAX
    } else {
        (count + 1) as u64
    }
}

fn bump(count: u64) -> (r: u64)
    ensures
        r == one_more(count),
{
    if count == u64::MAX {
        u64::MAX
    } else {
        count + 1
    }
}

impl CaptureModel {
    pub open spec fn wf(self) -> bool {
        &&& self.selected matches Some(edge) ==> edge < self.strips.len()
        &&& self.requested ==> self.selected is Some
        &&& self.counts.keyboard_focus_observed ==> self.selected is Some
        &&& self.finished ==> self.counts.stop_reason is Some
    }

    /// Only the first cause is kept.
    pub open spec fn finish(self, cause: StopCause) -> CaptureModel {
        CaptureModel {
            counts: Counts {
                stop_reason: if self.finished {
                    self.counts.stop_reason
                } else {
                    Some(cause)
                },
                ..self.counts
            },
            finished: true,
            ..self
        }
    }

    /// An event is handed on only from a stream that has not ended.
    pub open spec fn publish(self, event: Event) -> Seq<Event> {
        if self.finished || !self.streaming {
            Seq::empty()
        } else {
            seq![event]
        }
    }

    /// An input event: handed on once the capture is complete, kept until then.
    pub open spec fn input(self, event: InputEvent) -> (CaptureModel, Seq<Event>) {
        if event.problem() is Some {
            (self.finish(StopCause::UnsupportedInput), Seq::empty())
        } else if self.ready_reported {
            (self, self.publish(Event::Input(event)))
        } else if self.waiting.len() < MAX_WAITING_INPUTS {
            (CaptureModel { waiting: self.waiting.push(event), ..self }, Seq::empty())
        } else {
            (self.finish(StopCause::EventQueueUnavailable), Seq::empty())
        }
    }

    /// Pointer, keyboard and shortcuts are all captured.
    pub open spec fn complete(self) -> bool {
        &&& self.counts.pointer_lock_observed
        &&& self.counts.keyboard_focus_observed
        &&& self.counts.shortcuts_inhibited_observed
    }

    /// Once the capture is complete, what has waited follows on the start.
    pub open spec fn report_ready(self) -> (CaptureModel, Seq<Event>) {
        if self.ready_reported || !self.complete() {
            (self, Seq::empty())
        } else {
            let events = if self.finished || !self.streaming {
                Seq::empty()
            } else {
                seq![Event::Started { edge: self.selected->0, fraction: self.start_fraction }]
                    + self.waiting.map_values(|event: InputEvent| Event::Input(event)) + seq![
                    Event::Ready,
                ]
            };
            (
                CaptureModel { ready_reported: true, waiting: Seq::empty(), ..self },
                events,
            )
        }
    }

    /// A key transition.
    pub open spec fn key(self, key: u32, pressed: bool) -> (CaptureModel, Seq<Event>) {
        if !self.requested {
            (self, Seq::empty())
        } else {
            let counted = CaptureModel {
                counts: Counts {
                    keyboard_events: one_more(self.counts.keyboard_events),
                    ..self.counts
                },
                ..self
            };
            if key > u16::MAX {
                (counted.finish(StopCause::UnsupportedInput), Seq::empty())
            } else {
                let code = key as u16;
                let held = if pressed {
                    self.pressed.insert(code)
                } else {
                    self.pressed.remove(code)
                };
                let noted = CaptureModel { pressed: held, ..counted };
                if code == 1 && pressed && (!self.streaming || crate::input::emergency_held(held)) {
                    (noted.finish(StopCause::Escape), Seq::empty())
                } else if self.pressed.contains(code) != pressed {
                    noted.input(InputEvent::Key { code, pressed })
                } else {
                    (noted, Seq::empty())
                }
            }
        }
    }

    /// The keys that are held when the keyboard is captured.
    pub open spec fn press_all(self, keys: Seq<u32>) -> (CaptureModel, Seq<Event>)
        decreases keys.len(),
    {
        if keys.len() == 0 {
            (self, Seq::empty())
        } else {
            let (before, events) = self.press_all(keys.drop_last());
            let key = keys.last();
            if key <= u16::MAX && !before.pressed.contains(key as u16) {
                let (after, more) = CaptureModel {
                    pressed: before.pressed.insert(key as u16),
                    ..before
                }.input(InputEvent::Key { code: key as u16, pressed: true });
                (after, events + more)
            } else {
                (before, events)
            }
        }
    }

    /// The keyboard is captured by the selected surface.
    pub open spec fn keyboard_enter(self, keys: Seq<u32>, complete: bool) -> (
        CaptureModel,
        Seq<Event>,
    ) {
        let focused = CaptureModel {
            counts: Counts { keyboard_focus_observed: true, ..self.counts },
            ..self
        };
        if !complete {
            (focused.finish(StopCause::InvalidKeyState), Seq::empty())
        } else {
            let (pressed, events) = focused.press_all(keys);
            let (ready, more) = pressed.report_ready();
            (ready, events + more)
        }
    }
}

/// A capture. Events that a method returns are to be handed on in order; where that fails, the
/// capture ends with `StopCause::EventQueueUnavailable`.
pub struct Capture {
    pub counts: Counts,
    pub finished: bool,
    pub requested: bool,
    pub streaming: bool,
    pub ready_reported: bool,
    pub selected: Option<usize>,
    pub start_fraction: Binary64,
    pub pending_inputs: Vec<InputEvent>,
    pub pressed_keys: BTreeSet<u16>,
    pub scroll_source: ScrollSource,
    pub strips: Vec<Strip>,
}

impl View for Capture {
    type V = CaptureModel;

    open spec fn view(&self) -> CaptureModel {
        CaptureModel {
            counts: self.counts,
            finished: self.finished,
            requested: self.requested,
            streaming: self.streaming,
            ready_reported: self.ready_reported,
            selected: self.selected,
            start_fraction: self.start_fraction,
            waiting: self.pending_inputs@,
            pressed: self.pressed_keys@,
            scroll_source: self.scroll_source,
            strips: self.strips@,
        }
    }
}

impl Capture {
    /// A capture that nothing has happened to yet. Without a stream the edges are watched at once.
    pub fn new(streaming: bool, strips: Vec<Strip>) -> (r: Capture)
        ensures
            r@.wf(),
            r.counts == (Counts {
                pointer_lock_observed: false,
                keyboard_focus_observed: false,
                shortcuts_inhibited_observed: false,
                relative_motion_events: 0,
                keyboard_events: 0,
                button_events: 0,
                scroll_events: 0,
                stop_reason: None,
            }),
            !r.finished,
            !r.requested,
            !r.ready_reported,
            r.streaming == streaming,
            r.selected is None,
            r.strips == strips,
            r@.waiting.len() == 0,
            r@.pressed == Set::<u16>::empty(),
            r.scroll_source == ScrollSource::Wheel,
    {
        Capture {
            counts: Counts {
                pointer_lock_observed: false,
                keyboard_focus_observed: false,
                shortcuts_inhibited_observed: false,
                relative_motion_events: 0,
                keyboard_events: 0,
                button_events: 0,
                scroll_events: 0,
                stop_reason: None,
            },
            finished: false,
            requested: false,
            streaming,
            ready_reported: false,
            selected: None,
            start_fraction: Binary64::zero(),
            pending_inputs: Vec::new(),
            pressed_keys: BTreeSet::new(),
            scroll_source: ScrollSource::Wheel,
            strips,
        }
    }

    pub fn finish(&mut self, cause: StopCause)
        requires
            old(self)@.wf(),
        ensures
            final(self)@ == old(self)@.finish(cause),
            final(self)@.wf(),
    {
        if !self.finished {
            self.counts.stop_reason = Some(cause);
        }
        self.finished = true;
    }

    fn publish(&self, event: Event, events: &mut Vec<Event>)
        ensures
            final(events)@ == old(events)@ + self@.publish(event),
    {
        if !self.finished && self.streaming {
            events.push(event);
        }
        assert(events@ =~= old(events)@ + self@.publish(event));
    }

    fn input(&mut self, event: InputEvent, events: &mut Vec<Event>)
        requires
            old(self)@.wf(),
        ensures
            final(self)@ == old(self)@.input(event).0,
            final(events)@ == old(events)@ + old(self)@.input(event).1,
            final(self)@.wf(),
    {
        if event.validate().is_err() {
            self.finish(StopCause::UnsupportedInput);
        } else if self.ready_reported {
            self.publish(Event::Input(event), events);
        } else if self.pending_inputs.len() < MAX_WAITING_INPUTS {
            self.pending_inputs.push(event);
        } else {
            self.finish(StopCause::EventQueueUnavailable);
        }
        assert(final(events)@ =~= old(events)@ + old(self)@.input(event).1);
    }

    fn report_ready(&mut self, events: &mut Vec<Event>)
        requires
            old(self)@.wf(),
        ensures
            final(self)@ == old(self)@.report_ready().0,
            final(events)@ == old(events)@ + old(self)@.report_ready().1,
            final(self)@.wf(),
    {
        if self.ready_reported || !(self.counts.pointer_lock_observed
            && self.counts.keyboard_focus_observed && self.counts.shortcuts_inhibited_observed) {
            assert(events@ =~= old(events)@ + Seq::<Event>::empty());
            return;
        }
        let edge: usize = match self.selected {
            Some(edge) => edge,
            None => 0,
        };
        self.ready_reported = true;
        let mut waiting: Vec<InputEvent> = Vec::new();
        std::mem::swap(&mut waiting, &mut self.pending_inputs);
        assert(self@ == old(self)@.report_ready().0);
        if self.finished || !self.streaming {
            assert(events@ =~= old(events)@ + Seq::<Event>::empty());
            return;
        }
        events.push(Event::Started { edge, fraction: self.start_fraction });
        let ghost all = waiting@;
        let ghost start = events@;
        for event in it: waiting
            invariant
                it.seq() == all,
                events@ =~= start + all.take(it.index()).map_values(
                    |event: InputEvent| Event::Input(event),
                ),
        {
            events.push(Event::Input(event));
        }
        events.push(Event::Ready);
        assert(all.take(all.len() as int) == all);
        assert(events@ =~= old(events)@ + old(self)@.report_ready().1);
    }

    /// The edges are watched from now on. A pointer that is at an edge already has to leave it
    /// first.
    pub fn arm(&mut self) -> (r: Vec<Event>)
        requires
            old(self)@.wf(),
        ensures
            final(self)@.wf(),
            final(self)@.strips.len() == old(self)@.strips.len(),
            forall|i: int|
                0 <= i < old(self)@.strips.len() ==> #[trigger] final(self)@.strips[i] == (Strip {
                    armed: !old(self)@.strips[i].pointer_inside,
                    ..old(self)@.strips[i]
                }),
            final(self)@ == (CaptureModel { strips: final(self)@.strips, ..old(self)@ }),
            r@ == old(self)@.publish(Event::Armed),
    {
        let count: usize = self.strips.len();
        for i in 0..count
            invariant
                count == self.strips@.len(),
                old(self)@.strips.len() == count,
                self@ == (CaptureModel { strips: self@.strips, ..old(self)@ }),
                forall|j: int|
                    0 <= j < i ==> #[trigger] self@.strips[j] == (Strip {
                        armed: !old(self)@.strips[j].pointer_inside,
                        ..old(self)@.strips[j]
                    }),
                forall|j: int| i <= j < count ==> #[trigger] self@.strips[j] == old(self)@.strips[j],
        {
            let strip: Strip = self.strips[i];
            self.strips.set(i, Strip { armed: !strip.pointer_inside, ..strip });
        }
        let mut events: Vec<Event> = Vec::new();
        self.publish(Event::Armed, &mut events);
        assert(events@ =~= old(self)@.publish(Event::Armed));
        events
    }

    /// What a crossing does: `cancelled` where the owner has asked for an end, `pointer` where
    /// there is one to lock.
    fn request_capture(&mut self, edge: usize, fraction: Binary64, cancelled: bool, pointer: bool) -> (r:
        bool)
        requires
            old(self)@.wf(),
        ensures
            final(self)@.wf(),
            r == old(self)@.captures(edge, cancelled, pointer),
            final(self)@ == old(self)@.crossed(edge, fraction, cancelled, pointer),
    {
        if self.requested || self.finished {
            return false;
        }
        if cancelled {
            self.finish(StopCause::Cancelled);
            return false;
        }
        self.start_fraction = fraction.clamp_to_unit();
        if edge >= self.strips.len() || !pointer {
            return false;
        }
        self.selected = Some(edge);
        self.requested = true;
        true
    }

    /// The pointer entered the surface of an edge. Returns whether the cursor is to be hidden, and
    /// whether pointer, keyboard and shortcuts are to be captured.
    pub fn pointer_enter(&mut self, edge: usize, fraction: Binary64, cancelled: bool, pointer: bool) -> (r:
        (bool, bool))
        requires
            old(self)@.wf(),
        ensures
            final(self)@.wf(),
            ({
                let known = edge < old(self)@.strips.len();
                let entered = (CaptureModel {
                    strips: if known {
                        old(self)@.strips.update(
                            edge as int,
                            Strip { pointer_inside: true, ..old(self)@.strips[edge as int] },
                        )
                    } else {
                        old(self)@.strips
                    },
                    ..old(self)@
                });
                let armed = known && old(self)@.strips[edge as int].armed;
                &&& r.0 == armed
                &&& r.1 == (armed && entered.captures(edge, cancelled, pointer))
                &&& final(self)@ == (if armed {
                    entered.crossed(edge, fraction, cancelled, pointer)
                } else {
                    entered
                })
            }),
    {
        if edge >= self.strips.len() {
            return (false, false);
        }
        let strip: Strip = self.strips[edge];
        self.strips.set(edge, Strip { pointer_inside: true, ..strip });
        if strip.armed {
            let capture = self.request_capture(edge, fraction, cancelled, pointer);
            (true, capture)
        } else {
            (false, false)
        }
    }

    /// The pointer left the surface of an edge, which is watched from now on.
    pub fn pointer_leave(&mut self, edge: usize)
        requires
            old(self)@.wf(),
        ensures
            final(self)@.wf(),
            final(self)@ == (CaptureModel {
                strips: if edge < old(self)@.strips.len() {
                    old(self)@.strips.update(
                        edge as int,
                        Strip {
                            pointer_inside: false,
                            armed: true,
                            ..old(self)@.strips[edge as int]
                        },
                    )
                } else {
                    old(self)@.strips
                },
                ..old(self)@
            }),
    {
        if edge < self.strips.len() {
            let strip: Strip = self.strips[edge];
            self.strips.set(edge, Strip { pointer_inside: false, armed: true, ..strip });
        }
    }

    /// A pointer button.
    pub fn button(&mut self, button: u32, pressed: bool) -> (r: Vec<Event>)
        requires
            old(self)@.wf(),
        ensures
            final(self)@.wf(),
            (final(self)@, r@) == old(self)@.button(button, pressed),
    {
        let mut events: Vec<Event> = Vec::new();
        if self.requested {
            self.counts.button_events = bump(self.counts.button_events);
            if button <= 0xffff {
                self.input(InputEvent::Button { code: button as u16, pressed }, &mut events);
            }
        }
        assert(events@ =~= old(self)@.button(button, pressed).1);
        events
    }

    /// Where the next scrolling comes from.
    pub fn axis_source(&mut self, source: ScrollSource)
        requires
            old(self)@.wf(),
        ensures
            final(self)@.wf(),
            final(self)@ == (CaptureModel { scroll_source: source, ..old(self)@ }),
    {
        self.scroll_source = source;
    }

    pub fn scroll(&mut self, axis: Axis, amount: Binary64) -> (r: Vec<Event>)
        requires
            old(self)@.wf(),
        ensures
            final(self)@.wf(),
            (final(self)@, r@) == old(self)@.scroll(axis, amount),
    {
        let mut events: Vec<Event> = Vec::new();
        if self.requested {
            self.counts.scroll_events = bump(self.counts.scroll_events);
            let source = self.scroll_source;
            self.input(InputEvent::Scroll { axis, amount, source }, &mut events);
        }
        assert(events@ =~= old(self)@.scroll(axis, amount).1);
        events
    }

    pub fn scroll_stop(&mut self, axis: Axis) -> (r: Vec<Event>)
        requires
            old(self)@.wf(),
        ensures
            final(self)@.wf(),
            (final(self)@, r@) == old(self)@.scroll_stop(axis),
    {
        let mut events: Vec<Event> = Vec::new();
        if self.requested {
            let source = self.scroll_source;
            self.input(InputEvent::ScrollStop { axis, source }, &mut events);
        }
        assert(events@ =~= old(self)@.scroll_stop(axis).1);
        events
    }

    pub fn motion(&mut self, dx: Binary64, dy: Binary64) -> (r: Vec<Event>)
        requires
            old(self)@.wf(),
        ensures
            final(self)@.wf(),
            (final(self)@, r@) == old(self)@.motion(dx, dy),
    {
        let mut events: Vec<Event> = Vec::new();
        if self.requested {
            self.counts.relative_motion_events = bump(self.counts.relative_motion_events);
            self.input(InputEvent::Motion { dx, dy }, &mut events);
        }
        assert(events@ =~= old(self)@.motion(dx, dy).1);
        events
    }

    /// A key. Without a stream the escape key ends the capture, with one only the emergency chord
    /// does; it is not handed on.
    pub fn key(&mut self, key: u32, pressed: bool) -> (r: Vec<Event>)
        requires
            old(self)@.wf(),
        ensures
            final(self)@.wf(),
            (final(self)@, r@) == old(self)@.key(key, pressed),
    {
        let mut events: Vec<Event> = Vec::new();
        if !self.requested {
            assert(events@ =~= Seq::<Event>::empty());
            return events;
        }
        self.counts.keyboard_events = bump(self.counts.keyboard_events);
        if key > 0xffff {
            self.finish(StopCause::UnsupportedInput);
            assert(events@ =~= Seq::<Event>::empty());
            return events;
        }
        let code: u16 = key as u16;
        let changed = if pressed {
            self.pressed_keys.insert(code)
        } else {
            self.pressed_keys.remove(&code)
        };
        let emergency = emergency_modifiers(&self.pressed_keys);
        if code == 1 && pressed && (!self.streaming || emergency) {
            self.finish(StopCause::Escape);
        } else if changed {
            self.input(InputEvent::Key { code, pressed }, &mut events);
        }
        assert(events@ =~= old(self)@.key(key, pressed).1);
        events
    }

    /// The selected surface got the keyboard; `keys` are held, and `complete` says whether the list
    /// could be read to its end.
    pub fn keyboard_enter(&mut self, keys: &Vec<u32>, complete: bool) -> (r: Vec<Event>)
        requires
            old(self)@.wf(),
            old(self)@.selected is Some,
        ensures
            final(self)@.wf(),
            (final(self)@, r@) == old(self)@.keyboard_enter(keys@, complete),
    {
        let mut events: Vec<Event> = Vec::new();
        self.counts.keyboard_focus_observed = true;
        if !complete {
            self.finish(StopCause::InvalidKeyState);
            assert(events@ =~= Seq::<Event>::empty());
            return events;
        }
        let ghost focused = self@;
        assert(events@ =~= Seq::<Event>::empty());
        for i in 0..keys.len()
            invariant
                self@.wf(),
                self@ == focused.press_all(keys@.take(i as int)).0,
                events@ == focused.press_all(keys@.take(i as int)).1,
        {
            assert(keys@.take(i + 1).drop_last() == keys@.take(i as int));
            let key: u32 = keys[i];
            let ghost so_far = events@;
            if key <= 0xffff {
                let code: u16 = key as u16;
                let ghost before = self@;
                if self.pressed_keys.insert(code) {
                    self.input(InputEvent::Key { code, pressed: true }, &mut events);
                } else {
                    assert(self@.pressed =~= before.pressed);
                }
            }
            assert(self@ == focused.press_all(keys@.take(i + 1)).0);
        }
        assert(keys@.take(keys@.len() as int) == keys@);
        self.report_ready(&mut events);
        events
    }

    /// Another surface got the keyboard.
    pub fn keyboard_leave(&mut self)
        requires
            old(self)@.wf(),
        ensures
            final(self)@.wf(),
            final(self)@ == (if old(self)@.counts.keyboard_focus_observed {
                old(self)@.finish(StopCause::KeyboardFocusLost)
            } else {
                old(self)@
            }),
    {
        if self.counts.keyboard_focus_observed {
            self.finish(StopCause::KeyboardFocusLost);
        }
    }

    /// The pointer is locked.
    pub fn pointer_locked(&mut self) -> (r: Vec<Event>)
        requires
            old(self)@.wf(),
        ensures
            final(self)@.wf(),
            (final(self)@, r@) == old(self)@.lock_observed().report_ready(),
    {
        let mut events: Vec<Event> = Vec::new();
        self.counts.pointer_lock_observed = true;
        self.report_ready(&mut events);
        assert(events@ =~= old(self)@.lock_observed().report_ready().1);
        events
    }

    /// The shortcuts of the compositor are switched off.
    pub fn shortcuts_inhibited(&mut self) -> (r: Vec<Event>)
        requires
            old(self)@.wf(),
        ensures
            final(self)@.wf(),
            (final(self)@, r@) == old(self)@.inhibition_observed().report_ready(),
    {
        let mut events: Vec<Event> = Vec::new();
        self.counts.shortcuts_inhibited_observed = true;
        self.report_ready(&mut events);
        assert(events@ =~= old(self)@.inhibition_observed().report_ready().1);
        events
    }

    /// The shortcuts of the compositor are switched on again.
    pub fn shortcuts_restored(&mut self)
        requires
            old(self)@.wf(),
        ensures
            final(self)@.wf(),
            final(self)@ == (if old(self)@.requested {
                old(self)@.finish(StopCause::ShortcutsInhibitorLost)
            } else {
                old(self)@
            }),
    {
        if self.requested {
            self.finish(StopCause::ShortcutsInhibitorLost);
        }
    }

    /// An output was changed: the capture ends if it watches an edge of it.
    pub fn output_changed(&mut self, output_id: u32)
        requires
            old(self)@.wf(),
        ensures
            final(self)@.wf(),
            final(self)@ == (if exists|i: int|
                0 <= i < old(self)@.strips.len() && (#[trigger] old(self)@.strips[i]).output_id
                    == output_id {
                old(self)@.finish(StopCause::OutputConfigurationChanged)
            } else {
                old(self)@
            }),
    {
        let count: usize = self.strips.len();
        for i in 0..count
            invariant
                count == self.strips@.len(),
                *self == *old(self),
                self@.wf(),
                forall|j: int| 0 <= j < i ==> (#[trigger] self@.strips[j]).output_id != output_id,
        {
            if self.strips[i].output_id == output_id {
                assert(self@.strips[i as int].output_id == output_id);
                self.finish(StopCause::OutputConfigurationChanged);
                return;
            }
        }
    }

    /// The devices of the seat have changed: a capture under way needs pointer and keyboard.
    pub fn seat_changed(&mut self, pointer: bool, keyboard: bool)
        requires
            old(self)@.wf(),
        ensures
            final(self)@.wf(),
            final(self)@ == (if old(self)@.requested && !(pointer && keyboard) {
                old(self)@.finish(StopCause::SeatRemoved)
            } else {
                old(self)@
            }),
    {
        if self.requested && (!pointer || !keyboard) {
            self.finish(StopCause::SeatRemoved);
        }
    }

    /// Whether to go on: `elapsed` is the time since the start, which only matters without a
    /// stream.
    pub fn goes_on(&self, elapsed_ms: u64, seconds: u64) -> (r: bool)
        requires
            seconds <= MAX_SECONDS,
        ensures
            r == (!self.finished && (self.streaming || elapsed_ms < seconds * 1000)),
    {
        !self.finished && (self.streaming || elapsed_ms < seconds * 1000)
    }

    /// The capture is over, with a failure of the connection or without.
    pub fn close(&mut self, connected: bool) -> (r: StopCause)
        requires
            old(self)@.wf(),
        ensures
            final(self)@.wf(),
            final(self)@ == (if old(self)@.finished {
                old(self)@
            } else if connected {
                old(self)@.finish(StopCause::Timeout)
            } else {
                old(self)@.finish(StopCause::ConnectionError)
            }),
            final(self).counts.stop_reason == Some(r),
    {
        if !self.finished {
            if connected {
                self.finish(StopCause::Timeout);
            } else {
                self.finish(StopCause::ConnectionError);
            }
        }
        match self.counts.stop_reason {
            Some(cause) => cause,
            None => StopCause::Timeout,
        }
    }
}

impl CaptureModel {
    /// A crossing leads to a capture.
    pub open spec fn captures(self, edge: usize, cancelled: bool, pointer: bool) -> bool {
        !self.requested && !self.finished && !cancelled && edge < self.strips.len() && pointer
    }

    /// The state after the pointer crossed a watched edge.
    pub open spec fn crossed(self, edge: usize, fraction: Binary64, cancelled: bool, pointer: bool) -> CaptureModel {
        if self.requested || self.finished {
            self
        } else if cancelled {
            self.finish(StopCause::Cancelled)
        } else if self.captures(edge, cancelled, pointer) {
            CaptureModel {
                start_fraction: fraction.clamped(),
                selected: Some(edge),
                requested: true,
                ..self
            }
        } else {
            CaptureModel { start_fraction: fraction.clamped(), ..self }
        }
    }

    pub open spec fn button(self, button: u32, pressed: bool) -> (CaptureModel, Seq<Event>) {
        if !self.requested {
            (self, Seq::empty())
        } else {
            let counted = CaptureModel {
                counts: Counts {
                    button_events: one_more(self.counts.button_events),
                    ..self.counts
                },
                ..self
            };
            if button <= u16::MAX {
                counted.input(InputEvent::Button { code: button as u16, pressed })
            } else {
                (counted, Seq::empty())
            }
        }
    }

    pub open spec fn scroll(self, axis: Axis, amount: Binary64) -> (CaptureModel, Seq<Event>) {
        if !self.requested {
            (self, Seq::empty())
        } else {
            CaptureModel {
                counts: Counts {
                    scroll_events: one_more(self.counts.scroll_events),
                    ..self.counts
                },
                ..self
            }.input(InputEvent::Scroll { axis, amount, source: self.scroll_source })
        }
    }

    pub open spec fn scroll_stop(self, axis: Axis) -> (CaptureModel, Seq<Event>) {
        if !self.requested {
            (self, Seq::empty())
        } else {
            self.input(InputEvent::ScrollStop { axis, source: self.scroll_source })
        }
    }

    pub open spec fn motion(self, dx: Binary64, dy: Binary64) -> (CaptureModel, Seq<Event>) {
        if !self.requested {
            (self, Seq::empty())
        } else {
            CaptureModel {
                counts: Counts {
                    relative_motion_events: one_more(self.counts.relative_motion_events),
                    ..self.counts
                },
                ..self
            }.input(InputEvent::Motion { dx, dy })
        }
    }

    pub open spec fn lock_observed(self) -> CaptureModel {
        CaptureModel { counts: Counts { pointer_lock_observed: true, ..self.counts }, ..self }
    }

    pub open spec fn inhibition_observed(self) -> CaptureModel {
        CaptureModel {
            counts: Counts { shortcuts_inhibited_observed: true, ..self.counts },
            ..self
        }
    }
}

/// Until the capture is complete no input is handed on.
pub proof fn lemma_no_input_before_start(m: CaptureModel, event: InputEvent)
    requires
        !m.ready_reported,
    ensures
        m.input(event).1.len() == 0,
{
}

/// The start of a complete capture hands on exactly the inputs that waited, in their order, after
/// the start itself.
pub proof fn lemma_waiting_inputs_follow_the_start(m: CaptureModel)
    requires
        m.complete(),
        !m.ready_reported,
        m.streaming,
        !m.finished,
    ensures
        m.report_ready().1.len() == m.waiting.len() + 2,
        m.report_ready().1[0] == (Event::Started {
            edge: m.selected->0,
            fraction: m.start_fraction,
        }),
        forall|i: int|
            0 <= i < m.waiting.len() ==> #[trigger] m.report_ready().1[i + 1] == Event::Input(
                m.waiting[i],
            ),
        m.report_ready().1.last() is Ready,
        m.report_ready().0.waiting.len() == 0,
{
}

/// A capture that has ended hands nothing on and keeps its cause.
pub proof fn lemma_ended_capture_is_silent(m: CaptureModel, event: InputEvent, cause: StopCause)
    requires
        m.finished,
    ensures
        m.input(event).1.len() == 0,
        m.report_ready().1.len() == 0,
        m.finish(cause).counts.stop_reason == m.counts.stop_reason,
        m.input(event).0.finished,
        m.input(event).0.counts.stop_reason == m.counts.stop_reason,
{
}

/// The emergency chord ends a capture and its escape key is not handed on.
pub proof fn lemma_emergency_ends_capture(m: CaptureModel)
    requires
        m.requested,
        !m.finished,
        crate::input::emergency_held(m.pressed),
    ensures
        m.key(1, true).1.len() == 0,
        m.key(1, true).0.finished,
        m.key(1, true).0.counts.stop_reason == Some(StopCause::Escape),
{
}

} // verus!
