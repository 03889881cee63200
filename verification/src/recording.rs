//! Turning observed input into recorded macro events: timing and mapping.
use vstd::prelude::*;
use crate::types::{
    Coord, CoordV, MousePosition, MousePositionV, MacroEvent, MacroEventV, HardwareEvent,
    HardwareEventKind,
};
use crate::command::{Macro, MacroCommand, MacroCommandV, commands_view};

verus! {

/// The timing state of a recording session. Times are nanoseconds since the
/// Unix epoch; the totals are in microseconds.
#[derive(Clone, Copy)]
pub struct TimeTracker {
    pub first_event_time: Option<u64>,
    pub total_macro_time_us: u64,
    pub pause_start: Option<u64>,
    pub total_paused_us: u64,
    pub pending_move_delay: u64,
    pub last_recorded_pos: Option<(i32, i32)>,
}

pub open spec fn fresh_tracker() -> TimeTracker {
    TimeTracker {
        first_event_time: None,
        total_macro_time_us: 0,
        pause_start: None,
        total_paused_us: 0,
        pending_move_delay: 0,
        last_recorded_pos: None,
    }
}

/// Whole microseconds from `from` to `to`, zero when `to` is earlier.
pub open spec fn micros_between(from: u64, to: u64) -> u64 {
    if to >= from {
        ((to - from) / 1000) as u64
    } else {
        0
    }
}

pub open spec fn sat_sub(a: u64, b: u64) -> u64 {
    if a >= b {
        (a - b) as u64
    } else {
        0
    }
}

/// The tracker after leaving a pause at `event`: the pause's length is added
/// to the paused total.
pub open spec fn after_pause(t: TimeTracker, event: u64) -> TimeTracker {
    match t.pause_start {
        Some(ps) => TimeTracker {
            pause_start: None,
            total_paused_us: (t.total_paused_us + micros_between(ps, event)) as u64,
            ..t
        },
        None => t,
    }
}

/// Whether leaving a pause at `event` keeps the paused total in range.
pub open spec fn pause_fits(t: TimeTracker, event: u64) -> bool {
    match t.pause_start {
        Some(ps) => t.total_paused_us + micros_between(ps, event) <= u64::MAX,
        None => true,
    }
}

/// The delay recorded before an event at `event`, and the tracker after it.
/// While paused nothing is recorded and the pause start is noted; an event
/// before the session start is dropped; a tracker left from an earlier
/// session starts over; the first event has no delay; later events are
/// delayed by the time since the previous one, not counting pauses.
pub open spec fn spec_process_time(t: TimeTracker, event: u64, session: Option<u64>, paused: bool) -> (TimeTracker, Option<u64>) {
    if paused {
        (if t.pause_start is None {
            TimeTracker { pause_start: Some(event), ..t }
        } else {
            t
        }, None)
    } else {
        let t1 = after_pause(t, event);
        if session matches Some(st) && event < st {
            (t1, None)
        } else {
            let t2 = if session matches Some(st) && t1.first_event_time matches Some(f) && f < st {
                fresh_tracker()
            } else {
                t1
            };
            let (t3, elapsed) = match t2.first_event_time {
                Some(f) => (t2, sat_sub(micros_between(f, event), t2.total_paused_us)),
                None => (TimeTracker { first_event_time: Some(event), total_paused_us: 0, ..t2 }, 0u64),
            };
            (
                TimeTracker { total_macro_time_us: elapsed, ..t3 },
                Some(sat_sub(elapsed, t3.total_macro_time_us)),
            )
        }
    }
}

impl TimeTracker {
    /// A tracker for a new session.
    pub fn new() -> (t: TimeTracker)
        ensures
            t == fresh_tracker(),
    {
        TimeTracker {
            first_event_time: None,
            total_macro_time_us: 0,
            pause_start: None,
            total_paused_us: 0,
            pending_move_delay: 0,
            last_recorded_pos: None,
        }
    }

    pub fn reset(&mut self)
        ensures
            *final(self) == fresh_tracker(),
    {
        *self = Self::new();
    }

    /// The delay to record before an event observed at `event_time`, or
    /// `None` when the event is not recorded (paused, or before the session).
    pub fn process_time(&mut self, event_time: u64, session_start: Option<u64>, is_paused: bool) -> (r: Option<u64>)
        requires
            is_paused || pause_fits(*old(self), event_time),
        ensures
            (*final(self), r) == spec_process_time(*old(self), event_time, session_start, is_paused),
    {
        if is_paused {
            if self.pause_start.is_none() {
                self.pause_start = Some(event_time);
            }
            return None;
        } else {
            match self.pause_start {
                Some(ps) => {
                    self.pause_start = None;
                    let d = if event_time >= ps {
                        (event_time - ps) / 1000
                    } else {
                        0
                    };
                    self.total_paused_us = self.total_paused_us + d;
                },
                None => {},
            }
        }
        match session_start {
            Some(start_t) => {
                if event_time < start_t {
                    return None;
                }
                match self.first_event_time {
                    Some(first_t) => {
                        if first_t < start_t {
                            self.reset();
                        }
                    },
                    None => {},
                }
            },
            None => {},
        }
        let current_elapsed_us = match self.first_event_time {
            Some(start_t) => {
                let elapsed = if event_time >= start_t {
                    (event_time - start_t) / 1000
                } else {
                    0
                };
                elapsed.saturating_sub(self.total_paused_us)
            },
            None => {
                self.first_event_time = Some(event_time);
                self.total_paused_us = 0;
                0
            },
        };
        let delay_us = current_elapsed_us.saturating_sub(self.total_macro_time_us);
        self.total_macro_time_us = current_elapsed_us;
        Some(delay_us)
    }
}

/// Outside a pause and a session boundary, the delays recorded add up: the
/// recorded total grows by exactly the delay returned, up to the time since
/// the first event less the paused time.
pub proof fn lemma_delays_add_up(t: TimeTracker, event: u64)
    requires
        t.first_event_time matches Some(f) && f <= event,
        t.pause_start is None,
        sat_sub(micros_between(t.first_event_time->0, event), t.total_paused_us) >= t.total_macro_time_us,
    ensures
        ({
            let (t2, r) = spec_process_time(t, event, None, false);
            &&& r matches Some(d) && t2.total_macro_time_us == t.total_macro_time_us + d
            &&& t2.total_macro_time_us == sat_sub(micros_between(t.first_event_time->0, event), t.total_paused_us)
        }),
{
}

/// While paused nothing is recorded and only the pause's start is noted (the
/// first paused event's time); an event before the session start is not
/// recorded; the first event of a session is recorded with no delay and
/// starts the session's clock. A pause from `p` to `e` adds exactly its
/// length to the paused time, so it does not count as delay.
pub proof fn lemma_pause_and_start_laws(t: TimeTracker, p: u64, e: u64, session: Option<u64>)
    ensures
        spec_process_time(t, p, session, true).1 is None,
        spec_process_time(t, p, session, true).0 == (TimeTracker {
            pause_start: if t.pause_start is None {
                Some(p)
            } else {
                t.pause_start
            },
            ..t
        }),
        session matches Some(st) && e < st ==> spec_process_time(t, e, session, false).1 is None,
        t.first_event_time is None && session is None ==> spec_process_time(t, e, session, false).1 == Some(0u64)
            && spec_process_time(t, e, session, false).0.first_event_time == Some(e),
        t.pause_start is None && p <= e && t.total_paused_us + micros_between(p, e) <= u64::MAX ==> spec_process_time(
            spec_process_time(t, p, None, true).0,
            e,
            None,
            false,
        ).0.total_paused_us == (if t.first_event_time is None {
            0
        } else {
            t.total_paused_us + micros_between(p, e)
        }),
{
}

// ---------------------------------------------------------------------------
// mapping observed input to macro events
// ---------------------------------------------------------------------------
/// What the recorder captures, as set when an event arrives. Times are
/// nanoseconds since the Unix epoch.
#[derive(Clone, Copy)]
pub struct RecorderConfig {
    pub is_recording: bool,
    pub is_paused: bool,
    pub session_start: Option<u64>,
    pub record_mouse: bool,
    pub record_movements: bool,
    pub record_keyboard: bool,
    pub cursor_x: i32,
    pub cursor_y: i32,
}

/// Whether mapping an event of this kind reads the cursor position.
pub open spec fn spec_cursor_needed(kind: HardwareEventKind, config: RecorderConfig) -> bool {
    match kind {
        HardwareEventKind::MouseMove => true,
        HardwareEventKind::MouseDown(_) => config.record_mouse,
        HardwareEventKind::MouseUp(_) => config.record_mouse,
        _ => false,
    }
}

pub fn cursor_needed(kind: &HardwareEventKind, config: &RecorderConfig) -> (b: bool)
    ensures
        b == spec_cursor_needed(*kind, *config),
{
    match kind {
        HardwareEventKind::MouseMove => true,
        HardwareEventKind::MouseDown(_) => config.record_mouse,
        HardwareEventKind::MouseUp(_) => config.record_mouse,
        _ => false,
    }
}

pub open spec fn at(cursor: (i32, i32)) -> MousePositionV {
    MousePositionV::Absolute { x: CoordV::Const(cursor.0), y: CoordV::Const(cursor.1) }
}

/// The macro event recorded for an observed event, with the cursor at
/// `cursor`: moves only to a new position and only when movements are
/// recorded, buttons and wheel when the mouse is recorded, keys when the
/// keyboard is. Also the last recorded position afterwards.
pub open spec fn spec_map_event(
    kind: HardwareEventKind,
    config: RecorderConfig,
    last: Option<(i32, i32)>,
    cursor: (i32, i32),
) -> (Option<MacroEventV>, Option<(i32, i32)>) {
    match kind {
        HardwareEventKind::MouseMove => if config.record_mouse && config.record_movements && last
            != Some(cursor) {
            (
                Some(MacroEventV::MouseMove { x: CoordV::Const(cursor.0), y: CoordV::Const(cursor.1) }),
                Some(cursor),
            )
        } else {
            (None, last)
        },
        HardwareEventKind::MouseDown(b) => if config.record_mouse {
            (Some(MacroEventV::MouseDown { position: at(cursor), button: b, jitter: 0 }), Some(cursor))
        } else {
            (None, last)
        },
        HardwareEventKind::MouseUp(b) => if config.record_mouse {
            (Some(MacroEventV::MouseUp { position: at(cursor), button: b, jitter: 0 }), Some(cursor))
        } else {
            (None, last)
        },
        HardwareEventKind::KeyDown(key, code) => if config.record_keyboard {
            (Some(MacroEventV::KeyDown { key: key@, code }), last)
        } else {
            (None, last)
        },
        HardwareEventKind::KeyUp(key, code) => if config.record_keyboard {
            (Some(MacroEventV::KeyUp { key: key@, code }), last)
        } else {
            (None, last)
        },
        HardwareEventKind::Scroll { dx, dy } => if config.record_mouse {
            (Some(MacroEventV::Scroll { dx, dy }), last)
        } else {
            (None, last)
        },
    }
}

/// What is recorded is what was observed: a wheel turn keeps both of its
/// steps as they came, a button or a key keeps its identity, a button is
/// placed at the cursor and a move goes to the cursor; with the kind of input
/// switched off nothing is recorded; only pointer events that were recorded
/// change the last recorded position.
pub proof fn lemma_recorded_event_is_observed(
    kind: HardwareEventKind,
    config: RecorderConfig,
    last: Option<(i32, i32)>,
    cursor: (i32, i32),
)
    ensures
        config.record_mouse ==> match kind {
            HardwareEventKind::Scroll { dx, dy } => spec_map_event(kind, config, last, cursor).0 == Some(
                (MacroEventV::Scroll { dx: dx, dy: dy }),
            ),
            HardwareEventKind::MouseDown(b) => spec_map_event(kind, config, last, cursor).0 == Some(
                (MacroEventV::MouseDown { position: at(cursor), button: b, jitter: 0 }),
            ),
            HardwareEventKind::MouseUp(b) => spec_map_event(kind, config, last, cursor).0 == Some(
                (MacroEventV::MouseUp { position: at(cursor), button: b, jitter: 0 }),
            ),
            _ => true,
        },
        config.record_keyboard ==> match kind {
            HardwareEventKind::KeyDown(key, code) => spec_map_event(kind, config, last, cursor).0 == Some(
                (MacroEventV::KeyDown { key: key@, code: code }),
            ),
            HardwareEventKind::KeyUp(key, code) => spec_map_event(kind, config, last, cursor).0 == Some(
                (MacroEventV::KeyUp { key: key@, code: code }),
            ),
            _ => true,
        },
        match spec_map_event(kind, config, last, cursor).0 {
            Some(MacroEventV::MouseMove { x, y }) => x == CoordV::Const(cursor.0) && y == CoordV::Const(cursor.1)
                && last != Some(cursor),
            _ => true,
        },
        !config.record_mouse && !(kind is KeyDown) && !(kind is KeyUp) ==> spec_map_event(
            kind,
            config,
            last,
            cursor,
        ).0 is None,
        !config.record_keyboard && (kind is KeyDown || kind is KeyUp) ==> spec_map_event(kind, config, last, cursor).0 is None,
        spec_map_event(kind, config, last, cursor).0 is None || kind is KeyDown || kind is KeyUp || kind is Scroll
            ==> spec_map_event(kind, config, last, cursor).1 == last,
{
}

/// The cursor is read only when what is recorded may depend on it: when
/// it is not needed, any two cursor positions give the same result; a
/// recorded button event is placed at the cursor that was read.
pub proof fn lemma_cursor_read_only_when_used(
    kind: HardwareEventKind,
    config: RecorderConfig,
    last: Option<(i32, i32)>,
    c1: (i32, i32),
    c2: (i32, i32),
)
    ensures
        !spec_cursor_needed(kind, config) ==> spec_map_event(kind, config, last, c1) == spec_map_event(
            kind,
            config,
            last,
            c2,
        ),
        (kind is MouseDown || kind is MouseUp) && spec_map_event(kind, config, last, c1).0 is Some ==> spec_cursor_needed(
            kind,
            config,
        ) && spec_map_event(kind, config, last, c1).1 == Some(c1),
{
}

pub open spec fn opt_event_view(e: Option<MacroEvent>) -> Option<MacroEventV> {
    match e {
        Some(x) => Some(x@),
        None => None,
    }
}

fn position_at(cursor: (i32, i32)) -> (p: MousePosition)
    ensures
        p@ == at(cursor),
{
    MousePosition::Absolute { x: Coord::Const(cursor.0), y: Coord::Const(cursor.1) }
}

/// Maps an observed event to the macro event to record, if any; `cursor` is
/// the cursor position, read when [`cursor_needed`] says so.
pub fn map_hardware_event(
    event: &HardwareEvent,
    config: &RecorderConfig,
    last_recorded_pos: &mut Option<(i32, i32)>,
    cursor: (i32, i32),
) -> (r: Option<MacroEvent>)
    ensures
        (opt_event_view(r), *final(last_recorded_pos)) == spec_map_event(
            event.kind,
            *config,
            *old(last_recorded_pos),
            cursor,
        ),
        config.record_mouse ==> match event.kind {
            HardwareEventKind::Scroll { dx, dy } => opt_event_view(r) == Some((MacroEventV::Scroll { dx: dx, dy: dy })),
            HardwareEventKind::MouseDown(b) => opt_event_view(r) == Some(
                (MacroEventV::MouseDown { position: at(cursor), button: b, jitter: 0 }),
            ),
            HardwareEventKind::MouseUp(b) => opt_event_view(r) == Some(
                (MacroEventV::MouseUp { position: at(cursor), button: b, jitter: 0 }),
            ),
            _ => true,
        },
        config.record_keyboard ==> match event.kind {
            HardwareEventKind::KeyDown(key, code) => opt_event_view(r) == Some(
                (MacroEventV::KeyDown { key: key@, code: code }),
            ),
            HardwareEventKind::KeyUp(key, code) => opt_event_view(r) == Some(
                (MacroEventV::KeyUp { key: key@, code: code }),
            ),
            _ => true,
        },
{
    match &event.kind {
        HardwareEventKind::MouseMove => {
            let is_new_pos = match *last_recorded_pos {
                Some(p) => p.0 != cursor.0 || p.1 != cursor.1,
                None => true,
            };
            if config.record_mouse && config.record_movements && is_new_pos {
                *last_recorded_pos = Some(cursor);
                Some(MacroEvent::MouseMove { x: Coord::Const(cursor.0), y: Coord::Const(cursor.1) })
            } else {
                None
            }
        },
        HardwareEventKind::MouseDown(button) => {
            if config.record_mouse {
                *last_recorded_pos = Some(cursor);
                Some(MacroEvent::MouseDown { position: position_at(cursor), button: *button, jitter: 0 })
            } else {
                None
            }
        },
        HardwareEventKind::MouseUp(button) => {
            if config.record_mouse {
                *last_recorded_pos = Some(cursor);
                Some(MacroEvent::MouseUp { position: position_at(cursor), button: *button, jitter: 0 })
            } else {
                None
            }
        },
        HardwareEventKind::KeyDown(key, code) => {
            if config.record_keyboard {
                Some(MacroEvent::KeyDown { key: key.clone(), code: *code })
            } else {
                None
            }
        },
        HardwareEventKind::KeyUp(key, code) => {
            if config.record_keyboard {
                Some(MacroEvent::KeyUp { key: key.clone(), code: *code })
            } else {
                None
            }
        },
        HardwareEventKind::Scroll { dx, dy } => {
            if config.record_mouse {
                Some(MacroEvent::Scroll { dx: *dx, dy: *dy })
            } else {
                None
            }
        },
    }
}

// ---------------------------------------------------------------------------
// one recorder step
// ---------------------------------------------------------------------------
/// One observed event through the recorder: outside a recording the tracker
/// starts over; an event that is timed and mapped comes out with its delay
/// plus the delay of the events dropped since the last one; an event that is
/// timed but dropped adds its delay to the pending delay.
pub fn record_step(
    tracker: &mut TimeTracker,
    event: &HardwareEvent,
    config: &RecorderConfig,
    cursor: (i32, i32),
) -> (r: Option<(u64, MacroEvent)>)
    requires
        config.is_paused || pause_fits(*old(tracker), event.hardware_time_ns),
        config.is_recording ==> (spec_process_time(
            *old(tracker),
            event.hardware_time_ns,
            config.session_start,
            config.is_paused,
        ).1 matches Some(d) ==> d + old(tracker).pending_move_delay <= u64::MAX),
    ensures
        !config.is_recording ==> *final(tracker) == fresh_tracker() && r is None,
        config.is_recording ==> ({
            let (t1, d) = spec_process_time(*old(tracker), event.hardware_time_ns, config.session_start, config.is_paused);
            match d {
                None => *final(tracker) == t1 && r is None,
                Some(delay) => {
                    let (e, last) = spec_map_event(event.kind, *config, t1.last_recorded_pos, cursor);
                    &&& final(tracker).last_recorded_pos == last
                    &&& final(tracker).first_event_time == t1.first_event_time
                    &&& final(tracker).total_macro_time_us == t1.total_macro_time_us
                    &&& final(tracker).pause_start == t1.pause_start
                    &&& final(tracker).total_paused_us == t1.total_paused_us
                    &&& match e {
                        Some(ev) => final(tracker).pending_move_delay == 0 && (r matches Some((dd, x))
                            && x@ == ev && dd == delay + t1.pending_move_delay),
                        None => r is None && final(tracker).pending_move_delay == delay
                            + t1.pending_move_delay,
                    }
                },
            }
        }),
{
    if !config.is_recording {
        tracker.reset();
        return None;
    }
    let delay = match tracker.process_time(event.hardware_time_ns, config.session_start, config.is_paused) {
        Some(d) => d,
        None => {
            return None;
        },
    };
    let mapped = map_hardware_event(event, config, &mut tracker.last_recorded_pos, cursor);
    match mapped {
        Some(ev) => {
            let pending = tracker.pending_move_delay;
            tracker.pending_move_delay = 0;
            Some((delay + pending, ev))
        },
        None => {
            tracker.pending_move_delay = tracker.pending_move_delay + delay;
            None
        },
    }
}

/// Appends a recorded event to a macro, preceded by its delay when there is
/// one; returns how many commands were added.
pub fn commit_event(m: &mut Macro, delay_us: u64, event: MacroEvent) -> (added: usize)
    ensures
        final(m).name == old(m).name,
        final(m).version == old(m).version,
        delay_us > 0 ==> added == 2 && final(m)@.commands == old(m)@.commands.push(
            MacroCommandV::Action(MacroEventV::Delay(delay_us)),
        ).push(MacroCommandV::Action(event@)),
        delay_us == 0 ==> added == 1 && final(m)@.commands == old(m)@.commands.push(
            MacroCommandV::Action(event@),
        ),
{
    let ghost before = commands_view(m.commands@);
    if delay_us > 0 {
        m.commands.push(MacroCommand::Action(MacroEvent::Delay(delay_us)));
        m.commands.push(MacroCommand::Action(event));
        assert(commands_view(m.commands@) =~= before.push(MacroCommandV::Action(MacroEventV::Delay(delay_us))).push(
            MacroCommandV::Action(event@),
        ));
        2
    } else {
        m.commands.push(MacroCommand::Action(event));
        assert(commands_view(m.commands@) =~= before.push(MacroCommandV::Action(event@)));
        1
    }
}

} // verus!
