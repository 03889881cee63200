//! What playback needs around each event: the input backend, button and
//! position helpers, jitter, held inputs, dispatch statistics and the timeline.
use vstd::prelude::*;
use crate::text::{chars_of, chars_eq, chars_eq_str};
use crate::types::{
    ClickButton, ClickType, MacroButton, Coord, CoordV, MousePosition, MousePositionV, MacroEvent,
    MacroEventV,
};
use crate::values::{lookup, lookup_i64, num_entries};
use crate::dispatch::{BackendStep, BackendStepV, steps_view};

verus! {

// ---------------------------------------------------------------------------
// the input backend
// ---------------------------------------------------------------------------
/// Synthesizes input on the machine: pointer moves, buttons, wheel, keys and text.
pub trait ClickBackend {
    /// Whether the backend keeps the log of steps that [`Self::sent`] gives;
    /// by default it keeps none.
    open spec fn keeps_step_log(&self) -> bool {
        false
    }

    /// The pointer, button, wheel and key steps asked of the backend so far,
    /// in order, for a backend that keeps the log; each call counts whether
    /// or not it succeeds.
    open spec fn sent(&self) -> Seq<BackendStepV> {
        Seq::empty()
    }

    fn move_to(&mut self, x: i32, y: i32) -> (r: Result<(), String>)
        ensures
            final(self).keeps_step_log() == old(self).keeps_step_log(),
            old(self).keeps_step_log() ==> final(self).sent() == old(self).sent().push(BackendStepV::MoveTo { x, y }),
    ;

    fn press(&mut self, button: &ClickButton) -> (r: Result<(), String>)
        ensures
            final(self).keeps_step_log() == old(self).keeps_step_log(),
            old(self).keeps_step_log() ==> final(self).sent() == old(self).sent().push(BackendStepV::Press(*button)),
    ;

    fn release(&mut self, button: &ClickButton) -> (r: Result<(), String>)
        ensures
            final(self).keeps_step_log() == old(self).keeps_step_log(),
            old(self).keeps_step_log() ==> final(self).sent() == old(self).sent().push(BackendStepV::Release(*button)),
    ;

    fn scroll(&mut self, dx: i32, dy: i32) -> (r: Result<(), String>)
        ensures
            final(self).keeps_step_log() == old(self).keeps_step_log(),
            old(self).keeps_step_log() ==> final(self).sent() == old(self).sent().push(BackendStepV::Scroll { dx, dy }),
    ;

    fn key_down(&mut self, key: &str, code: u16) -> (r: Result<(), String>)
        ensures
            final(self).keeps_step_log() == old(self).keeps_step_log(),
            old(self).keeps_step_log() ==> final(self).sent() == old(self).sent().push(BackendStepV::KeyDown { key: key@, code }),
    ;

    fn key_up(&mut self, key: &str, code: u16) -> (r: Result<(), String>)
        ensures
            final(self).keeps_step_log() == old(self).keeps_step_log(),
            old(self).keeps_step_log() ==> final(self).sent() == old(self).sent().push(BackendStepV::KeyUp { key: key@, code }),
    ;

    fn type_text(&mut self, text: &str) -> Result<(), String>;

    fn click(
        &mut self,
        target_x: i32,
        target_y: i32,
        current_x: i32,
        current_y: i32,
        button: &ClickButton,
        click_type: &ClickType,
        hold_duration_ms: u64,
        move_cursor: bool,
    ) -> Result<(), String>;

    /// Tells the backend that recording starts; by default there is nothing to do.
    fn start_recording(&mut self) -> (r: Result<(), String>)
        default_ensures
            r is Ok,
    {
        Ok(())
    }

    /// Tells the backend that recording stops; by default there is nothing to do.
    fn stop_recording(&mut self) -> (r: Result<(), String>)
        default_ensures
            r is Ok,
    {
        Ok(())
    }
}

/// A backend that does nothing and always succeeds; it keeps the steps
/// asked of it as a ghost log.
pub struct DummyBackend {
    pub log: Ghost<Seq<BackendStepV>>,
}

impl DummyBackend {
    /// A backend that has been asked nothing yet.
    pub fn new() -> (d: DummyBackend)
        ensures
            d.sent() == Seq::<BackendStepV>::empty(),
    {
        DummyBackend { log: Ghost(Seq::empty()) }
    }
}

impl ClickBackend for DummyBackend {
    open spec fn keeps_step_log(&self) -> bool {
        true
    }

    open spec fn sent(&self) -> Seq<BackendStepV> {
        self.log@
    }

    fn move_to(&mut self, x: i32, y: i32) -> (r: Result<(), String>)
        ensures
            r is Ok,
    {
        proof {
            self.log@ = self.log@.push(BackendStepV::MoveTo { x, y });
        }
        Ok(())
    }

    fn press(&mut self, button: &ClickButton) -> (r: Result<(), String>)
        ensures
            r is Ok,
    {
        proof {
            self.log@ = self.log@.push(BackendStepV::Press(*button));
        }
        Ok(())
    }

    fn release(&mut self, button: &ClickButton) -> (r: Result<(), String>)
        ensures
            r is Ok,
    {
        proof {
            self.log@ = self.log@.push(BackendStepV::Release(*button));
        }
        Ok(())
    }

    fn scroll(&mut self, dx: i32, dy: i32) -> (r: Result<(), String>)
        ensures
            r is Ok,
    {
        proof {
            self.log@ = self.log@.push(BackendStepV::Scroll { dx, dy });
        }
        Ok(())
    }

    fn key_down(&mut self, key: &str, code: u16) -> (r: Result<(), String>)
        ensures
            r is Ok,
    {
        proof {
            self.log@ = self.log@.push(BackendStepV::KeyDown { key: key@, code });
        }
        Ok(())
    }

    fn key_up(&mut self, key: &str, code: u16) -> (r: Result<(), String>)
        ensures
            r is Ok,
    {
        proof {
            self.log@ = self.log@.push(BackendStepV::KeyUp { key: key@, code });
        }
        Ok(())
    }

    fn type_text(&mut self, _text: &str) -> (r: Result<(), String>)
        ensures
            r is Ok,
            final(self).sent() == old(self).sent(),
    {
        Ok(())
    }

    fn click(
        &mut self,
        _target_x: i32,
        _target_y: i32,
        _current_x: i32,
        _current_y: i32,
        _button: &ClickButton,
        _click_type: &ClickType,
        _hold_duration_ms: u64,
        _move_cursor: bool,
    ) -> (r: Result<(), String>)
        ensures
            r is Ok,
            final(self).sent() == old(self).sent(),
    {
        Ok(())
    }
}

// ---------------------------------------------------------------------------
// buttons, kinds and positions
// ---------------------------------------------------------------------------
pub open spec fn spec_click_button(b: MacroButton) -> ClickButton {
    match b {
        MacroButton::Left => ClickButton::Left,
        MacroButton::Right => ClickButton::Right,
        MacroButton::Middle => ClickButton::Middle,
    }
}

/// The backend button for a recorded button.
pub fn macro_button_to_click(btn: &MacroButton) -> (c: ClickButton)
    ensures
        c == spec_click_button(*btn),
{
    match btn {
        MacroButton::Left => ClickButton::Left,
        MacroButton::Right => ClickButton::Right,
        MacroButton::Middle => ClickButton::Middle,
    }
}

pub open spec fn spec_event_kind(e: MacroEventV) -> Seq<char> {
    match e {
        MacroEventV::Delay(_) => "Delay"@,
        MacroEventV::MouseMove { .. } => "MouseMove"@,
        MacroEventV::Click { .. } => "Click"@,
        MacroEventV::MouseDown { .. } => "MouseDown"@,
        MacroEventV::MouseUp { .. } => "MouseUp"@,
        MacroEventV::Scroll { .. } => "Scroll"@,
        MacroEventV::KeyDown { .. } => "KeyDown"@,
        MacroEventV::KeyUp { .. } => "KeyUp"@,
        MacroEventV::KeyPress { .. } => "KeyPress"@,
    }
}

/// Each kind of event has a name of its own: a name is given to exactly one
/// kind.
pub proof fn lemma_event_kind_names(e: MacroEventV)
    ensures
        spec_event_kind(e) == "Delay"@ <==> e is Delay,
        spec_event_kind(e) == "MouseMove"@ <==> e is MouseMove,
        spec_event_kind(e) == "Click"@ <==> e is Click,
        spec_event_kind(e) == "MouseDown"@ <==> e is MouseDown,
        spec_event_kind(e) == "MouseUp"@ <==> e is MouseUp,
        spec_event_kind(e) == "Scroll"@ <==> e is Scroll,
        spec_event_kind(e) == "KeyDown"@ <==> e is KeyDown,
        spec_event_kind(e) == "KeyUp"@ <==> e is KeyUp,
        spec_event_kind(e) == "KeyPress"@ <==> e is KeyPress,
{
    reveal_strlit("Delay");
    reveal_strlit("MouseMove");
    reveal_strlit("Click");
    reveal_strlit("MouseDown");
    reveal_strlit("MouseUp");
    reveal_strlit("Scroll");
    reveal_strlit("KeyDown");
    reveal_strlit("KeyUp");
    reveal_strlit("KeyPress");
    let k = spec_event_kind(e);
    assert(k.len() != "Delay"@.len() || k[0] != 'D' ==> k != "Delay"@);
    assert(k.len() != "Click"@.len() || k[0] != 'C' ==> k != "Click"@);
    assert(k.len() != "KeyUp"@.len() || k[0] != 'K' ==> k != "KeyUp"@);
    assert(k.len() != "MouseUp"@.len() || k[5] != 'U' ==> k != "MouseUp"@);
    assert(k.len() != "KeyDown"@.len() || k[3] != 'D' ==> k != "KeyDown"@);
    assert(k.len() != "MouseMove"@.len() || k[5] != 'M' ==> k != "MouseMove"@);
    assert(k.len() != "MouseDown"@.len() || k[5] != 'D' ==> k != "MouseDown"@);
}

/// The name of an event's kind, for statistics and messages.
pub fn event_kind_tag(event: &MacroEvent) -> (s: &'static str)
    ensures
        s@ == spec_event_kind(event@),
{
    match event {
        MacroEvent::Delay(_) => "Delay",
        MacroEvent::MouseMove { .. } => "MouseMove",
        MacroEvent::Click { .. } => "Click",
        MacroEvent::MouseDown { .. } => "MouseDown",
        MacroEvent::MouseUp { .. } => "MouseUp",
        MacroEvent::Scroll { .. } => "Scroll",
        MacroEvent::KeyDown { .. } => "KeyDown",
        MacroEvent::KeyUp { .. } => "KeyUp",
        MacroEvent::KeyPress { .. } => "KeyPress",
    }
}

pub open spec fn spec_coord_value(c: CoordV) -> i32 {
    match c {
        CoordV::Const(v) => v,
        CoordV::Var(_) => 0,
    }
}

/// An already resolved coordinate; a variable left here reads as 0.
pub fn coord_value(c: &Coord) -> (v: i32)
    ensures
        v == spec_coord_value(c@),
{
    match c {
        Coord::Const(v) => *v,
        Coord::Var(_) => 0,
    }
}

/// Whether adding the jitter to an absolute position stays within `i32`.
pub open spec fn jitter_fits(p: MousePositionV, jitter: (i32, i32)) -> bool {
    match p {
        MousePositionV::Absolute { x, y } => {
            &&& i32::MIN <= spec_coord_value(x) + jitter.0 <= i32::MAX
            &&& i32::MIN <= spec_coord_value(y) + jitter.1 <= i32::MAX
        },
        MousePositionV::Current => true,
    }
}

pub open spec fn spec_absolute_position(p: MousePositionV, jitter: (i32, i32)) -> (i32, i32) {
    match p {
        MousePositionV::Absolute { x, y } => (
            (spec_coord_value(x) + jitter.0) as i32,
            (spec_coord_value(y) + jitter.1) as i32,
        ),
        MousePositionV::Current => (-1i32, -1i32),
    }
}

/// An absolute position shifted by the jitter; the current position reads as `(-1, -1)`.
pub fn extract_absolute_position(position: &MousePosition, mouse_jitter: (i32, i32)) -> (r: (i32, i32))
    requires
        jitter_fits(position@, mouse_jitter),
    ensures
        r == spec_absolute_position(position@, mouse_jitter),
{
    match position {
        MousePosition::Absolute { x, y } => (coord_value(x) + mouse_jitter.0, coord_value(y) + mouse_jitter.1),
        MousePosition::Current => (-1, -1),
    }
}

pub open spec fn position_jitter_fits(e: MacroEventV, jitter: (i32, i32)) -> bool {
    match e {
        MacroEventV::Click { position, .. } => jitter_fits(position, jitter),
        MacroEventV::MouseDown { position, .. } => jitter_fits(position, jitter),
        _ => true,
    }
}

pub open spec fn spec_event_position(e: MacroEventV, jitter: (i32, i32)) -> (i32, i32) {
    match e {
        MacroEventV::MouseMove { x, y } => (spec_coord_value(x), spec_coord_value(y)),
        MacroEventV::Click { position, .. } => spec_absolute_position(position, jitter),
        MacroEventV::MouseDown { position, .. } => spec_absolute_position(position, jitter),
        _ => (-1i32, -1i32),
    }
}

/// Where an event happens, for statistics: the target of a move, the jittered
/// position of a click or press, `(-1, -1)` otherwise.
pub fn extract_position(event: &MacroEvent, mouse_jitter: (i32, i32)) -> (r: (i32, i32))
    requires
        position_jitter_fits(event@, mouse_jitter),
    ensures
        r == spec_event_position(event@, mouse_jitter),
{
    match event {
        MacroEvent::MouseMove { x, y } => (coord_value(x), coord_value(y)),
        MacroEvent::Click { position, .. } => extract_absolute_position(position, mouse_jitter),
        MacroEvent::MouseDown { position, .. } => extract_absolute_position(position, mouse_jitter),
        _ => (-1, -1),
    }
}

// ---------------------------------------------------------------------------
// jitter
// ---------------------------------------------------------------------------
/// One step of the splitmix64 generator: the next seed and its output.
pub open spec fn splitmix(seed: u64) -> (u64, u64) {
    let s = vstd::wrapping::u64_specs::wrapping_add(seed, 0x9E3779B97F4A7C15u64);
    let z1 = vstd::wrapping::u64_specs::wrapping_mul(s ^ (s >> 30u64), 0xBF58476D1CE4E5B9u64);
    let z2 = vstd::wrapping::u64_specs::wrapping_mul(z1 ^ (z1 >> 27u64), 0x94D049BB133111EBu64);
    (s, z2 ^ (z2 >> 31u64))
}

fn splitmix_next(seed: u64) -> (r: (u64, u64))
    ensures
        r == splitmix(seed),
{
    let s = seed.wrapping_add(0x9E3779B97F4A7C15);
    let z1 = (s ^ (s >> 30)).wrapping_mul(0xBF58476D1CE4E5B9);
    let z2 = (z1 ^ (z1 >> 27)).wrapping_mul(0x94D049BB133111EB);
    (s, z2 ^ (z2 >> 31))
}

/// The offset drawn from `seed` for a jitter radius: two splitmix outputs
/// reduced into `[-jitter, jitter]`; no offset for a zero radius.
pub open spec fn spec_jitter_from_seed(jitter: u32, seed: u64) -> (i32, i32) {
    if jitter == 0 {
        (0, 0)
    } else {
        let range = 2 * jitter as int + 1;
        let (s1, a) = splitmix(seed);
        let (_, b) = splitmix(s1);
        ((a as int % range - jitter) as i32, (b as int % range - jitter) as i32)
    }
}

/// The jitter offset drawn from a given seed.
pub fn jitter_from_seed(jitter: u32, seed: u64) -> (r: (i32, i32))
    ensures
        r == spec_jitter_from_seed(jitter, seed),
        -(jitter as int) <= r.0 <= jitter,
        -(jitter as int) <= r.1 <= jitter,
{
    if jitter == 0 {
        return (0, 0);
    }
    let j = jitter as i64;
    let range = (2 * j + 1) as u64;
    let (s1, a) = splitmix_next(seed);
    let (_, b) = splitmix_next(s1);
    let dx = (a % range) as i64 - j;
    let dy = (b % range) as i64 - j;
    (dx as i32, dy as i32)
}

/// A random offset within `[-jitter, jitter]` on each axis; none for a zero radius.
/// The offset is the one that the system clock reading it is seeded with gives.
pub fn jitter_offset(jitter: u32) -> (r: (i32, i32))
    ensures
        exists|seed: u64| r == #[trigger] spec_jitter_from_seed(jitter, seed),
        -(jitter as int) <= r.0 <= jitter,
        -(jitter as int) <= r.1 <= jitter,
        jitter == 0 ==> r == (0i32, 0i32),
{
    if jitter == 0 {
        assert((0i32, 0i32) == spec_jitter_from_seed(0, 0));
        return (0, 0);
    }
    let seed = crate::rng::time_seed();
    jitter_from_seed(jitter, seed)
}

/// The jitter of a click or button press; other events have none.
#[verifier::spinoff_prover]
pub fn extract_jitter(event: &MacroEvent) -> (r: (i32, i32))
    ensures
        match event@ {
            MacroEventV::Click { jitter, .. } => (exists|seed: u64| r == #[trigger] spec_jitter_from_seed(jitter, seed))
                && -(jitter as int) <= r.0 <= jitter && -(jitter as int) <= r.1 <= jitter,
            MacroEventV::MouseDown { jitter, .. } => (exists|seed: u64| r == #[trigger] spec_jitter_from_seed(jitter, seed))
                && -(jitter as int) <= r.0 <= jitter && -(jitter as int) <= r.1 <= jitter,
            _ => r == (0i32, 0i32),
        },
{
    match event {
        MacroEvent::Click { jitter, .. } => {
            let r = jitter_offset(*jitter);
            proof {
                let seed = choose|seed: u64| r == #[trigger] spec_jitter_from_seed(*jitter, seed);
                assert(r == spec_jitter_from_seed(*jitter, seed));
                assert(exists|sd: u64| r == #[trigger] spec_jitter_from_seed(*jitter, sd));
            }
            r
        },
        MacroEvent::MouseDown { jitter, .. } => {
            let r = jitter_offset(*jitter);
            proof {
                let seed = choose|seed: u64| r == #[trigger] spec_jitter_from_seed(*jitter, seed);
                assert(r == spec_jitter_from_seed(*jitter, seed));
                assert(exists|sd: u64| r == #[trigger] spec_jitter_from_seed(*jitter, sd));
            }
            r
        },
        _ => (0, 0),
    }
}

// ---------------------------------------------------------------------------
// resolving variable coordinates
// ---------------------------------------------------------------------------
/// A coordinate against the variables' whole-number values (truncated to
/// `i32`); a missing variable reads as 0.
pub open spec fn spec_resolve_coord(c: CoordV, nums: Seq<(Seq<char>, i64)>) -> i32 {
    match c {
        CoordV::Const(v) => v,
        CoordV::Var(n) => match lookup(nums, n) {
            Some(v) => v as i32,
            None => 0,
        },
    }
}

/// Resolves a coordinate; `nums` pairs each variable name with its whole-number value.
pub fn resolve_coord(c: &Coord, nums: &Vec<(String, i64)>) -> (v: i32)
    ensures
        v == spec_resolve_coord(c@, num_entries(nums@)),
{
    match c {
        Coord::Const(v) => *v,
        Coord::Var(name) => match lookup_i64(nums, &chars_of(name.as_str())) {
            Some(n) => {
                #[verifier::truncate]
                (n as i32)
            },
            None => 0,
        },
    }
}

fn resolved(c: &Coord, nums: &Vec<(String, i64)>) -> (r: Coord)
    ensures
        r@ == CoordV::Const(spec_resolve_coord(c@, num_entries(nums@))),
{
    Coord::Const(resolve_coord(c, nums))
}

pub open spec fn resolve_position(p: MousePositionV, nums: Seq<(Seq<char>, i64)>) -> MousePositionV {
    match p {
        MousePositionV::Absolute { x, y } => MousePositionV::Absolute {
            x: CoordV::Const(spec_resolve_coord(x, nums)),
            y: CoordV::Const(spec_resolve_coord(y, nums)),
        },
        MousePositionV::Current => MousePositionV::Current,
    }
}

/// An event with every coordinate made absolute.
pub open spec fn spec_resolve_event(e: MacroEventV, nums: Seq<(Seq<char>, i64)>) -> MacroEventV {
    match e {
        MacroEventV::MouseMove { x, y } => MacroEventV::MouseMove {
            x: CoordV::Const(spec_resolve_coord(x, nums)),
            y: CoordV::Const(spec_resolve_coord(y, nums)),
        },
        MacroEventV::Click { position, button, jitter, hold_time_ms } => MacroEventV::Click {
            position: resolve_position(position, nums),
            button,
            jitter,
            hold_time_ms,
        },
        MacroEventV::MouseDown { position, button, jitter } => MacroEventV::MouseDown {
            position: resolve_position(position, nums),
            button,
            jitter,
        },
        MacroEventV::MouseUp { position, button, jitter } => MacroEventV::MouseUp {
            position: resolve_position(position, nums),
            button,
            jitter,
        },
        _ => e,
    }
}

/// Resolving makes every coordinate of an event a constant and keeps all
/// else: resolving the result again, against any variables, changes
/// nothing; a constant coordinate stays itself, so an event written with
/// constants is left as it is; the kind of event, its button, its jitter and
/// its hold stay.
pub proof fn lemma_resolve_event_laws(e: MacroEventV, nums: Seq<(Seq<char>, i64)>, later: Seq<(Seq<char>, i64)>)
    ensures
        spec_resolve_event(spec_resolve_event(e, nums), later) == spec_resolve_event(e, nums),
        spec_event_kind(spec_resolve_event(e, nums)) == spec_event_kind(e),
        forall|v: i32| #[trigger] spec_resolve_coord(CoordV::Const(v), nums) == v,
        match e {
            MacroEventV::MouseMove { x: CoordV::Const(_), y: CoordV::Const(_) } => spec_resolve_event(e, nums) == e,
            MacroEventV::Click { position, button, jitter, hold_time_ms } => spec_resolve_event(e, nums) matches MacroEventV::Click {
                position: p,
                button: b,
                jitter: j,
                hold_time_ms: h,
            } && b == button && j == jitter && h == hold_time_ms && (position is Current <==> p is Current),
            MacroEventV::MouseDown { position, button, jitter } => spec_resolve_event(e, nums) matches MacroEventV::MouseDown {
                position: p,
                button: b,
                jitter: j,
            } && b == button && j == jitter && (position is Current <==> p is Current),
            MacroEventV::MouseUp { position, button, jitter } => spec_resolve_event(e, nums) matches MacroEventV::MouseUp {
                position: p,
                button: b,
                jitter: j,
            } && b == button && j == jitter && (position is Current <==> p is Current),
            MacroEventV::MouseMove { .. } => true,
            _ => spec_resolve_event(e, nums) == e,
        },
{
}

fn resolve_position_exec(p: &MousePosition, nums: &Vec<(String, i64)>) -> (r: MousePosition)
    ensures
        r@ == resolve_position(p@, num_entries(nums@)),
{
    match p {
        MousePosition::Absolute { x, y } => MousePosition::Absolute {
            x: resolved(x, nums),
            y: resolved(y, nums),
        },
        MousePosition::Current => MousePosition::Current,
    }
}

/// Rewrites variable coordinates to their current values, so dispatch only
/// sees absolute positions.
pub fn resolve_event_position(event: &mut MacroEvent, nums: &Vec<(String, i64)>)
    ensures
        final(event)@ == spec_resolve_event(old(event)@, num_entries(nums@)),
{
    match event {
        MacroEvent::MouseMove { x, y } => {
            *x = resolved(x, nums);
            *y = resolved(y, nums);
        },
        MacroEvent::Click { position, .. } => {
            *position = resolve_position_exec(position, nums);
        },
        MacroEvent::MouseDown { position, .. } => {
            *position = resolve_position_exec(position, nums);
        },
        MacroEvent::MouseUp { position, .. } => {
            *position = resolve_position_exec(position, nums);
        },
        _ => {},
    }
}

// ---------------------------------------------------------------------------
// inputs held down during playback
// ---------------------------------------------------------------------------
/// Letting go of a held button.
pub open spec fn release_of(b: MacroButton) -> BackendStepV {
    BackendStepV::Release(spec_click_button(b))
}

/// Pressing a held button again.
pub open spec fn press_of(b: MacroButton) -> BackendStepV {
    BackendStepV::Press(spec_click_button(b))
}

/// Letting go of a held key.
pub open spec fn key_up_of(code: u16) -> BackendStepV {
    BackendStepV::KeyUp { key: Seq::empty(), code }
}

/// Pressing a held key again.
pub open spec fn key_down_of(code: u16) -> BackendStepV {
    BackendStepV::KeyDown { key: Seq::empty(), code }
}

/// The step that presses again what a release step let go of.
pub open spec fn pressed_again(s: BackendStepV) -> BackendStepV {
    match s {
        BackendStepV::Release(b) => BackendStepV::Press(b),
        BackendStepV::KeyUp { key, code } => BackendStepV::KeyDown { key, code },
        _ => s,
    }
}

/// Resuming presses again exactly what suspending let go of: the press steps
/// are the release steps, one for one and in the same order, each turned
/// into the matching press.
pub proof fn lemma_resume_presses_what_suspend_released(h: HeldState)
    ensures
        h.spec_press_steps() == h.spec_release_steps().map_values(|s: BackendStepV| pressed_again(s)),
{
    let nb = h.buttons@.len() as int;
    let rel = h.spec_release_steps();
    let pr = h.spec_press_steps();
    assert forall|i: int| 0 <= i < pr.len() implies #[trigger] pr[i] == pressed_again(rel[i]) by {
        if i < nb {
            assert(pr[i] == press_of(h.buttons@[i]));
            assert(rel[i] == release_of(h.buttons@[i]));
        } else {
            assert(pr[i] == key_down_of(h.keys@[i - nb]));
            assert(rel[i] == key_up_of(h.keys@[i - nb]));
        }
    }
    assert(pr =~= rel.map_values(|s: BackendStepV| pressed_again(s)));
}

/// Carries out each step on the backend in order, going on past a failed one.
fn run_ignoring_errors<B: ClickBackend + ?Sized>(backend: &mut B, steps: &Vec<BackendStep>)
    requires
        forall|i: int| 0 <= i < steps@.len() ==> !(#[trigger] steps@[i]@ is Sleep),
    ensures
        final(backend).keeps_step_log() == old(backend).keeps_step_log(),
        old(backend).keeps_step_log() ==> final(backend).sent() == old(backend).sent() + steps_view(steps@),
{
    let ghost start = backend.sent();
    let ghost keeps = backend.keeps_step_log();
    let mut i: usize = 0;
    while i < steps.len()
        invariant
            i <= steps@.len(),
            forall|k: int| 0 <= k < steps@.len() ==> !(#[trigger] steps@[k]@ is Sleep),
            backend.keeps_step_log() == keeps,
            keeps ==> backend.sent() == start + steps_view(steps@.take(i as int)),
        decreases steps.len() - i,
    {
        let ghost before = backend.sent();
        assert(steps_view(steps@.take(i + 1)) =~= steps_view(steps@.take(i as int)).push(steps@[i as int]@));
        assert(!(steps@[i as int]@ is Sleep));
        match &steps[i] {
            BackendStep::MoveTo { x, y } => {
                let _ = backend.move_to(*x, *y);
            },
            BackendStep::Press(b) => {
                let _ = backend.press(b);
            },
            BackendStep::Release(b) => {
                let _ = backend.release(b);
            },
            BackendStep::Scroll { dx, dy } => {
                let _ = backend.scroll(*dx, *dy);
            },
            BackendStep::KeyDown { key, code } => {
                let _ = backend.key_down(key.as_str(), *code);
            },
            BackendStep::KeyUp { key, code } => {
                let _ = backend.key_up(key.as_str(), *code);
            },
            BackendStep::Sleep(_) => {},
        }
        assert(keeps ==> backend.sent() =~= start + steps_view(steps@.take(i + 1)));
        i = i + 1;
    }
    assert(steps@.take(steps@.len() as int) =~= steps@);
}

/// The buttons and keys that playback has pressed and not yet released.
pub struct HeldState {
    pub buttons: Vec<MacroButton>,
    pub keys: Vec<u16>,
}

impl HeldState {
    pub open spec fn button_set(&self) -> Set<MacroButton> {
        self.buttons@.to_set()
    }

    pub open spec fn key_set(&self) -> Set<u16> {
        self.keys@.to_set()
    }

    /// Each button and key is listed once.
    pub open spec fn wf(&self) -> bool {
        self.buttons@.no_duplicates() && self.keys@.no_duplicates()
    }

    /// Nothing held.
    pub fn new() -> (h: HeldState)
        ensures
            h.wf(),
            h.button_set() == Set::<MacroButton>::empty(),
            h.key_set() == Set::<u16>::empty(),
    {
        let h = HeldState { buttons: Vec::new(), keys: Vec::new() };
        assert(h.button_set() =~= Set::<MacroButton>::empty());
        assert(h.key_set() =~= Set::<u16>::empty());
        h
    }

    /// Tracks one dispatched event: a press adds its button or key, a release removes it.
    pub fn update(&mut self, event: &MacroEvent)
        requires
            old(self).wf(),
        ensures
            final(self).wf(),
            final(self).button_set() == (match event@ {
                MacroEventV::MouseDown { button, .. } => old(self).button_set().insert(button),
                MacroEventV::MouseUp { button, .. } => old(self).button_set().remove(button),
                _ => old(self).button_set(),
            }),
            final(self).key_set() == (match event@ {
                MacroEventV::KeyDown { code, .. } => old(self).key_set().insert(code),
                MacroEventV::KeyUp { code, .. } => old(self).key_set().remove(code),
                _ => old(self).key_set(),
            }),
    {
        match event {
            MacroEvent::MouseDown { button, .. } => set_insert_button(&mut self.buttons, *button),
            MacroEvent::MouseUp { button, .. } => set_remove_button(&mut self.buttons, *button),
            MacroEvent::KeyDown { code, .. } => set_insert_key(&mut self.keys, *code),
            MacroEvent::KeyUp { code, .. } => set_remove_key(&mut self.keys, *code),
            _ => {},
        }
    }

    /// The backend steps that let go of everything held, in order: each
    /// held button released, then each held key.
    pub open spec fn spec_release_steps(&self) -> Seq<BackendStepV> {
        self.buttons@.map_values(|b: MacroButton| release_of(b)) + self.keys@.map_values(|k: u16| key_up_of(k))
    }

    /// The backend steps that press again everything held, in order: each
    /// held button, then each held key.
    pub open spec fn spec_press_steps(&self) -> Seq<BackendStepV> {
        self.buttons@.map_values(|b: MacroButton| press_of(b)) + self.keys@.map_values(|k: u16| key_down_of(k))
    }

    /// The steps that let go of everything held.
    pub fn release_steps(&self) -> (r: Vec<BackendStep>)
        ensures
            steps_view(r@) == self.spec_release_steps(),
            forall|i: int| 0 <= i < r@.len() ==> !(#[trigger] r@[i]@ is Sleep),
    {
        self.held_steps(false)
    }

    /// The steps that press again everything held.
    pub fn press_steps(&self) -> (r: Vec<BackendStep>)
        ensures
            steps_view(r@) == self.spec_press_steps(),
            forall|i: int| 0 <= i < r@.len() ==> !(#[trigger] r@[i]@ is Sleep),
    {
        self.held_steps(true)
    }

    fn held_steps(&self, press: bool) -> (r: Vec<BackendStep>)
        ensures
            steps_view(r@) == (if press {
                self.spec_press_steps()
            } else {
                self.spec_release_steps()
            }),
            forall|i: int| 0 <= i < r@.len() ==> !(#[trigger] r@[i]@ is Sleep),
    {
        let ghost want = if press {
            self.spec_press_steps()
        } else {
            self.spec_release_steps()
        };
        let nb = self.buttons.len();
        let mut r: Vec<BackendStep> = Vec::new();
        let mut i: usize = 0;
        while i < nb
            invariant
                nb == self.buttons@.len(),
                i <= nb,
                r@.len() == i,
                want == (if press {
                    self.spec_press_steps()
                } else {
                    self.spec_release_steps()
                }),
                forall|j: int| 0 <= j < i ==> #[trigger] r@[j]@ == want[j],
                forall|j: int| 0 <= j < i ==> !(#[trigger] r@[j]@ is Sleep),
            decreases nb - i,
        {
            let b = macro_button_to_click(&self.buttons[i]);
            if press {
                r.push(BackendStep::Press(b));
            } else {
                r.push(BackendStep::Release(b));
            }
            i = i + 1;
        }
        let mut k: usize = 0;
        while k < self.keys.len()
            invariant
                nb == self.buttons@.len(),
                k <= self.keys@.len(),
                r@.len() == nb + k,
                want == (if press {
                    self.spec_press_steps()
                } else {
                    self.spec_release_steps()
                }),
                forall|j: int| 0 <= j < nb + k ==> #[trigger] r@[j]@ == want[j],
                forall|j: int| 0 <= j < nb + k ==> !(#[trigger] r@[j]@ is Sleep),
            decreases self.keys@.len() - k,
        {
            let code = self.keys[k];
            if press {
                r.push(BackendStep::KeyDown { key: String::new(), code });
            } else {
                r.push(BackendStep::KeyUp { key: String::new(), code });
            }
            proof {
                assert(r@[nb + k as int]@ == want[nb + k as int]);
            }
            k = k + 1;
        }
        assert(steps_view(r@) =~= want);
        r
    }

    /// Releases everything held and forgets it; a failed release is not retried.
    pub fn release_all<B: ClickBackend + ?Sized>(&mut self, backend: &mut B)
        ensures
            final(backend).keeps_step_log() == old(backend).keeps_step_log(),
            old(backend).keeps_step_log() ==> final(backend).sent() == old(backend).sent() + old(self).spec_release_steps(),
            final(self).wf(),
            final(self).button_set() == Set::<MacroButton>::empty(),
            final(self).key_set() == Set::<u16>::empty(),
    {
        let steps = self.release_steps();
        run_ignoring_errors(backend, &steps);
        self.buttons.clear();
        self.keys.clear();
        assert(self.button_set() =~= Set::<MacroButton>::empty());
        assert(self.key_set() =~= Set::<u16>::empty());
    }

    /// Releases everything held for a pause, keeping it recorded for [`Self::resume`].
    pub fn suspend<B: ClickBackend + ?Sized>(&self, backend: &mut B)
        ensures
            final(backend).keeps_step_log() == old(backend).keeps_step_log(),
            old(backend).keeps_step_log() ==> final(backend).sent() == old(backend).sent() + self.spec_release_steps(),
    {
        let steps = self.release_steps();
        run_ignoring_errors(backend, &steps);
    }

    /// Presses again everything held when a pause ends.
    pub fn resume<B: ClickBackend + ?Sized>(&self, backend: &mut B)
        ensures
            final(backend).keeps_step_log() == old(backend).keeps_step_log(),
            old(backend).keeps_step_log() ==> final(backend).sent() == old(backend).sent() + self.spec_press_steps(),
    {
        let steps = self.press_steps();
        run_ignoring_errors(backend, &steps);
    }
}

proof fn lemma_push_to_set<T>(before: Seq<T>, x: T)
    requires
        before.no_duplicates(),
        !before.contains(x),
    ensures
        before.push(x).no_duplicates(),
        before.push(x).to_set() == before.to_set().insert(x),
{
    let after = before.push(x);
    assert(after.to_set() =~= before.to_set().insert(x)) by {
        assert forall|y: T| after.to_set().contains(y) <==> before.to_set().insert(x).contains(y) by {
            if after.contains(y) && y != x {
                let k = choose|k: int| 0 <= k < after.len() && after[k] == y;
                assert(before[k] == y);
            }
            if before.contains(y) {
                let k = choose|k: int| 0 <= k < before.len() && before[k] == y;
                assert(after[k] == y);
            }
            if y == x {
                assert(after[before.len() as int] == x);
            }
        }
    }
    assert forall|a: int, b: int| 0 <= a < after.len() && 0 <= b < after.len() && a != b implies after[a]
        != after[b] by {
        if a == before.len() {
            assert(before[b] == after[b]);
        } else if b == before.len() {
            assert(before[a] == after[a]);
        }
    }
}

proof fn lemma_remove_to_set<T>(before: Seq<T>, i: int)
    requires
        before.no_duplicates(),
        0 <= i < before.len(),
    ensures
        before.remove(i).no_duplicates(),
        before.remove(i).to_set() == before.to_set().remove(before[i]),
{
    let after = before.remove(i);
    let x = before[i];
    assert(after.to_set() =~= before.to_set().remove(x)) by {
        assert forall|y: T| after.to_set().contains(y) <==> before.to_set().remove(x).contains(y) by {
            if after.contains(y) {
                let k = choose|k: int| 0 <= k < after.len() && after[k] == y;
                if k < i {
                    assert(before[k] == y);
                } else {
                    assert(before[k + 1] == y);
                }
            }
            if before.contains(y) && y != x {
                let k = choose|k: int| 0 <= k < before.len() && before[k] == y;
                if k < i {
                    assert(after[k] == y);
                } else {
                    assert(k != i);
                    assert(after[k - 1] == y);
                }
            }
        }
    }
    assert forall|a: int, b: int| 0 <= a < after.len() && 0 <= b < after.len() && a != b implies after[a]
        != after[b] by {
        let a2 = if a < i { a } else { a + 1 };
        let b2 = if b < i { b } else { b + 1 };
        assert(after[a] == before[a2]);
        assert(after[b] == before[b2]);
    }
}

fn set_insert_button(v: &mut Vec<MacroButton>, x: MacroButton)
    requires
        old(v)@.no_duplicates(),
    ensures
        final(v)@.no_duplicates(),
        final(v)@.to_set() == old(v)@.to_set().insert(x),
{
    let mut i: usize = 0;
    while i < v.len()
        invariant
            i <= v.len(),
            v@ == old(v)@,
            v@.no_duplicates(),
            forall|k: int| 0 <= k < i ==> v@[k] != x,
        decreases v.len() - i,
    {
        if v[i] == x {
            assert(v@.to_set() =~= v@.to_set().insert(x)) by {
                assert(v@.contains(x));
            }
            return;
        }
        i = i + 1;
    }
    proof {
        lemma_push_to_set(v@, x);
    }
    v.push(x);
}

fn set_remove_button(v: &mut Vec<MacroButton>, x: MacroButton)
    requires
        old(v)@.no_duplicates(),
    ensures
        final(v)@.no_duplicates(),
        final(v)@.to_set() == old(v)@.to_set().remove(x),
{
    let mut i: usize = 0;
    while i < v.len()
        invariant
            i <= v.len(),
            v@ == old(v)@,
            v@.no_duplicates(),
            forall|k: int| 0 <= k < i ==> v@[k] != x,
        decreases v.len() - i,
    {
        if v[i] == x {
            proof {
                lemma_remove_to_set(v@, i as int);
            }
            v.remove(i);
            return;
        }
        i = i + 1;
    }
    assert(v@.to_set() =~= v@.to_set().remove(x)) by {
        assert(!v@.contains(x));
    }
}

fn set_insert_key(v: &mut Vec<u16>, x: u16)
    requires
        old(v)@.no_duplicates(),
    ensures
        final(v)@.no_duplicates(),
        final(v)@.to_set() == old(v)@.to_set().insert(x),
{
    let mut i: usize = 0;
    while i < v.len()
        invariant
            i <= v.len(),
            v@ == old(v)@,
            v@.no_duplicates(),
            forall|k: int| 0 <= k < i ==> v@[k] != x,
        decreases v.len() - i,
    {
        if v[i] == x {
            assert(v@.to_set() =~= v@.to_set().insert(x)) by {
                assert(v@.contains(x));
            }
            return;
        }
        i = i + 1;
    }
    proof {
        lemma_push_to_set(v@, x);
    }
    v.push(x);
}

fn set_remove_key(v: &mut Vec<u16>, x: u16)
    requires
        old(v)@.no_duplicates(),
    ensures
        final(v)@.no_duplicates(),
        final(v)@.to_set() == old(v)@.to_set().remove(x),
{
    let mut i: usize = 0;
    while i < v.len()
        invariant
            i <= v.len(),
            v@ == old(v)@,
            v@.no_duplicates(),
            forall|k: int| 0 <= k < i ==> v@[k] != x,
        decreases v.len() - i,
    {
        if v[i] == x {
            proof {
                lemma_remove_to_set(v@, i as int);
            }
            v.remove(i);
            return;
        }
        i = i + 1;
    }
    assert(v@.to_set() =~= v@.to_set().remove(x)) by {
        assert(!v@.contains(x));
    }
}

// ---------------------------------------------------------------------------
// dispatch statistics
// ---------------------------------------------------------------------------
/// The largest span a `Duration` holds, in nanoseconds.
pub const MAX_DURATION_NS: u128 = 18446744073709551615999999999;

/// How long event dispatch took during playback, in nanoseconds, overall and
/// by kind (time, count), with the slowest dispatch.
pub struct PlaybackMetrics {
    pub total_dispatch: u128,
    pub max_dispatch: u128,
    pub max_dispatch_event: Option<(&'static str, i32, i32)>,
    pub move_dispatch: (u128, u32),
    pub down_dispatch: (u128, u32),
    pub other_dispatch: (u128, u32),
}

/// Which count a dispatch of `kind` adds to: moves, presses and clicks, or the rest.
pub enum DispatchCategory {
    Move,
    Down,
    Other,
}

pub open spec fn dispatch_category(kind: Seq<char>) -> DispatchCategory {
    if kind == "MouseMove"@ {
        DispatchCategory::Move
    } else if kind == "MouseDown"@ || kind == "Click"@ {
        DispatchCategory::Down
    } else {
        DispatchCategory::Other
    }
}

/// A dispatch above one millisecond is reported as slow.
pub const SLOW_DISPATCH_NS: u128 = 1000000;

/// Averages and extremes of the dispatch statistics, in nanoseconds.
pub struct MetricsReport {
    pub total_dispatch: u128,
    pub max_dispatch: u128,
    pub moves: (u32, u128),
    pub downs: (u32, u128),
    pub others: (u32, u128),
    pub slowest: Option<(&'static str, i32, i32)>,
}

pub open spec fn average(total: u128, n: u32) -> u128 {
    if n > 0 {
        (total / n as u128) as u128
    } else {
        0
    }
}

/// One dispatch of `kind` at `(ex, ey)` that took `d` nanoseconds, added to
/// the statistics `m`: the total and its category grow by `d` and one more
/// dispatch, and a strictly longer dispatch becomes the slowest.
pub open spec fn spec_record(m: PlaybackMetrics, kind: &'static str, ex: i32, ey: i32, d: u128) -> PlaybackMetrics {
    let cat = dispatch_category(kind@);
    PlaybackMetrics {
        total_dispatch: (m.total_dispatch + d) as u128,
        max_dispatch: if d > m.max_dispatch {
            d
        } else {
            m.max_dispatch
        },
        max_dispatch_event: if d > m.max_dispatch {
            Some((kind, ex, ey))
        } else {
            m.max_dispatch_event
        },
        move_dispatch: if cat is Move {
            ((m.move_dispatch.0 + d) as u128, (m.move_dispatch.1 + 1) as u32)
        } else {
            m.move_dispatch
        },
        down_dispatch: if cat is Down {
            ((m.down_dispatch.0 + d) as u128, (m.down_dispatch.1 + 1) as u32)
        } else {
            m.down_dispatch
        },
        other_dispatch: if cat is Other {
            ((m.other_dispatch.0 + d) as u128, (m.other_dispatch.1 + 1) as u32)
        } else {
            m.other_dispatch
        },
    }
}

/// The statistics before any dispatch.
pub open spec fn fresh_metrics() -> PlaybackMetrics {
    PlaybackMetrics {
        total_dispatch: 0,
        max_dispatch: 0,
        max_dispatch_event: None,
        move_dispatch: (0u128, 0u32),
        down_dispatch: (0u128, 0u32),
        other_dispatch: (0u128, 0u32),
    }
}

impl PlaybackMetrics {
    /// No dispatch recorded.
    pub fn new() -> (m: PlaybackMetrics)
        ensures
            m.total_dispatch == 0,
            m.max_dispatch == 0,
            m.max_dispatch_event is None,
            m.move_dispatch == (0u128, 0u32),
            m.down_dispatch == (0u128, 0u32),
            m.other_dispatch == (0u128, 0u32),
            m == fresh_metrics(),
    {
        PlaybackMetrics {
            total_dispatch: 0,
            max_dispatch: 0,
            max_dispatch_event: None,
            move_dispatch: (0, 0),
            down_dispatch: (0, 0),
            other_dispatch: (0, 0),
        }
    }

    /// Whether one more dispatch of `duration` fits every total and count.
    pub open spec fn can_record(&self, kind: Seq<char>, duration: u128) -> bool {
        &&& self.total_dispatch + duration <= MAX_DURATION_NS
        &&& match dispatch_category(kind) {
            DispatchCategory::Move => self.move_dispatch.0 + duration <= MAX_DURATION_NS
                && self.move_dispatch.1 < u32::MAX,
            DispatchCategory::Down => self.down_dispatch.0 + duration <= MAX_DURATION_NS
                && self.down_dispatch.1 < u32::MAX,
            DispatchCategory::Other => self.other_dispatch.0 + duration <= MAX_DURATION_NS
                && self.other_dispatch.1 < u32::MAX,
        }
    }

    /// Adds one dispatch of `kind` at `(ex, ey)` that took `duration`
    /// nanoseconds; returns whether it was slow enough to report.
    pub fn record(&mut self, kind: &'static str, ex: i32, ey: i32, duration: u128) -> (slow: bool)
        requires
            old(self).can_record(kind@, duration),
        ensures
            slow == (duration > SLOW_DISPATCH_NS),
            *final(self) == spec_record(*old(self), kind, ex, ey, duration),
            final(self).total_dispatch == old(self).total_dispatch + duration,
            duration > old(self).max_dispatch ==> final(self).max_dispatch == duration
                && final(self).max_dispatch_event == Some((kind, ex, ey)),
            duration <= old(self).max_dispatch ==> final(self).max_dispatch == old(self).max_dispatch
                && final(self).max_dispatch_event == old(self).max_dispatch_event,
            final(self).move_dispatch == (match dispatch_category(kind@) {
                DispatchCategory::Move => ((old(self).move_dispatch.0 + duration) as u128, (old(self).move_dispatch.1 + 1) as u32),
                _ => old(self).move_dispatch,
            }),
            final(self).down_dispatch == (match dispatch_category(kind@) {
                DispatchCategory::Down => ((old(self).down_dispatch.0 + duration) as u128, (old(self).down_dispatch.1 + 1) as u32),
                _ => old(self).down_dispatch,
            }),
            final(self).other_dispatch == (match dispatch_category(kind@) {
                DispatchCategory::Other => ((old(self).other_dispatch.0 + duration) as u128, (old(self).other_dispatch.1 + 1) as u32),
                _ => old(self).other_dispatch,
            }),
    {
        self.total_dispatch = self.total_dispatch + duration;
        self.update_max_dispatch(kind, ex, ey, duration);
        self.categorize_dispatch(kind, duration);
        duration > SLOW_DISPATCH_NS
    }

    fn update_max_dispatch(&mut self, kind: &'static str, ex: i32, ey: i32, duration: u128)
        ensures
            final(self).total_dispatch == old(self).total_dispatch,
            final(self).move_dispatch == old(self).move_dispatch,
            final(self).down_dispatch == old(self).down_dispatch,
            final(self).other_dispatch == old(self).other_dispatch,
            duration > old(self).max_dispatch ==> final(self).max_dispatch == duration
                && final(self).max_dispatch_event == Some((kind, ex, ey)),
            duration <= old(self).max_dispatch ==> final(self).max_dispatch == old(self).max_dispatch
                && final(self).max_dispatch_event == old(self).max_dispatch_event,
    {
        if duration > self.max_dispatch {
            self.max_dispatch = duration;
            self.max_dispatch_event = Some((kind, ex, ey));
        }
    }

    fn categorize_dispatch(&mut self, kind: &'static str, duration: u128)
        requires
            match dispatch_category(kind@) {
                DispatchCategory::Move => old(self).move_dispatch.0 + duration <= MAX_DURATION_NS
                    && old(self).move_dispatch.1 < u32::MAX,
                DispatchCategory::Down => old(self).down_dispatch.0 + duration <= MAX_DURATION_NS
                    && old(self).down_dispatch.1 < u32::MAX,
                DispatchCategory::Other => old(self).other_dispatch.0 + duration <= MAX_DURATION_NS
                    && old(self).other_dispatch.1 < u32::MAX,
            },
        ensures
            final(self).total_dispatch == old(self).total_dispatch,
            final(self).max_dispatch == old(self).max_dispatch,
            final(self).max_dispatch_event == old(self).max_dispatch_event,
            final(self).move_dispatch == (match dispatch_category(kind@) {
                DispatchCategory::Move => ((old(self).move_dispatch.0 + duration) as u128, (old(self).move_dispatch.1 + 1) as u32),
                _ => old(self).move_dispatch,
            }),
            final(self).down_dispatch == (match dispatch_category(kind@) {
                DispatchCategory::Down => ((old(self).down_dispatch.0 + duration) as u128, (old(self).down_dispatch.1 + 1) as u32),
                _ => old(self).down_dispatch,
            }),
            final(self).other_dispatch == (match dispatch_category(kind@) {
                DispatchCategory::Other => ((old(self).other_dispatch.0 + duration) as u128, (old(self).other_dispatch.1 + 1) as u32),
                _ => old(self).other_dispatch,
            }),
    {
        let k = chars_of(kind);
        if chars_eq_str(&k, "MouseMove") {
            self.move_dispatch = (self.move_dispatch.0 + duration, self.move_dispatch.1 + 1);
        } else if chars_eq_str(&k, "MouseDown") || chars_eq_str(&k, "Click") {
            self.down_dispatch = (self.down_dispatch.0 + duration, self.down_dispatch.1 + 1);
        } else {
            self.other_dispatch = (self.other_dispatch.0 + duration, self.other_dispatch.1 + 1);
        }
    }

    /// The totals, the average dispatch time of each kind and the slowest dispatch.
    pub fn report(&self) -> (r: MetricsReport)
        ensures
            r.total_dispatch == self.total_dispatch,
            r.max_dispatch == self.max_dispatch,
            r.moves == (self.move_dispatch.1, average(self.move_dispatch.0, self.move_dispatch.1)),
            r.downs == (self.down_dispatch.1, average(self.down_dispatch.0, self.down_dispatch.1)),
            r.others == (self.other_dispatch.1, average(self.other_dispatch.0, self.other_dispatch.1)),
            r.slowest == self.max_dispatch_event,
    {
        MetricsReport {
            total_dispatch: self.total_dispatch,
            max_dispatch: self.max_dispatch,
            moves: (self.move_dispatch.1, avg(self.move_dispatch.0, self.move_dispatch.1)),
            downs: (self.down_dispatch.1, avg(self.down_dispatch.0, self.down_dispatch.1)),
            others: (self.other_dispatch.1, avg(self.other_dispatch.0, self.other_dispatch.1)),
            slowest: self.max_dispatch_event,
        }
    }
}

fn avg(total: u128, n: u32) -> (r: u128)
    ensures
        r == average(total, n),
{
    if n > 0 {
        total / (n as u128)
    } else {
        0
    }
}

/// The statistics after the dispatches `recs` (kind, position, duration),
/// recorded one after the other from none.
pub open spec fn metrics_after(recs: Seq<(&'static str, i32, i32, u128)>) -> PlaybackMetrics
    decreases recs.len(),
{
    if recs.len() == 0 {
        fresh_metrics()
    } else {
        let r = recs.last();
        spec_record(metrics_after(recs.drop_last()), r.0, r.1, r.2, r.3)
    }
}

/// The summed duration of the dispatches `recs`.
pub open spec fn duration_sum(recs: Seq<(&'static str, i32, i32, u128)>) -> int
    decreases recs.len(),
{
    if recs.len() == 0 {
        0
    } else {
        duration_sum(recs.drop_last()) + recs.last().3
    }
}

/// The summed duration and the number of the dispatches of `recs` in category `cat`.
pub open spec fn category_totals(recs: Seq<(&'static str, i32, i32, u128)>, cat: DispatchCategory) -> (int, int)
    decreases recs.len(),
{
    if recs.len() == 0 {
        (0, 0)
    } else {
        let (t, n) = category_totals(recs.drop_last(), cat);
        if dispatch_category(recs.last().0@) == cat {
            (t + recs.last().3, n + 1)
        } else {
            (t, n)
        }
    }
}

/// The longest duration among `recs`, 0 for none.
pub open spec fn longest(recs: Seq<(&'static str, i32, i32, u128)>) -> int
    decreases recs.len(),
{
    if recs.len() == 0 {
        0
    } else {
        let m = longest(recs.drop_last());
        if recs.last().3 > m {
            recs.last().3 as int
        } else {
            m
        }
    }
}

/// Recorded one after the other from none, the dispatches `recs` leave the
/// statistics at: the total is the sum of their durations and the sum over
/// the three categories; each category counts and sums its own dispatches,
/// and the counts add up to the number of dispatches; the slowest time is the
/// longest duration (0 for none), every duration is at most it, and the
/// slowest dispatch is the first one that took it (none while it is 0).
pub proof fn lemma_metrics_series(recs: Seq<(&'static str, i32, i32, u128)>)
    requires
        duration_sum(recs) <= MAX_DURATION_NS,
        category_totals(recs, DispatchCategory::Move).1 <= u32::MAX,
        category_totals(recs, DispatchCategory::Down).1 <= u32::MAX,
        category_totals(recs, DispatchCategory::Other).1 <= u32::MAX,
    ensures
        ({
            let m = metrics_after(recs);
            let mv = category_totals(recs, DispatchCategory::Move);
            let dn = category_totals(recs, DispatchCategory::Down);
            let ot = category_totals(recs, DispatchCategory::Other);
            &&& m.total_dispatch == duration_sum(recs)
            &&& m.total_dispatch == m.move_dispatch.0 + m.down_dispatch.0 + m.other_dispatch.0
            &&& m.move_dispatch == (mv.0 as u128, mv.1 as u32) && mv.0 == m.move_dispatch.0 && mv.1 == m.move_dispatch.1
            &&& m.down_dispatch == (dn.0 as u128, dn.1 as u32) && dn.0 == m.down_dispatch.0 && dn.1 == m.down_dispatch.1
            &&& m.other_dispatch == (ot.0 as u128, ot.1 as u32) && ot.0 == m.other_dispatch.0 && ot.1 == m.other_dispatch.1
            &&& mv.1 + dn.1 + ot.1 == recs.len()
            &&& m.max_dispatch == longest(recs)
            &&& forall|i: int| 0 <= i < recs.len() ==> #[trigger] recs[i].3 <= longest(recs)
            &&& longest(recs) == 0 ==> m.max_dispatch_event is None
            &&& longest(recs) > 0 ==> exists|j: int|
                #![trigger recs[j]]
                0 <= j < recs.len() && recs[j].3 == longest(recs) && (forall|i: int| 0 <= i < j ==> #[trigger] recs[i].3
                    < longest(recs)) && m.max_dispatch_event == Some((recs[j].0, recs[j].1, recs[j].2))
        }),
    decreases recs.len(),
{
    if recs.len() > 0 {
        let q = recs.drop_last();
        let r = recs.last();
        assert(duration_sum(q) <= duration_sum(recs)) by {
            lemma_duration_sum_nonneg(q);
        }
        lemma_metrics_series(q);
        lemma_duration_sum_nonneg(q);
        let mq = metrics_after(q);
        let lq = longest(q);
        assert forall|i: int| 0 <= i < recs.len() implies #[trigger] recs[i].3 <= longest(recs) by {
            if i < q.len() {
                assert(recs[i] == q[i]);
            }
        }
        if longest(recs) > 0 {
            if r.3 > lq {
                let j = recs.len() - 1;
                assert forall|i: int| 0 <= i < j implies #[trigger] recs[i].3 < longest(recs) by {
                    assert(recs[i] == q[i]);
                }
                assert(recs[j].3 == longest(recs));
            } else {
                let j = choose|j: int|
                    #![trigger q[j]]
                    0 <= j < q.len() && q[j].3 == lq && (forall|i: int| 0 <= i < j ==> #[trigger] q[i].3 < lq)
                        && mq.max_dispatch_event == Some((q[j].0, q[j].1, q[j].2));
                assert(recs[j] == q[j]);
                assert forall|i: int| 0 <= i < j implies #[trigger] recs[i].3 < longest(recs) by {
                    assert(recs[i] == q[i]);
                }
            }
        }
    }
}

/// Each call of [`PlaybackMetrics::record`] takes the statistics of a series
/// to those of the series with that dispatch added: with `new` giving
/// `metrics_after` of no dispatches, a player that records the dispatches
/// `recs` one by one holds `metrics_after(recs)`.
pub proof fn lemma_metrics_step(recs: Seq<(&'static str, i32, i32, u128)>, kind: &'static str, ex: i32, ey: i32, d: u128)
    ensures
        metrics_after(Seq::<(&'static str, i32, i32, u128)>::empty()) == fresh_metrics(),
        metrics_after(recs.push((kind, ex, ey, d))) == spec_record(metrics_after(recs), kind, ex, ey, d),
{
    assert(recs.push((kind, ex, ey, d)).drop_last() =~= recs);
}

proof fn lemma_duration_sum_nonneg(recs: Seq<(&'static str, i32, i32, u128)>)
    ensures
        duration_sum(recs) >= 0,
    decreases recs.len(),
{
    if recs.len() > 0 {
        lemma_duration_sum_nonneg(recs.drop_last());
    }
}

// ---------------------------------------------------------------------------
// the playback timeline
// ---------------------------------------------------------------------------
/// Lag beyond which the timeline re-anchors to real time, in nanoseconds.
pub const LAG_TOLERANCE_NS: u64 = 10000000;

/// The schedule that recorded gaps are anchored to: when it started (a
/// monotonic clock reading in nanoseconds) and the scheduled time so far, in
/// microseconds of recording.
pub struct PlaybackTimeline {
    pub start: Option<u64>,
    pub schedule_us: u64,
}

impl PlaybackTimeline {
    /// A timeline that has not started.
    pub fn new() -> (t: PlaybackTimeline)
        ensures
            t.start is None,
            t.schedule_us == 0,
    {
        PlaybackTimeline { start: None, schedule_us: 0 }
    }

    /// Moves the origin forward so paused time does not shorten recorded gaps.
    pub fn shift(&mut self, amount: u64)
        requires
            old(self).start matches Some(s) ==> s + amount <= u64::MAX,
        ensures
            final(self).schedule_us == old(self).schedule_us,
            final(self).start == (match old(self).start {
                Some(s) => Some((s + amount) as u64),
                None => None,
            }),
    {
        match self.start {
            Some(s) => {
                self.start = Some(s + amount);
            },
            None => {},
        }
    }

    /// Starts afresh, as at the beginning of each repeat.
    pub fn reset(&mut self)
        ensures
            final(self).start is None,
            final(self).schedule_us == 0,
    {
        *self = Self::new();
    }

    /// The origin, starting the timeline at `now` if it has not started.
    pub fn ensure_started(&mut self, now: u64) -> (start: u64)
        ensures
            final(self).schedule_us == old(self).schedule_us,
            start == (match old(self).start {
                Some(s) => s,
                None => now,
            }),
            final(self).start == Some(start),
    {
        match self.start {
            Some(s) => s,
            None => {
                self.start = Some(now);
                now
            },
        }
    }

    /// Adds a recorded gap to the schedule (saturating); returns the new schedule.
    pub fn add_scheduled(&mut self, delay_us: u64) -> (schedule: u64)
        ensures
            final(self).start == old(self).start,
            schedule == final(self).schedule_us,
            schedule == (if old(self).schedule_us + delay_us > u64::MAX {
                u64::MAX
            } else {
                (old(self).schedule_us + delay_us) as u64
            }),
    {
        self.schedule_us = self.schedule_us.saturating_add(delay_us);
        self.schedule_us
    }

    /// When the schedule has fallen more than the tolerance behind `now`
    /// (its deadline being `scheduled_ns` after the origin), moves the origin
    /// forward by the lag.
    pub fn reanchor_if_lagging(&mut self, now: u64, scheduled_ns: u64)
        requires
            old(self).start matches Some(s) ==> s + scheduled_ns <= u64::MAX,
        ensures
            final(self).schedule_us == old(self).schedule_us,
            final(self).start == (match old(self).start {
                Some(s) => if now > s + scheduled_ns + LAG_TOLERANCE_NS {
                    Some((s + (now - (s + scheduled_ns))) as u64)
                } else {
                    Some(s)
                },
                None => None,
            }),
    {
        match self.start {
            Some(s) => {
                let deadline = s + scheduled_ns;
                let lag = now.saturating_sub(deadline);
                if lag > LAG_TOLERANCE_NS {
                    self.start = Some(s + lag);
                }
            },
            None => {},
        }
    }
}

} // verus!
