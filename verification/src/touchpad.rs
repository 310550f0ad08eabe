//! A touchpad made of a relative pointer: finger positions become pointer motion, two-finger
//! scrolling and taps.
//!
//! The device is a plain mouse, so that no heuristics for absolute touchpads get in the way.
//! Positions are kept as the raw float bits that the tablet sent; whoever measures how far a finger
//! went hands the result back in whole pixels or wheel steps.
use std::collections::HashMap;

use vstd::prelude::*;

use crate::protocol::{TouchEvent, TOUCH_CANCEL, TOUCH_DOWN, TOUCH_MOVE, TOUCH_UP};
use crate::uinput::{calls, creation_calls, emit, sync, Call, InputEvent, Ioctl, Step};
use crate::uinput::{
    creation, creation_announces_the_steps, device_setup_reads_back, key, key_held, may_send, rel, relative_sum, syn,
};
use crate::uinput::{
    BTN_LEFT, BTN_MIDDLE, BTN_RIGHT, EV_KEY, EV_REL, REL_HWHEEL, REL_HWHEEL_HI_RES, REL_WHEEL,
    REL_WHEEL_HI_RES, REL_X, REL_Y,
};

verus! {

broadcast use vstd::std_specs::hash::group_hash_axioms;

/// The longest tap, in milliseconds.
pub const TAP_MAX_MS: u128 = 220;

/// The fingers on the pad and the gesture they are making.
pub struct Touchpad {
    fingers: HashMap<u8, (u32, u32)>,
    peak: usize,
    down_at: u128,
    moved: bool,
}

/// What the pad remembers.
#[verifier::ext_equal]
pub struct Pad {
    /// Where each finger was seen last.
    pub fingers: Map<u8, (u32, u32)>,
    /// The most fingers that were down at once during the gesture.
    pub peak: int,
    /// When the gesture began, in nanoseconds.
    pub down_at: int,
    /// Whether a finger went too far for a tap.
    pub moved: bool,
}

impl View for Touchpad {
    type V = Pad;

    closed spec fn view(&self) -> Pad {
        Pad {
            fingers: self.fingers@,
            peak: self.peak as int,
            down_at: self.down_at as int,
            moved: self.moved,
        }
    }
}

/// What a movement drives.
#[derive(Clone, Copy, Debug, PartialEq, Eq, Structural)]
pub enum Effect {
    Pointer,
    Scroll,
    Nothing,
}

/// What a sample leads to.
#[derive(Clone, Copy, Debug, PartialEq, Eq, Structural)]
pub enum Reaction {
    /// Nothing to tell the kernel.
    Quiet,
    /// A button is to be clicked.
    Click(u16),
    /// A finger moved away from the position given here.
    Moved { from_x: u32, from_y: u32, effect: Effect },
}

/// Whole steps of a wheel: fine steps of 1/120 detent, and whole detents.
#[derive(Clone, Copy, Debug, PartialEq, Eq, Structural)]
pub struct Wheel {
    pub hi_res: i32,
    pub detents: i32,
}

/// The button of a tap with so many fingers.
pub open spec fn tap_button(fingers: int) -> Option<u16> {
    if fingers == 1 {
        Some(BTN_LEFT)
    } else if fingers == 2 {
        Some(BTN_RIGHT)
    } else if fingers == 3 {
        Some(BTN_MIDDLE)
    } else {
        None
    }
}

/// Whether a gesture that began at `down_at` is still short enough for a tap.
pub open spec fn is_quick(down_at: int, now: int) -> bool {
    now <= down_at || (now - down_at) / 1_000_000 <= TAP_MAX_MS
}

/// What one, two or more fingers drive.
pub open spec fn effect_of(fingers: int) -> Effect {
    if fingers == 1 {
        Effect::Pointer
    } else if fingers == 2 {
        Effect::Scroll
    } else {
        Effect::Nothing
    }
}

/// What the pad remembers after a sample taken at `now`.
pub open spec fn pad_next(p: Pad, e: TouchEvent, now: int) -> Pad {
    if e.action == TOUCH_DOWN {
        let start = if p.fingers.dom().len() == 0 {
            Pad { fingers: p.fingers, peak: 0, down_at: now, moved: false }
        } else {
            p
        };
        let fingers = p.fingers.insert(e.id, (e.x, e.y));
        let count = fingers.dom().len() as int;
        Pad {
            fingers,
            peak: if start.peak < count {
                count
            } else {
                start.peak
            },
            down_at: start.down_at,
            moved: start.moved,
        }
    } else if e.action == TOUCH_MOVE && p.fingers.dom().contains(e.id) {
        Pad {
            fingers: p.fingers.insert(e.id, (e.x, e.y)),
            peak: p.peak,
            down_at: p.down_at,
            moved: p.moved,
        }
    } else if e.action == TOUCH_UP || e.action == TOUCH_CANCEL {
        Pad {
            fingers: p.fingers.remove(e.id),
            peak: p.peak,
            down_at: p.down_at,
            moved: p.moved,
        }
    } else {
        p
    }
}

/// What a sample taken at `now` leads to.
pub open spec fn pad_reaction(p: Pad, e: TouchEvent, now: int) -> Reaction {
    if e.action == TOUCH_MOVE && p.fingers.dom().contains(e.id) {
        Reaction::Moved {
            from_x: p.fingers[e.id].0,
            from_y: p.fingers[e.id].1,
            effect: effect_of(p.fingers.dom().len() as int),
        }
    } else if e.action == TOUCH_UP && p.fingers.remove(e.id).dom().len() == 0 && is_quick(
        p.down_at,
        now,
    ) && !p.moved {
        match tap_button(p.peak) {
            Some(button) => Reaction::Click(button),
            None => Reaction::Quiet,
        }
    } else {
        Reaction::Quiet
    }
}

/// What the touchpad can do.
pub open spec fn touchpad_steps() -> Seq<Step> {
    seq![
        Step::Event(EV_KEY),
        Step::Event(EV_REL),
        Step::Key(BTN_LEFT),
        Step::Key(BTN_RIGHT),
        Step::Key(BTN_MIDDLE),
        Step::Relative(REL_X),
        Step::Relative(REL_Y),
        Step::Relative(REL_WHEEL),
        Step::Relative(REL_HWHEEL),
        Step::Relative(REL_WHEEL_HI_RES),
        Step::Relative(REL_HWHEEL_HI_RES),
    ]
}

/// The calls that create the touchpad.
pub open spec fn touchpad_creation() -> Seq<Call> {
    creation(vstd::utf8::encode_utf8("TabScreen Touchpad"@), 0x0003, touchpad_steps())
}

/// The events of a click: down and up, each in a report of its own.
pub open spec fn click_events(button: u16) -> Seq<InputEvent> {
    seq![key(button, 1), syn(), key(button, 0), syn()]
}

/// The events of a pointer motion; an axis that stands still is left out.
pub open spec fn motion_events(dx: i32, dy: i32) -> Seq<InputEvent> {
    if dx == 0 && dy == 0 {
        seq![]
    } else {
        (if dx != 0 {
            seq![rel(REL_X, dx)]
        } else {
            seq![]
        }) + (if dy != 0 {
            seq![rel(REL_Y, dy)]
        } else {
            seq![]
        }) + seq![syn()]
    }
}

/// The events of one wheel: the fine steps, and the whole detents where there are any.
pub open spec fn wheel_events(w: Option<Wheel>, fine: u16, coarse: u16) -> Seq<InputEvent> {
    match w {
        Some(w) => seq![rel(fine, w.hi_res)] + (if w.detents != 0 {
            seq![rel(coarse, w.detents)]
        } else {
            seq![]
        }),
        None => seq![],
    }
}

/// The events of a scroll step; a wheel that stands still is left out.
pub open spec fn scroll_events(x: Option<Wheel>, y: Option<Wheel>) -> Seq<InputEvent> {
    if x is None && y is None {
        seq![]
    } else {
        wheel_events(y, REL_WHEEL_HI_RES, REL_WHEEL) + wheel_events(
            x,
            REL_HWHEEL_HI_RES,
            REL_HWHEEL,
        ) + seq![syn()]
    }
}

/// The events that let every button go.
pub open spec fn release_events() -> Seq<InputEvent> {
    seq![key(BTN_LEFT, 0), key(BTN_RIGHT, 0), key(BTN_MIDDLE, 0), syn()]
}

/// Clicks a button.
pub fn click(button: u16) -> (out: Vec<InputEvent>)
    ensures
        out@ == click_events(button),
{
    let mut out: Vec<InputEvent> = Vec::new();
    emit(&mut out, EV_KEY, button, 1);
    sync(&mut out);
    emit(&mut out, EV_KEY, button, 0);
    sync(&mut out);
    assert(out@ =~= click_events(button));
    out
}

/// Moves the pointer by so many pixels.
pub fn emit_motion(dx: i32, dy: i32) -> (out: Vec<InputEvent>)
    ensures
        out@ == motion_events(dx, dy),
{
    let mut out: Vec<InputEvent> = Vec::new();
    if dx != 0 || dy != 0 {
        if dx != 0 {
            emit(&mut out, EV_REL, REL_X, dx);
        }
        if dy != 0 {
            emit(&mut out, EV_REL, REL_Y, dy);
        }
        sync(&mut out);
    }
    assert(out@ =~= motion_events(dx, dy));
    out
}

fn emit_wheel(out: &mut Vec<InputEvent>, w: Option<Wheel>, fine: u16, coarse: u16)
    ensures
        final(out)@ == old(out)@ + wheel_events(w, fine, coarse),
{
    match w {
        Some(w) => {
            emit(out, EV_REL, fine, w.hi_res);
            if w.detents != 0 {
                emit(out, EV_REL, coarse, w.detents);
            }
        },
        None => {},
    }
    assert(out@ =~= old(out)@ + wheel_events(w, fine, coarse));
}

/// Turns the wheels.
pub fn emit_scroll(x: Option<Wheel>, y: Option<Wheel>) -> (out: Vec<InputEvent>)
    ensures
        out@ == scroll_events(x, y),
{
    let mut out: Vec<InputEvent> = Vec::new();
    if x.is_some() || y.is_some() {
        emit_wheel(&mut out, y, REL_WHEEL_HI_RES, REL_WHEEL);
        emit_wheel(&mut out, x, REL_HWHEEL_HI_RES, REL_HWHEEL);
        sync(&mut out);
    }
    assert(out@ =~= scroll_events(x, y));
    out
}

/// A pad that no finger touches.
pub open spec fn untouched_pad(now: int) -> Pad {
    Pad { fingers: Map::<u8, (u32, u32)>::empty(), peak: 0, down_at: now, moved: false }
}

/// What the pad remembers once it was told that a finger went too far for a tap.
pub open spec fn marked(p: Pad) -> Pad {
    Pad { moved: true, ..p }
}

/// What the pad remembers when every finger was forgotten.
pub open spec fn forgotten(p: Pad) -> Pad {
    Pad { fingers: Map::<u8, (u32, u32)>::empty(), ..p }
}

impl Touchpad {
    /// A pad that no finger touches.
    pub fn new(now_ns: u128) -> (r: Self)
        ensures
            r@ == untouched_pad(now_ns as int),
    {
        Touchpad { fingers: HashMap::new(), peak: 0, down_at: now_ns, moved: false }
    }

    /// The calls that create the touchpad.
    pub fn setup() -> (r: Vec<Ioctl>)
        ensures
            calls(r@) == touchpad_creation(),
    {
        let mut steps: Vec<Step> = Vec::new();
        steps.push(Step::Event(EV_KEY));
        steps.push(Step::Event(EV_REL));
        steps.push(Step::Key(BTN_LEFT));
        steps.push(Step::Key(BTN_RIGHT));
        steps.push(Step::Key(BTN_MIDDLE));
        steps.push(Step::Relative(REL_X));
        steps.push(Step::Relative(REL_Y));
        steps.push(Step::Relative(REL_WHEEL));
        steps.push(Step::Relative(REL_HWHEEL));
        steps.push(Step::Relative(REL_WHEEL_HI_RES));
        steps.push(Step::Relative(REL_HWHEEL_HI_RES));
        assert(steps@ =~= touchpad_steps());
        creation_calls("TabScreen Touchpad".as_bytes(), 0x0003, &steps)
    }

    /// Takes one sample at the given time.
    pub fn handle(&mut self, e: &TouchEvent, now_ns: u128) -> (r: Reaction)
        ensures
            r == pad_reaction(old(self)@, *e, now_ns as int),
            final(self)@ == pad_next(old(self)@, *e, now_ns as int),
    {
        if e.action == TOUCH_DOWN {
            if self.fingers.len() == 0 {
                self.down_at = now_ns;
                self.moved = false;
                self.peak = 0;
            }
            self.fingers.insert(e.id, (e.x, e.y));
            let count: usize = self.fingers.len();
            if self.peak < count {
                self.peak = count;
            }
            Reaction::Quiet
        } else if e.action == TOUCH_MOVE {
            match self.fingers.get(&e.id) {
                Some(last) => {
                    let (from_x, from_y) = *last;
                    self.fingers.insert(e.id, (e.x, e.y));
                    let count: usize = self.fingers.len();
                    assert(self@.fingers.dom() =~= old(self)@.fingers.dom());
                    let effect = if count == 1 {
                        Effect::Pointer
                    } else if count == 2 {
                        Effect::Scroll
                    } else {
                        Effect::Nothing
                    };
                    Reaction::Moved { from_x, from_y, effect }
                },
                None => Reaction::Quiet,
            }
        } else if e.action == TOUCH_UP || e.action == TOUCH_CANCEL {
            self.fingers.remove(&e.id);
            if self.fingers.len() == 0 && e.action == TOUCH_UP {
                let elapsed: u128 = if now_ns > self.down_at {
                    now_ns - self.down_at
                } else {
                    0
                };
                if elapsed / 1_000_000 <= TAP_MAX_MS && !self.moved {
                    if self.peak == 1 {
                        return Reaction::Click(BTN_LEFT);
                    } else if self.peak == 2 {
                        return Reaction::Click(BTN_RIGHT);
                    } else if self.peak == 3 {
                        return Reaction::Click(BTN_MIDDLE);
                    }
                }
            }
            Reaction::Quiet
        } else {
            Reaction::Quiet
        }
    }

    /// Notes that a finger went too far for a tap.
    pub fn mark_moved(&mut self)
        ensures
            final(self)@ == marked(old(self)@),
    {
        self.moved = true;
    }

    /// Forgets every finger and lets every button go.
    pub fn release_all(&mut self) -> (out: Vec<InputEvent>)
        ensures
            out@ == release_events(),
            final(self)@ == forgotten(old(self)@),
    {
        self.fingers.clear();
        let mut out: Vec<InputEvent> = Vec::new();
        emit(&mut out, EV_KEY, BTN_LEFT, 0);
        emit(&mut out, EV_KEY, BTN_RIGHT, 0);
        emit(&mut out, EV_KEY, BTN_MIDDLE, 0);
        sync(&mut out);
        assert(out@ =~= release_events());
        out
    }
}

/// What the pad remembers after the first `n` of `events`, the `i`-th of which comes at `times[i]`.
pub open spec fn pad_after(p: Pad, events: Seq<TouchEvent>, times: Seq<int>, n: int) -> Pad
    decreases n,
{
    if n <= 0 {
        p
    } else {
        pad_next(pad_after(p, events, times, n - 1), events[n - 1], times[n - 1])
    }
}

/// Whether one of the first `n` events is about the finger `id`.
pub open spec fn names(events: Seq<TouchEvent>, n: int, id: u8) -> bool {
    exists|i: int| 0 <= i < n && (#[trigger] events[i]).id == id
}

/// Whether all events have the given action, each for a finger of its own.
pub open spec fn all_fingers(events: Seq<TouchEvent>, action: u8) -> bool {
    &&& forall|i: int| 0 <= i < events.len() ==> (#[trigger] events[i]).action == action
    &&& forall|i: int, j: int|
        0 <= i < j < events.len() ==> (#[trigger] events[i]).id != (#[trigger] events[j]).id
}

proof fn lemma_down(p: Pad, downs: Seq<TouchEvent>, times: Seq<int>, n: int)
    requires
        p.fingers == Map::<u8, (u32, u32)>::empty(),
        all_fingers(downs, TOUCH_DOWN),
        1 <= n <= downs.len(),
    ensures
        ({
            let q = pad_after(p, downs, times, n);
            &&& q.fingers.dom().finite()
            &&& q.fingers.dom().len() == n
            &&& forall|id: u8| #[trigger] q.fingers.dom().contains(id) <==> names(downs, n, id)
            &&& q.peak == n
            &&& q.down_at == times[0]
            &&& !q.moved
        }),
    decreases n,
{
    reveal_with_fuel(pad_after, 2);
    let before = pad_after(p, downs, times, n - 1);
    let q = pad_after(p, downs, times, n);
    if n == 1 {
        assert(before.fingers.dom() =~= Set::<u8>::empty());
        assert(q.fingers.dom() =~= Set::<u8>::empty().insert(downs[0].id));
    } else {
        lemma_down(p, downs, times, n - 1);
        assert(q.fingers.dom() =~= before.fingers.dom().insert(downs[n - 1].id));
        assert(!names(downs, n - 1, downs[n - 1].id));
    }
    assert forall|id: u8| #[trigger] q.fingers.dom().contains(id) <==> names(downs, n, id) by {
        if names(downs, n, id) && id != downs[n - 1].id {
            assert(names(downs, n - 1, id));
        }
        if id == downs[n - 1].id {
            assert(names(downs, n, id));
        }
        if n > 1 && names(downs, n - 1, id) {
            assert(names(downs, n, id));
        }
    }
}

proof fn lemma_up(p: Pad, ups: Seq<TouchEvent>, times: Seq<int>, n: int)
    requires
        p.fingers.dom().finite(),
        p.fingers.dom().len() == ups.len(),
        all_fingers(ups, TOUCH_UP),
        forall|i: int| 0 <= i < ups.len() ==> p.fingers.dom().contains((#[trigger] ups[i]).id),
        0 <= n <= ups.len(),
    ensures
        ({
            let q = pad_after(p, ups, times, n);
            &&& q.fingers.dom().finite()
            &&& q.fingers.dom().len() == ups.len() - n
            &&& forall|i: int|
                n <= i < ups.len() ==> q.fingers.dom().contains((#[trigger] ups[i]).id)
            &&& q.peak == p.peak
            &&& q.down_at == p.down_at
            &&& q.moved == p.moved
        }),
    decreases n,
{
    if n > 0 {
        lemma_up(p, ups, times, n - 1);
        let before = pad_after(p, ups, times, n - 1);
        let q = pad_after(p, ups, times, n);
        assert(q.fingers.dom() =~= before.fingers.dom().remove(ups[n - 1].id));
    }
}

/// A plain tap with one, two or three fingers clicks the left, right or middle button: on an
/// untouched pad the fingers come down one by one and are lifted in any order, nothing happens until the last
/// one leaves, and then the button of that many fingers is clicked if the gesture was short enough.
pub proof fn plain_taps_click(
    p: Pad,
    downs: Seq<TouchEvent>,
    down_times: Seq<int>,
    ups: Seq<TouchEvent>,
    up_times: Seq<int>,
)
    requires
        p.fingers == Map::<u8, (u32, u32)>::empty(),
        downs.len() >= 1,
        downs.len() == ups.len(),
        all_fingers(downs, TOUCH_DOWN),
        all_fingers(ups, TOUCH_UP),
        forall|i: int|
            0 <= i < ups.len() ==> names(downs, downs.len() as int, (#[trigger] ups[i]).id),
    ensures
        forall|i: int|
            0 <= i < downs.len() ==> pad_reaction(
                #[trigger] pad_after(p, downs, down_times, i),
                downs[i],
                down_times[i],
            ) == Reaction::Quiet,
        ({
            let n = downs.len() as int;
            let held = pad_after(p, downs, down_times, n);
            &&& forall|i: int|
                0 <= i < n - 1 ==> pad_reaction(
                    #[trigger] pad_after(held, ups, up_times, i),
                    ups[i],
                    up_times[i],
                ) == Reaction::Quiet
            &&& pad_reaction(
                pad_after(held, ups, up_times, n - 1),
                ups[n - 1],
                up_times[n - 1],
            ) == (match tap_button(n) {
                Some(button) => if is_quick(down_times[0], up_times[n - 1]) {
                    Reaction::Click(button)
                } else {
                    Reaction::Quiet
                },
                None => Reaction::Quiet,
            })
            &&& pad_after(held, ups, up_times, n).fingers.dom().len() == 0
        }),
{
    let n = downs.len() as int;
    let held = pad_after(p, downs, down_times, n);
    lemma_down(p, downs, down_times, n);
    assert forall|i: int| 0 <= i < n implies pad_reaction(
        #[trigger] pad_after(held, ups, up_times, i),
        ups[i],
        up_times[i],
    ) == (if i < n - 1 {
        Reaction::Quiet
    } else {
        match tap_button(n) {
            Some(button) => if is_quick(down_times[0], up_times[n - 1]) {
                Reaction::Click(button)
            } else {
                Reaction::Quiet
            },
            None => Reaction::Quiet,
        }
    }) by {
        lemma_up(held, ups, up_times, i);
        let q = pad_after(held, ups, up_times, i);
        assert(q.fingers.remove(ups[i].id).dom() =~= q.fingers.dom().remove(ups[i].id));
    }
    lemma_up(held, ups, up_times, n);
}

/// A sample of a gesture: what the tablet sent, when it came, and whether the finger went farther
/// than a tap allows.
pub struct Sample {
    pub event: TouchEvent,
    pub now: int,
    pub far: bool,
}

/// Whether a sample is a movement that goes too far for a tap.
pub open spec fn goes_too_far(p: Pad, s: Sample) -> bool {
    s.far && pad_reaction(p, s.event, s.now) is Moved
}

/// What the pad remembers after a sample, and after the note that the finger went too far, if it did.
pub open spec fn gesture_next(p: Pad, s: Sample) -> Pad {
    let q = pad_next(p, s.event, s.now);
    if goes_too_far(p, s) {
        marked(q)
    } else {
        q
    }
}

/// What the pad remembers after the first `n` samples.
pub open spec fn gesture_after(p: Pad, samples: Seq<Sample>, n: int) -> Pad
    decreases n,
{
    if n <= 0 {
        p
    } else {
        gesture_next(gesture_after(p, samples, n - 1), samples[n - 1])
    }
}

/// What the sample behind the first `n` leads to.
pub open spec fn gesture_reaction(p: Pad, samples: Seq<Sample>, n: int) -> Reaction {
    pad_reaction(gesture_after(p, samples, n), samples[n].event, samples[n].now)
}

/// The most fingers that are on the pad at once during the first `n` samples.
pub open spec fn most_fingers(p: Pad, samples: Seq<Sample>, n: int) -> int
    decreases n,
{
    if n <= 0 {
        0
    } else {
        let before = most_fingers(p, samples, n - 1);
        let count = gesture_after(p, samples, n).fingers.dom().len() as int;
        if before < count {
            count
        } else {
            before
        }
    }
}

/// Whether one of the first `n` samples goes too far for a tap.
pub open spec fn went_too_far(p: Pad, samples: Seq<Sample>, n: int) -> bool
    decreases n,
{
    n > 0 && (went_too_far(p, samples, n - 1) || goes_too_far(
        gesture_after(p, samples, n - 1),
        samples[n - 1],
    ))
}

/// Whether the samples are one whole gesture on an untouched pad: it begins with a finger that comes
/// down, fingers are on the pad all the way, and at its end none is.
pub open spec fn whole_gesture(p: Pad, samples: Seq<Sample>) -> bool {
    &&& p.fingers == Map::<u8, (u32, u32)>::empty()
    &&& samples.len() > 0
    &&& samples[0].event.action == TOUCH_DOWN
    &&& forall|n: int|
        0 < n < samples.len() ==> (#[trigger] gesture_after(p, samples, n)).fingers.dom().len() > 0
    &&& gesture_after(p, samples, samples.len() as int).fingers.dom().len() == 0
}

proof fn lemma_gesture(p: Pad, samples: Seq<Sample>, n: int)
    requires
        whole_gesture(p, samples),
        0 < n < samples.len(),
    ensures
        ({
            let q = gesture_after(p, samples, n);
            &&& q.fingers.dom().finite()
            &&& q.fingers.dom().len() <= q.peak
            &&& q.peak == most_fingers(p, samples, n)
            &&& q.down_at == samples[0].now
            &&& q.moved == went_too_far(p, samples, n)
        }),
    decreases n,
{
    reveal_with_fuel(gesture_after, 2);
    reveal_with_fuel(most_fingers, 2);
    reveal_with_fuel(went_too_far, 2);
    let before = gesture_after(p, samples, n - 1);
    let q = gesture_after(p, samples, n);
    let e = samples[n - 1].event;
    if n == 1 {
        assert(before.fingers.dom() =~= Set::<u8>::empty());
        assert(q.fingers.dom() =~= Set::<u8>::empty().insert(e.id));
    } else {
        lemma_gesture(p, samples, n - 1);
        if e.action == TOUCH_DOWN {
            assert(q.fingers.dom() =~= before.fingers.dom().insert(e.id));
        } else if e.action == TOUCH_MOVE && before.fingers.dom().contains(e.id) {
            assert(q.fingers.dom() =~= before.fingers.dom());
        } else if e.action == TOUCH_UP || e.action == TOUCH_CANCEL {
            assert(q.fingers.dom() =~= before.fingers.dom().remove(e.id));
        }
    }
}

/// Taps click the left, right or middle button, by the most fingers that were on the pad at once,
/// whatever else happens in between: fingers may move a little, come down late, be lifted or
/// cancelled in any order. Nothing is clicked before the last finger leaves; then the button is
/// clicked exactly if that finger was lifted rather than cancelled, the gesture was short enough and
/// no finger went too far.
pub proof fn taps_click(p: Pad, samples: Seq<Sample>)
    requires
        whole_gesture(p, samples),
    ensures
        ({
            let last = samples.len() - 1;
            &&& forall|n: int|
                0 <= n < last ==> !(#[trigger] gesture_reaction(p, samples, n) is Click)
            &&& gesture_reaction(p, samples, last) == (match tap_button(
                most_fingers(p, samples, last),
            ) {
                Some(button) => if samples[last].event.action == TOUCH_UP && is_quick(
                    samples[0].now,
                    samples[last].now,
                ) && !went_too_far(p, samples, last) {
                    Reaction::Click(button)
                } else {
                    Reaction::Quiet
                },
                None => Reaction::Quiet,
            })
        }),
{
    let last = samples.len() - 1;
    assert forall|n: int| 0 <= n < last implies !(#[trigger] gesture_reaction(
        p,
        samples,
        n,
    ) is Click) by {
        if n > 0 {
            assert(gesture_after(p, samples, n + 1).fingers.dom().len() > 0);
        }
    }
    assert(gesture_after(p, samples, last + 1).fingers.dom().len() == 0);
    if last == 0 {
        let q = gesture_after(p, samples, 1);
        reveal_with_fuel(gesture_after, 2);
        assert(q.fingers.dom() =~= Set::<u8>::empty().insert(samples[0].event.id));
    } else {
        lemma_gesture(p, samples, last);
        let before = gesture_after(p, samples, last);
        let e = samples[last].event;
        if e.action == TOUCH_DOWN {
            let q = gesture_after(p, samples, last + 1);
            assert(q.fingers.dom() =~= before.fingers.dom().insert(e.id));
        } else if e.action == TOUCH_MOVE && before.fingers.dom().contains(e.id) {
            let q = gesture_after(p, samples, last + 1);
            assert(q.fingers.dom() =~= before.fingers.dom());
        }
    }
}

/// A gesture in which a finger went too far never clicks: that it did is remembered until the next
/// gesture begins, and rules every click out.
pub proof fn moved_gestures_do_not_click(p: Pad, e: TouchEvent, now: int)
    requires
        p.moved,
    ensures
        !(pad_reaction(p, e, now) is Click),
        e.action != TOUCH_DOWN || p.fingers.dom().len() > 0 ==> pad_next(p, e, now).moved,
{
}

/// A click leaves its button as it was found when it was up, and touches no other key.
pub proof fn click_is_complete(button: u16, code: u16, before: bool)
    ensures
        key_held(before, click_events(button), code) == (before && code != button),
{
    reveal_with_fuel(crate::uinput::key_after, 5);
}

/// Releasing lets every button go.
pub proof fn release_lets_buttons_go(before: bool)
    ensures
        !key_held(before, release_events(), BTN_LEFT),
        !key_held(before, release_events(), BTN_RIGHT),
        !key_held(before, release_events(), BTN_MIDDLE),
{
    reveal_with_fuel(crate::uinput::key_after, 5);
}

/// The peak of a gesture never falls behind the number of fingers on the pad.
pub proof fn peak_covers_the_fingers(p: Pad, e: TouchEvent, now: int)
    requires
        p.fingers.dom().finite(),
        p.fingers.dom().len() <= p.peak,
    ensures
        pad_next(p, e, now).fingers.dom().finite(),
        pad_next(p, e, now).fingers.dom().len() <= pad_next(p, e, now).peak,
{
    let q = pad_next(p, e, now);
    if e.action == TOUCH_MOVE && p.fingers.dom().contains(e.id) {
        assert(q.fingers.dom() =~= p.fingers.dom());
    } else if e.action == TOUCH_UP || e.action == TOUCH_CANCEL {
        assert(q.fingers.dom() =~= p.fingers.dom().remove(e.id));
    }
}

/// The pointer moves by as much as it is told to, to either side, in one report; where it is not to
/// move nothing is sent.
pub proof fn the_pointer_moves_as_told(dx: i32, dy: i32)
    ensures
        relative_sum(motion_events(dx, dy), REL_X) == dx,
        relative_sum(motion_events(dx, dy), REL_Y) == dy,
        dx == 0 && dy == 0 ==> motion_events(dx, dy).len() == 0,
        dx != 0 || dy != 0 ==> motion_events(dx, dy).last() == syn(),
        forall|i: int|
            0 <= i < motion_events(dx, dy).len() - 1 ==> (#[trigger] motion_events(dx, dy)[i]).type_
                == EV_REL && motion_events(dx, dy)[i].value != 0,
{
    reveal_with_fuel(relative_sum, 4);
    let ev = motion_events(dx, dy);
    if dx != 0 || dy != 0 {
        let front = ev.drop_last();
        assert(ev.last() == syn());
        if dx != 0 && dy != 0 {
            assert(front.drop_last().drop_last() =~= Seq::empty());
        } else {
            assert(front.drop_last() =~= Seq::empty());
        }
    }
}

/// How far a wheel is turned.
pub open spec fn fine_steps(w: Option<Wheel>) -> int {
    match w {
        Some(w) => w.hi_res as int,
        None => 0,
    }
}

/// How many whole detents a wheel is turned.
pub open spec fn whole_steps(w: Option<Wheel>) -> int {
    match w {
        Some(w) => w.detents as int,
        None => 0,
    }
}

/// The sum over two rows is the sum of the sums.
proof fn lemma_sum_in_a_row(a: Seq<InputEvent>, b: Seq<InputEvent>, code: u16)
    ensures
        relative_sum(a + b, code) == relative_sum(a, code) + relative_sum(b, code),
    decreases b.len(),
{
    if b.len() == 0 {
        assert(a + b =~= a);
    } else {
        assert((a + b).drop_last() =~= a + b.drop_last());
        lemma_sum_in_a_row(a, b.drop_last(), code);
    }
}

proof fn lemma_wheel_sum(w: Option<Wheel>, fine: u16, coarse: u16, code: u16)
    requires
        fine != coarse,
    ensures
        relative_sum(wheel_events(w, fine, coarse), code) == (if code == fine {
            fine_steps(w)
        } else if code == coarse {
            whole_steps(w)
        } else {
            0
        }),
{
    reveal_with_fuel(relative_sum, 3);
    let ev = wheel_events(w, fine, coarse);
    if ev.len() == 2 {
        assert(ev.drop_last().drop_last() =~= Seq::empty());
    } else if ev.len() == 1 {
        assert(ev.drop_last() =~= Seq::empty());
    }
}

/// The wheels turn by as much as they are told to, in fine steps and in whole detents, to either side
/// and each on its own axis, in one report; where none is to turn nothing is sent.
pub proof fn the_wheels_turn_as_told(x: Option<Wheel>, y: Option<Wheel>)
    ensures
        relative_sum(scroll_events(x, y), REL_WHEEL_HI_RES) == fine_steps(y),
        relative_sum(scroll_events(x, y), REL_WHEEL) == whole_steps(y),
        relative_sum(scroll_events(x, y), REL_HWHEEL_HI_RES) == fine_steps(x),
        relative_sum(scroll_events(x, y), REL_HWHEEL) == whole_steps(x),
        relative_sum(scroll_events(x, y), REL_X) == 0,
        relative_sum(scroll_events(x, y), REL_Y) == 0,
        x is None && y is None ==> scroll_events(x, y).len() == 0,
        x is Some || y is Some ==> scroll_events(x, y).last() == syn(),
        forall|i: int|
            0 <= i < scroll_events(x, y).len() - 1 ==> (#[trigger] scroll_events(x, y)[i]).type_
                == EV_REL,
{
    let a = wheel_events(y, REL_WHEEL_HI_RES, REL_WHEEL);
    let b = wheel_events(x, REL_HWHEEL_HI_RES, REL_HWHEEL);
    let s = seq![syn()];
    reveal_with_fuel(relative_sum, 2);
    assert(s.drop_last() =~= Seq::empty());
    lemma_scroll_sum(x, y, REL_WHEEL_HI_RES);
    lemma_scroll_sum(x, y, REL_WHEEL);
    lemma_scroll_sum(x, y, REL_HWHEEL_HI_RES);
    lemma_scroll_sum(x, y, REL_HWHEEL);
    lemma_scroll_sum(x, y, REL_X);
    lemma_scroll_sum(x, y, REL_Y);
    assert forall|i: int| 0 <= i < scroll_events(x, y).len() - 1 implies (#[trigger] scroll_events(
        x,
        y,
    )[i]).type_ == EV_REL by {
        let ev = scroll_events(x, y);
        if i < a.len() {
            assert(ev[i] == a[i]);
        } else {
            assert(ev[i] == b[i - a.len()]);
        }
    }
}

proof fn lemma_scroll_sum(x: Option<Wheel>, y: Option<Wheel>, code: u16)
    ensures
        relative_sum(scroll_events(x, y), code) == relative_sum(
            wheel_events(y, REL_WHEEL_HI_RES, REL_WHEEL),
            code,
        ) + relative_sum(wheel_events(x, REL_HWHEEL_HI_RES, REL_HWHEEL), code),
        relative_sum(wheel_events(y, REL_WHEEL_HI_RES, REL_WHEEL), code) == (if code
            == REL_WHEEL_HI_RES {
            fine_steps(y)
        } else if code == REL_WHEEL {
            whole_steps(y)
        } else {
            0
        }),
        relative_sum(wheel_events(x, REL_HWHEEL_HI_RES, REL_HWHEEL), code) == (if code
            == REL_HWHEEL_HI_RES {
            fine_steps(x)
        } else if code == REL_HWHEEL {
            whole_steps(x)
        } else {
            0
        }),
{
    let a = wheel_events(y, REL_WHEEL_HI_RES, REL_WHEEL);
    let b = wheel_events(x, REL_HWHEEL_HI_RES, REL_HWHEEL);
    let s = seq![syn()];
    reveal_with_fuel(relative_sum, 2);
    assert(s.drop_last() =~= Seq::empty());
    lemma_wheel_sum(y, REL_WHEEL_HI_RES, REL_WHEEL, code);
    lemma_wheel_sum(x, REL_HWHEEL_HI_RES, REL_HWHEEL, code);
    lemma_sum_in_a_row(a, b, code);
    lemma_sum_in_a_row(a + b, s, code);
}

/// A click presses its button in one report and lets it go in the next.
pub proof fn a_click_goes_down_and_up(button: u16)
    ensures
        ({
            let ev = click_events(button);
            exists|k: int|
                0 < k < ev.len() && ev[k - 1] == syn() && key_held(
                    false,
                    #[trigger] ev.take(k),
                    button,
                ) && !key_held(false, ev, button) && ev.last() == syn()
        }),
{
    let ev = click_events(button);
    reveal_with_fuel(crate::uinput::key_after, 5);
    let front = ev.take(2);
    assert(front[0] == key(button, 1) && front[1] == syn());
    assert(key_held(false, front, button));
}

/// The pad follows the fingers: it remembers the last place of a finger that comes down or that moves
/// while it is down, forgets one that is lifted or cancelled, and no sample changes what it remembers
/// of another finger.
pub proof fn the_pad_follows_the_fingers(p: Pad, e: TouchEvent, now: int, other: u8)
    requires
        other != e.id,
    ensures
        ({
            let q = pad_next(p, e, now);
            let down = p.fingers.dom().contains(e.id);
            &&& e.action == TOUCH_DOWN || (e.action == TOUCH_MOVE && down)
                ==> q.fingers.dom().contains(e.id) && q.fingers[e.id] == (e.x, e.y)
            &&& e.action == TOUCH_MOVE && !down ==> !q.fingers.dom().contains(e.id)
            &&& e.action == TOUCH_UP || e.action == TOUCH_CANCEL ==> !q.fingers.dom().contains(e.id)
            &&& q.fingers.dom().contains(other) == p.fingers.dom().contains(other)
            &&& q.fingers.dom().contains(other) ==> q.fingers[other] == p.fingers[other]
        }),
{
}

/// A finger that moves is reported with the place where it was seen last; alone it moves the pointer,
/// one of two scrolls, and one of more does neither. A finger that is not down does nothing.
pub proof fn a_move_starts_where_the_finger_was(p: Pad, e: TouchEvent, now: int)
    requires
        e.action == TOUCH_MOVE,
    ensures
        match pad_reaction(p, e, now) {
            Reaction::Moved { from_x, from_y, effect } => {
                &&& p.fingers.dom().contains(e.id)
                &&& p.fingers[e.id] == (from_x, from_y)
                &&& effect == Effect::Pointer <==> p.fingers.dom().len() == 1
                &&& effect == Effect::Scroll <==> p.fingers.dom().len() == 2
            },
            Reaction::Quiet => !p.fingers.dom().contains(e.id),
            Reaction::Click(_) => false,
        },
{
}

/// One finger taps the left button, two the right, three the middle, more none; a tap takes less than
/// 221 milliseconds.
pub proof fn taps_have_their_buttons(fingers: int, begun: int, now: int)
    requires
        fingers >= 1,
    ensures
        tap_button(fingers) == (if fingers > 3 {
            None
        } else {
            Some((0x110 + (if fingers == 1 {
                0
            } else if fingers == 2 {
                1
            } else {
                2int
            })) as u16)
        }),
        is_quick(begun, now) <==> now - begun < 221_000_000,
{
}

/// The kernel was told beforehand of everything that the touchpad sends.
pub proof fn the_touchpad_sends_what_was_announced(
    dx: i32,
    dy: i32,
    x: Option<Wheel>,
    y: Option<Wheel>,
    fingers: int,
    i: int,
)
    ensures
        0 <= i < motion_events(dx, dy).len() ==> may_send(
            touchpad_steps(),
            motion_events(dx, dy)[i],
        ),
        0 <= i < scroll_events(x, y).len() ==> may_send(touchpad_steps(), scroll_events(x, y)[i]),
        tap_button(fingers) matches Some(b) ==> (0 <= i < click_events(b).len() ==> may_send(
            touchpad_steps(),
            click_events(b)[i],
        )),
        0 <= i < release_events().len() ==> may_send(touchpad_steps(), release_events()[i]),
{
    let steps = touchpad_steps();
    assert(steps[0] == Step::Event(EV_KEY) && steps[1] == Step::Event(EV_REL));
    assert(steps[2] == Step::Key(BTN_LEFT) && steps[3] == Step::Key(BTN_RIGHT));
    assert(steps[4] == Step::Key(BTN_MIDDLE));
    assert(steps[5] == Step::Relative(REL_X) && steps[6] == Step::Relative(REL_Y));
    assert(steps[7] == Step::Relative(REL_WHEEL) && steps[8] == Step::Relative(REL_HWHEEL));
    assert(steps[9] == Step::Relative(REL_WHEEL_HI_RES));
    assert(steps[10] == Step::Relative(REL_HWHEEL_HI_RES));
    assert(forall|k: int| 0 <= k < 11 ==> steps.contains(#[trigger] steps[k]));
    let a = wheel_events(y, REL_WHEEL_HI_RES, REL_WHEEL);
    let b = wheel_events(x, REL_HWHEEL_HI_RES, REL_HWHEEL);
    if 0 <= i < scroll_events(x, y).len() {
        let ev = scroll_events(x, y);
        if i < a.len() {
            assert(ev[i] == a[i]);
        } else if i < a.len() + b.len() {
            assert(ev[i] == b[i - a.len()]);
        }
    }
}

/// The three devices are told apart: each has a number of its own, and the kernel reads its name.
pub proof fn devices_are_told_apart(res_x: i32, res_y: i32)
    ensures
        ({
            let pen = crate::pen::pen_creation(res_x, res_y)[0];
            let screen = crate::touch::touch_creation(res_x, res_y)[0];
            let pad = touchpad_creation()[0];
            &&& pen is Data && screen is Data && pad is Data
            &&& crate::bytes::u16_at(pen->Data_data, 4) == 1
            &&& crate::bytes::u16_at(screen->Data_data, 4) == 2
            &&& crate::bytes::u16_at(pad->Data_data, 4) == 3
        }),
{
    device_setup_reads_back(vstd::utf8::encode_utf8("TabScreen Pen"@), 1);
    device_setup_reads_back(vstd::utf8::encode_utf8("TabScreen Touch"@), 2);
    device_setup_reads_back(vstd::utf8::encode_utf8("TabScreen Touchpad"@), 3);
}

/// A new pad and one that forgot its fingers have none, so that the next finger begins a gesture; a
/// mark rules a tap out and leaves everything else as it is.
pub proof fn pads_begin_without_fingers(p: Pad, now: int, e: TouchEvent, later: int)
    ensures
        untouched_pad(now).fingers == Map::<u8, (u32, u32)>::empty(),
        forgotten(p).fingers == Map::<u8, (u32, u32)>::empty(),
        e.action == TOUCH_DOWN ==> pad_next(forgotten(p), e, later).down_at == later && !pad_next(
            forgotten(p),
            e,
            later,
        ).moved && pad_next(forgotten(p), e, later).peak == 1,
        forgotten(p).peak == p.peak && forgotten(p).down_at == p.down_at && forgotten(p).moved
            == p.moved,
        !(pad_reaction(marked(p), e, later) is Click),
        marked(p).fingers == p.fingers && marked(p).peak == p.peak && marked(p).down_at
            == p.down_at && marked(p).moved,
{
    if e.action == TOUCH_DOWN {
        let fingers = Map::<u8, (u32, u32)>::empty().insert(e.id, (e.x, e.y));
        assert(Map::<u8, (u32, u32)>::empty().dom() =~= Set::<u8>::empty());
        assert(fingers.dom() =~= Set::<u8>::empty().insert(e.id));
    }
}

/// A click comes of a finger that is lifted and of nothing else, and a movement of one that moves;
/// a sample of another kind is passed over.
pub proof fn every_sample_has_its_reaction(p: Pad, e: TouchEvent, now: int)
    ensures
        pad_reaction(p, e, now) is Click ==> e.action == TOUCH_UP && !p.moved && p.fingers.remove(
            e.id,
        ).dom().len() == 0,
        pad_reaction(p, e, now) is Moved <==> e.action == TOUCH_MOVE && p.fingers.dom().contains(
            e.id,
        ),
        e.action != TOUCH_DOWN && e.action != TOUCH_MOVE && e.action != TOUCH_UP && e.action
            != TOUCH_CANCEL ==> pad_next(p, e, now) == p && pad_reaction(p, e, now)
            == Reaction::Quiet,
{
}

/// The kernel reads the name of each device, and that the stylus and the fingers point at what they
/// touch, while the touchpad does not.
pub proof fn devices_say_what_they_are(res_x: i32, res_y: i32, k: int)
    ensures
        ({
            let pen = crate::pen::pen_creation(res_x, res_y);
            let screen = crate::touch::touch_creation(res_x, res_y);
            let pad = touchpad_creation();
            let direct = Call::Value { request: 0x4004_556e, arg: 1 };
            let pen_name = vstd::utf8::encode_utf8("TabScreen Pen"@);
            let screen_name = vstd::utf8::encode_utf8("TabScreen Touch"@);
            let pad_name = vstd::utf8::encode_utf8("TabScreen Touchpad"@);
            &&& 0 <= k < 79 ==> pen[0]->Data_data[8 + k] == (if k < pen_name.len() {
                pen_name[k]
            } else {
                0
            })
            &&& 0 <= k < 79 ==> screen[0]->Data_data[8 + k] == (if k < screen_name.len() {
                screen_name[k]
            } else {
                0
            })
            &&& 0 <= k < 79 ==> pad[0]->Data_data[8 + k] == (if k < pad_name.len() {
                pad_name[k]
            } else {
                0
            })
            &&& pen.contains(direct)
            &&& screen.contains(direct)
            &&& !pad.contains(direct)
        }),
{
    let pen_name = vstd::utf8::encode_utf8("TabScreen Pen"@);
    let screen_name = vstd::utf8::encode_utf8("TabScreen Touch"@);
    let pad_name = vstd::utf8::encode_utf8("TabScreen Touchpad"@);
    let pen = crate::pen::pen_steps(res_x, res_y);
    let screen = crate::touch::touch_steps(res_x, res_y);
    device_setup_reads_back(pen_name, 1);
    device_setup_reads_back(screen_name, 2);
    device_setup_reads_back(pad_name, 3);
    creation_announces_the_steps(pen_name, 1, pen, 1);
    creation_announces_the_steps(screen_name, 2, screen, 1);
    creation_announces_the_steps(pad_name, 3, touchpad_steps(), 1);
    assert(pen[7] == Step::Property(1));
    assert(screen[3] == Step::Property(1));
}

} // verus!
