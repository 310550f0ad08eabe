//! The virtual stylus tablet: pressure, tilt, hover, two barrel buttons and an eraser.
use vstd::prelude::*;

use crate::protocol::{
    BTN_PRIMARY, BTN_SECONDARY, PEN_CANCEL, PEN_DOWN, PEN_HOVER_ENTER, PEN_HOVER_EXIT,
    PEN_HOVER_MOVE, PEN_MOVE, PEN_UP, TOOL_ERASER,
};
use crate::uinput::{
    abs, axis_value, axis_value_in_a_row, creation, key, key_held, key_held_in_a_row, may_send,
    syn,
};
use crate::uinput::{calls, creation_calls, emit, sync, Axis, Call, InputEvent, Ioctl, Step};
use crate::uinput::{
    ABS_DISTANCE, ABS_PRESSURE, ABS_TILT_X, ABS_TILT_Y, ABS_X, ABS_Y, AXIS_MAX, BTN_STYLUS,
    BTN_STYLUS2, BTN_TOOL_PEN, BTN_TOOL_RUBBER, BTN_TOUCH, DISTANCE_MAX, EV_ABS, EV_KEY,
    INPUT_PROP_DIRECT, PRESSURE_MAX, TILT_MAX,
};

verus! {

/// One stylus sample on the device's integer axes.
#[derive(Clone, Copy, Debug, PartialEq, Eq, Structural)]
pub struct PenInput {
    pub action: u8,
    pub tool: u8,
    pub buttons: u8,
    pub x: i32,
    pub y: i32,
    pub pressure: i32,
    pub tilt_x: i32,
    pub tilt_y: i32,
    pub distance: i32,
}

/// What the server remembers of the stylus.
#[derive(Clone, Copy, Debug, PartialEq, Eq, Structural)]
pub struct Pen {
    /// Whether the kernel has been told that a tool is near the surface.
    pub in_proximity: bool,
    /// The key of the tool seen last.
    pub tool: u16,
    /// The barrel buttons that the kernel has been told of.
    pub buttons: u8,
}

/// The key of a tool: the eraser has its own, everything else is a pen.
pub open spec fn tool_key(tool: u8) -> u16 {
    if tool == TOOL_ERASER {
        BTN_TOOL_RUBBER
    } else {
        BTN_TOOL_PEN
    }
}

/// Whether an action reports a position.
pub open spec fn is_position(action: u8) -> bool {
    ||| action == PEN_HOVER_ENTER
    ||| action == PEN_HOVER_MOVE
    ||| action == PEN_DOWN
    ||| action == PEN_MOVE
    ||| action == PEN_UP
}

/// Whether an action takes the tool away.
pub open spec fn is_leaving(action: u8) -> bool {
    action == PEN_HOVER_EXIT || action == PEN_CANCEL
}

/// Whether the tip is on the surface.
pub open spec fn is_touching(action: u8) -> bool {
    action == PEN_DOWN || action == PEN_MOVE
}

/// At least one.
pub open spec fn at_least_one(v: i32) -> i32 {
    if v < 1 {
        1
    } else {
        v
    }
}

/// One where a bit of the mask is set, else zero.
pub open spec fn bit_value(buttons: u8, mask: u8) -> i32 {
    if buttons & mask != 0 {
        1
    } else {
        0
    }
}

/// Whether the tool of `e` is already known to be near.
pub open spec fn is_near(pen: Pen, e: PenInput) -> bool {
    pen.in_proximity && pen.tool == tool_key(e.tool)
}

/// The report that takes the old tool away when another one shows up.
pub open spec fn tool_change(pen: Pen, e: PenInput) -> Seq<InputEvent> {
    if pen.in_proximity && pen.tool != tool_key(e.tool) {
        seq![key(pen.tool, 0), syn()]
    } else {
        seq![]
    }
}

/// Tells the kernel of a tool that was not near before.
pub open spec fn entering(pen: Pen, e: PenInput) -> Seq<InputEvent> {
    if is_near(pen, e) {
        seq![]
    } else {
        seq![key(tool_key(e.tool), 1)]
    }
}

/// Where the tool is and how it is held.
pub open spec fn placing(e: PenInput) -> Seq<InputEvent> {
    seq![
        abs(ABS_X, e.x),
        abs(ABS_Y, e.y),
        abs(ABS_TILT_X, e.tilt_x),
        abs(ABS_TILT_Y, e.tilt_y),
    ]
}

/// A tip on the surface has pressure and no distance, one above it the reverse.
pub open spec fn pressing(e: PenInput) -> Seq<InputEvent> {
    if is_touching(e.action) {
        seq![abs(ABS_PRESSURE, at_least_one(e.pressure)), abs(ABS_DISTANCE, 0)]
    } else {
        seq![abs(ABS_PRESSURE, 0), abs(ABS_DISTANCE, at_least_one(e.distance))]
    }
}

/// The tip comes down or goes up.
pub open spec fn tip_change(e: PenInput) -> Seq<InputEvent> {
    if e.action == PEN_DOWN {
        seq![key(BTN_TOUCH, 1)]
    } else if e.action == PEN_UP {
        seq![key(BTN_TOUCH, 0)]
    } else {
        seq![]
    }
}

/// The barrel buttons, where any of them changed.
pub open spec fn button_change(pen: Pen, e: PenInput) -> Seq<InputEvent> {
    if e.buttons != pen.buttons {
        seq![
            key(BTN_STYLUS, bit_value(e.buttons, BTN_PRIMARY)),
            key(BTN_STYLUS2, bit_value(e.buttons, BTN_SECONDARY)),
        ]
    } else {
        seq![]
    }
}

/// The report of a position.
pub open spec fn position_report(pen: Pen, e: PenInput) -> Seq<InputEvent> {
    entering(pen, e) + placing(e) + pressing(e) + tip_change(e) + button_change(pen, e) + seq![
        syn(),
    ]
}

/// The report of a tool that leaves.
pub open spec fn leaving_report(pen: Pen, e: PenInput) -> Seq<InputEvent> {
    if is_near(pen, e) {
        seq![key(BTN_TOUCH, 0), abs(ABS_PRESSURE, 0)] + (if pen.buttons != 0 {
            seq![key(BTN_STYLUS, 0), key(BTN_STYLUS2, 0)]
        } else {
            seq![]
        }) + seq![key(tool_key(e.tool), 0), syn()]
    } else {
        seq![]
    }
}

/// Everything the kernel is told on a sample.
pub open spec fn pen_events(pen: Pen, e: PenInput) -> Seq<InputEvent> {
    tool_change(pen, e) + (if is_position(e.action) {
        position_report(pen, e)
    } else if is_leaving(e.action) {
        leaving_report(pen, e)
    } else {
        seq![]
    })
}

/// What the server remembers after a sample.
pub open spec fn pen_next(pen: Pen, e: PenInput) -> Pen {
    let tool = tool_key(e.tool);
    if is_position(e.action) {
        Pen { in_proximity: true, tool, buttons: e.buttons }
    } else if is_leaving(e.action) {
        Pen {
            in_proximity: false,
            tool,
            buttons: if is_near(pen, e) {
                0
            } else {
                pen.buttons
            },
        }
    } else {
        Pen { in_proximity: is_near(pen, e), tool, buttons: pen.buttons }
    }
}

/// The axes of the stylus tablet.
pub open spec fn pen_axes(res_x: i32, res_y: i32) -> Seq<Axis> {
    seq![
        Axis { code: ABS_X, min: 0, max: AXIS_MAX, resolution: res_x },
        Axis { code: ABS_Y, min: 0, max: AXIS_MAX, resolution: res_y },
        Axis { code: ABS_PRESSURE, min: 0, max: PRESSURE_MAX, resolution: 0 },
        Axis { code: ABS_DISTANCE, min: 0, max: DISTANCE_MAX, resolution: 0 },
        Axis { code: ABS_TILT_X, min: (-TILT_MAX) as i32, max: TILT_MAX, resolution: 0 },
        Axis { code: ABS_TILT_Y, min: (-TILT_MAX) as i32, max: TILT_MAX, resolution: 0 },
    ]
}

/// What the stylus tablet can do.
pub open spec fn pen_steps(res_x: i32, res_y: i32) -> Seq<Step> {
    seq![
        Step::Event(EV_KEY),
        Step::Event(EV_ABS),
        Step::Key(BTN_TOOL_PEN),
        Step::Key(BTN_TOOL_RUBBER),
        Step::Key(BTN_TOUCH),
        Step::Key(BTN_STYLUS),
        Step::Key(BTN_STYLUS2),
        Step::Property(INPUT_PROP_DIRECT),
    ] + pen_axes(res_x, res_y).map_values(|a: Axis| Step::Absolute(a))
}

/// The calls that create the stylus tablet.
pub open spec fn pen_creation(res_x: i32, res_y: i32) -> Seq<Call> {
    creation(vstd::utf8::encode_utf8("TabScreen Pen"@), 0x0001, pen_steps(res_x, res_y))
}

/// A stylus that has not been seen yet.
pub open spec fn unseen_pen() -> Pen {
    Pen { in_proximity: false, tool: BTN_TOOL_PEN, buttons: 0 }
}

impl Pen {
    /// A stylus that has not been seen yet.
    pub fn new() -> (r: Self)
        ensures
            r == unseen_pen(),
    {
        Pen { in_proximity: false, tool: BTN_TOOL_PEN, buttons: 0 }
    }

    /// The calls that create the stylus tablet; the resolutions are in axis units per millimetre.
    pub fn setup(res_x: i32, res_y: i32) -> (r: Vec<Ioctl>)
        ensures
            calls(r@) == pen_creation(res_x, res_y),
    {
        let mut steps: Vec<Step> = Vec::new();
        steps.push(Step::Event(EV_KEY));
        steps.push(Step::Event(EV_ABS));
        steps.push(Step::Key(BTN_TOOL_PEN));
        steps.push(Step::Key(BTN_TOOL_RUBBER));
        steps.push(Step::Key(BTN_TOUCH));
        steps.push(Step::Key(BTN_STYLUS));
        steps.push(Step::Key(BTN_STYLUS2));
        steps.push(Step::Property(INPUT_PROP_DIRECT));
        steps.push(
            Step::Absolute(Axis { code: ABS_X, min: 0, max: AXIS_MAX, resolution: res_x }),
        );
        steps.push(
            Step::Absolute(Axis { code: ABS_Y, min: 0, max: AXIS_MAX, resolution: res_y }),
        );
        steps.push(
            Step::Absolute(Axis { code: ABS_PRESSURE, min: 0, max: PRESSURE_MAX, resolution: 0 }),
        );
        steps.push(
            Step::Absolute(Axis { code: ABS_DISTANCE, min: 0, max: DISTANCE_MAX, resolution: 0 }),
        );
        steps.push(
            Step::Absolute(
                Axis { code: ABS_TILT_X, min: -TILT_MAX, max: TILT_MAX, resolution: 0 },
            ),
        );
        steps.push(
            Step::Absolute(
                Axis { code: ABS_TILT_Y, min: -TILT_MAX, max: TILT_MAX, resolution: 0 },
            ),
        );
        assert(steps@ =~= pen_steps(res_x, res_y));
        creation_calls("TabScreen Pen".as_bytes(), 0x0001, &steps)
    }

    /// Takes one sample and returns the events that the kernel is told.
    pub fn handle(&mut self, e: &PenInput) -> (out: Vec<InputEvent>)
        ensures
            out@ == pen_events(*old(self), *e),
            *final(self) == pen_next(*old(self), *e),
    {
        let mut out: Vec<InputEvent> = Vec::new();
        let tool: u16 = if e.tool == TOOL_ERASER {
            BTN_TOOL_RUBBER
        } else {
            BTN_TOOL_PEN
        };
        // Another tool in mid-proximity: leave with the old one first.
        if self.in_proximity && tool != self.tool {
            emit(&mut out, EV_KEY, self.tool, 0);
            sync(&mut out);
            self.in_proximity = false;
        }
        self.tool = tool;
        assert(out@ =~= tool_change(*old(self), *e));
        if e.action == PEN_HOVER_ENTER || e.action == PEN_HOVER_MOVE || e.action == PEN_DOWN
            || e.action == PEN_MOVE || e.action == PEN_UP {
            assert(position_report(*self, *e) == position_report(*old(self), *e));
            self.report_position(&mut out, e);
        } else if e.action == PEN_HOVER_EXIT || e.action == PEN_CANCEL {
            assert(leaving_report(*self, *e) == leaving_report(*old(self), *e));
            self.report_leaving(&mut out, e);
        } else {
            assert(out@ =~= pen_events(*old(self), *e));
        }
        out
    }

    /// Reports a position of the tool that is in use.
    fn report_position(&mut self, out: &mut Vec<InputEvent>, e: &PenInput)
        requires
            is_position(e.action),
            old(self).tool == tool_key(e.tool),
        ensures
            final(out)@ == old(out)@ + position_report(*old(self), *e),
            *final(self) == (Pen { in_proximity: true, tool: old(self).tool, buttons: e.buttons }),
    {
        let ghost start = out@;
        if !self.in_proximity {
            emit(out, EV_KEY, self.tool, 1);
            self.in_proximity = true;
        }
        let ghost p1 = entering(*old(self), *e);
        assert(out@ =~= start + p1);
        emit(out, EV_ABS, ABS_X, e.x);
        emit(out, EV_ABS, ABS_Y, e.y);
        emit(out, EV_ABS, ABS_TILT_X, e.tilt_x);
        emit(out, EV_ABS, ABS_TILT_Y, e.tilt_y);
        let ghost p2 = placing(*e);
        assert(out@ =~= start + p1 + p2);
        if e.action == PEN_DOWN || e.action == PEN_MOVE {
            let pressure: i32 = if e.pressure < 1 {
                1
            } else {
                e.pressure
            };
            emit(out, EV_ABS, ABS_PRESSURE, pressure);
            emit(out, EV_ABS, ABS_DISTANCE, 0);
        } else {
            let distance: i32 = if e.distance < 1 {
                1
            } else {
                e.distance
            };
            emit(out, EV_ABS, ABS_PRESSURE, 0);
            emit(out, EV_ABS, ABS_DISTANCE, distance);
        }
        let ghost p3 = pressing(*e);
        assert(out@ =~= start + p1 + p2 + p3);
        if e.action == PEN_DOWN {
            emit(out, EV_KEY, BTN_TOUCH, 1);
        } else if e.action == PEN_UP {
            emit(out, EV_KEY, BTN_TOUCH, 0);
        }
        let ghost p4 = tip_change(*e);
        assert(out@ =~= start + p1 + p2 + p3 + p4);
        if e.buttons != self.buttons {
            let primary: i32 = if e.buttons & BTN_PRIMARY != 0 {
                1
            } else {
                0
            };
            let secondary: i32 = if e.buttons & BTN_SECONDARY != 0 {
                1
            } else {
                0
            };
            emit(out, EV_KEY, BTN_STYLUS, primary);
            emit(out, EV_KEY, BTN_STYLUS2, secondary);
            self.buttons = e.buttons;
        }
        let ghost p5 = button_change(*old(self), *e);
        assert(out@ =~= start + p1 + p2 + p3 + p4 + p5);
        sync(out);
        assert(out@ =~= start + p1 + p2 + p3 + p4 + p5 + seq![syn()]);
        proof {
            lemma_row_of_six(start, p1, p2, p3, p4, p5, seq![syn()]);
        }
    }

    /// Reports that the tool in use is gone.
    fn report_leaving(&mut self, out: &mut Vec<InputEvent>, e: &PenInput)
        requires
            old(self).tool == tool_key(e.tool),
        ensures
            final(out)@ == old(out)@ + leaving_report(*old(self), *e),
            *final(self) == (Pen {
                in_proximity: false,
                tool: old(self).tool,
                buttons: if old(self).in_proximity {
                    0
                } else {
                    old(self).buttons
                },
            }),
    {
        if self.in_proximity {
            emit(out, EV_KEY, BTN_TOUCH, 0);
            emit(out, EV_ABS, ABS_PRESSURE, 0);
            if self.buttons != 0 {
                emit(out, EV_KEY, BTN_STYLUS, 0);
                emit(out, EV_KEY, BTN_STYLUS2, 0);
                self.buttons = 0;
            }
            emit(out, EV_KEY, self.tool, 0);
            sync(out);
            self.in_proximity = false;
        }
        assert(out@ =~= old(out)@ + leaving_report(*old(self), *e));
    }
}

proof fn lemma_row_of_six(
    start: Seq<InputEvent>,
    a: Seq<InputEvent>,
    b: Seq<InputEvent>,
    c: Seq<InputEvent>,
    d: Seq<InputEvent>,
    e: Seq<InputEvent>,
    f: Seq<InputEvent>,
)
    ensures
        start + a + b + c + d + e + f == start + (a + b + c + d + e + f),
{
    assert(start + a + b + c + d + e + f =~= start + (a + b + c + d + e + f));
}

/// Whether the keys that the kernel holds down agree with what the server remembers: the tool
/// that is near and no other, and the barrel buttons as they were sent last. The server does not
/// remember the tip; see `kernel_matches` for it.
pub open spec fn keys_match(pen: Pen, keys: spec_fn(u16) -> bool) -> bool {
    &&& pen.tool == BTN_TOOL_PEN || pen.tool == BTN_TOOL_RUBBER
    &&& keys(BTN_TOOL_PEN) == (pen.in_proximity && pen.tool == BTN_TOOL_PEN)
    &&& keys(BTN_TOOL_RUBBER) == (pen.in_proximity && pen.tool == BTN_TOOL_RUBBER)
    &&& keys(BTN_STYLUS) == (pen.buttons & BTN_PRIMARY != 0)
    &&& keys(BTN_STYLUS2) == (pen.buttons & BTN_SECONDARY != 0)
}

/// The keys that the kernel holds down after a sample.
pub open spec fn keys_after(pen: Pen, e: PenInput, keys: spec_fn(u16) -> bool) -> spec_fn(
    u16,
) -> bool {
    |code: u16| key_held(keys(code), pen_events(pen, e), code)
}

/// What a position report does to one key.
proof fn lemma_position_key(before: bool, pen: Pen, e: PenInput, code: u16)
    ensures
        key_held(before, position_report(pen, e), code) == (if code == BTN_STYLUS && e.buttons
            != pen.buttons {
            e.buttons & BTN_PRIMARY != 0
        } else if code == BTN_STYLUS2 && e.buttons != pen.buttons {
            e.buttons & BTN_SECONDARY != 0
        } else if code == BTN_TOUCH && e.action == PEN_DOWN {
            true
        } else if code == BTN_TOUCH && e.action == PEN_UP {
            false
        } else if code == tool_key(e.tool) && !is_near(pen, e) {
            true
        } else {
            before
        }),
{
    reveal_with_fuel(crate::uinput::key_after, 6);
    let p1 = entering(pen, e);
    let p2 = placing(e);
    let p3 = pressing(e);
    let p4 = tip_change(e);
    let p5 = button_change(pen, e);
    key_held_in_a_row(before, p1, p2, code);
    key_held_in_a_row(before, p1 + p2, p3, code);
    key_held_in_a_row(before, p1 + p2 + p3, p4, code);
    key_held_in_a_row(before, p1 + p2 + p3 + p4, p5, code);
    key_held_in_a_row(before, p1 + p2 + p3 + p4 + p5, seq![syn()], code);
}

/// What a leaving report does to one key.
proof fn lemma_leaving_key(before: bool, pen: Pen, e: PenInput, code: u16)
    requires
        is_near(pen, e),
    ensures
        key_held(before, leaving_report(pen, e), code) == (if code == tool_key(e.tool) || code
            == BTN_TOUCH {
            false
        } else if (code == BTN_STYLUS || code == BTN_STYLUS2) && pen.buttons != 0 {
            false
        } else {
            before
        }),
{
    reveal_with_fuel(crate::uinput::key_after, 8);
}

/// What taking the old tool away does to one key.
proof fn lemma_change_key(before: bool, pen: Pen, e: PenInput, code: u16)
    ensures
        key_held(before, tool_change(pen, e), code) == (if pen.in_proximity && pen.tool != tool_key(
            e.tool,
        ) && code == pen.tool {
            false
        } else {
            before
        }),
{
    reveal_with_fuel(crate::uinput::key_after, 3);
}

/// What a whole sample does to one key.
proof fn lemma_sample_key(before: bool, pen: Pen, e: PenInput, code: u16)
    ensures
        ({
            let kept = if pen.in_proximity && pen.tool != tool_key(e.tool) && code == pen.tool {
                false
            } else {
                before
            };
            key_held(before, pen_events(pen, e), code) == (if is_position(e.action) {
                key_held(kept, position_report(pen, e), code)
            } else if is_leaving(e.action) && is_near(pen, e) {
                key_held(kept, leaving_report(pen, e), code)
            } else {
                kept
            })
        }),
{
    let tail = if is_position(e.action) {
        position_report(pen, e)
    } else if is_leaving(e.action) {
        leaving_report(pen, e)
    } else {
        seq![]
    };
    key_held_in_a_row(before, tool_change(pen, e), tail, code);
    lemma_change_key(before, pen, e, code);
}

/// A stylus that has not been seen yet agrees with a kernel that holds no key down.
pub proof fn new_pen_matches(keys: spec_fn(u16) -> bool)
    requires
        forall|code: u16| !#[trigger] keys(code),
    ensures
        keys_match(unseen_pen(), keys),
{
    assert(0u8 & BTN_PRIMARY == 0) by (bit_vector);
    assert(0u8 & BTN_SECONDARY == 0) by (bit_vector);
}

/// Whatever sample comes in, the kernel and the server go on agreeing about the keys.
pub proof fn keys_stay_matched(pen: Pen, e: PenInput, keys: spec_fn(u16) -> bool)
    requires
        keys_match(pen, keys),
    ensures
        keys_match(pen_next(pen, e), keys_after(pen, e, keys)),
{
    assert(0u8 & BTN_PRIMARY == 0) by (bit_vector);
    assert(0u8 & BTN_SECONDARY == 0) by (bit_vector);
    assert forall|code: u16| #![trigger keys(code)] true implies ({
        let before = if pen.in_proximity && pen.tool != tool_key(e.tool) && code == pen.tool {
            false
        } else {
            keys(code)
        };
        keys_after(pen, e, keys)(code) == (if is_position(e.action) {
            if code == BTN_STYLUS && e.buttons != pen.buttons {
                e.buttons & BTN_PRIMARY != 0
            } else if code == BTN_STYLUS2 && e.buttons != pen.buttons {
                e.buttons & BTN_SECONDARY != 0
            } else if code == BTN_TOUCH && e.action == PEN_DOWN {
                true
            } else if code == BTN_TOUCH && e.action == PEN_UP {
                false
            } else if code == tool_key(e.tool) && !is_near(pen, e) {
                true
            } else {
                before
            }
        } else if is_leaving(e.action) && is_near(pen, e) {
            if code == tool_key(e.tool) || code == BTN_TOUCH {
                false
            } else if (code == BTN_STYLUS || code == BTN_STYLUS2) && pen.buttons != 0 {
                false
            } else {
                before
            }
        } else {
            before
        })
    }) by {
        let before = if pen.in_proximity && pen.tool != tool_key(e.tool) && code == pen.tool {
            false
        } else {
            keys(code)
        };
        lemma_sample_key(keys(code), pen, e, code);
        lemma_position_key(before, pen, e, code);
        if is_near(pen, e) {
            lemma_leaving_key(before, pen, e, code);
        }
    }
}

/// When the tool that is near leaves or is cancelled, the kernel holds none of its keys any more:
/// neither tool, nor the tip, nor a barrel button.
pub proof fn leaving_releases_every_key(pen: Pen, e: PenInput, keys: spec_fn(u16) -> bool)
    requires
        keys_match(pen, keys),
        e.action == PEN_HOVER_EXIT || e.action == PEN_CANCEL,
        is_near(pen, e),
    ensures
        !pen_next(pen, e).in_proximity,
        ({
            let held = keys_after(pen, e, keys);
            &&& !held(BTN_TOOL_PEN)
            &&& !held(BTN_TOOL_RUBBER)
            &&& !held(BTN_TOUCH)
            &&& !held(BTN_STYLUS)
            &&& !held(BTN_STYLUS2)
        }),
{
    keys_stay_matched(pen, e, keys);
    assert(0u8 & BTN_PRIMARY == 0) by (bit_vector);
    assert(0u8 & BTN_SECONDARY == 0) by (bit_vector);
    lemma_sample_key(keys(BTN_TOUCH), pen, e, BTN_TOUCH);
    lemma_leaving_key(keys(BTN_TOUCH), pen, e, BTN_TOUCH);
}

/// The tip is down after a sample that puts it down, and up after one that lifts it.
pub proof fn tip_follows_the_pen(pen: Pen, e: PenInput, keys: spec_fn(u16) -> bool)
    ensures
        e.action == PEN_DOWN ==> keys_after(pen, e, keys)(BTN_TOUCH),
        e.action == PEN_UP ==> !keys_after(pen, e, keys)(BTN_TOUCH),
{
    let before = keys(BTN_TOUCH);
    lemma_sample_key(before, pen, e, BTN_TOUCH);
    lemma_position_key(before, pen, e, BTN_TOUCH);
    lemma_position_key(false, pen, e, BTN_TOUCH);
}

/// What the kernel has been told of the stylus: the keys that it holds down, and the pressure.
pub struct Kernel {
    pub keys: spec_fn(u16) -> bool,
    pub pressure: int,
}

/// What the kernel has been told after a sample.
pub open spec fn kernel_after(pen: Pen, e: PenInput, kernel: Kernel) -> Kernel {
    Kernel {
        keys: keys_after(pen, e, kernel.keys),
        pressure: axis_value(kernel.pressure, pen_events(pen, e), ABS_PRESSURE),
    }
}

/// Whether neither the tip nor a barrel button is pressed.
pub open spec fn is_released(kernel: Kernel) -> bool {
    &&& !(kernel.keys)(BTN_TOUCH)
    &&& !(kernel.keys)(BTN_STYLUS)
    &&& !(kernel.keys)(BTN_STYLUS2)
    &&& kernel.pressure == 0
}

/// Whether nothing is pressed and no tool is near.
pub open spec fn is_at_rest(kernel: Kernel) -> bool {
    &&& is_released(kernel)
    &&& !(kernel.keys)(BTN_TOOL_PEN)
    &&& !(kernel.keys)(BTN_TOOL_RUBBER)
}

/// Whether the kernel and the server agree: about the keys, and that nothing is pressed while no tool
/// is near.
pub open spec fn kernel_matches(pen: Pen, kernel: Kernel) -> bool {
    keys_match(pen, kernel.keys) && (!pen.in_proximity ==> is_released(kernel))
}

/// Whether a sample takes the tool away that is near without letting go of what it presses: it names
/// another tool, but no position of that tool.
pub open spec fn strands(pen: Pen, e: PenInput, kernel: Kernel) -> bool {
    !is_position(e.action) && pen.in_proximity && pen.tool != tool_key(e.tool) && !is_released(
        kernel,
    )
}

/// A stylus that has not been seen yet agrees with a kernel that is at rest.
pub proof fn new_pen_is_at_rest(kernel: Kernel)
    requires
        is_at_rest(kernel),
    ensures
        kernel_matches(unseen_pen(), kernel),
{
    assert(0u8 & BTN_PRIMARY == 0) by (bit_vector);
    assert(0u8 & BTN_SECONDARY == 0) by (bit_vector);
}

/// The pressure that a sample leaves behind, where it is no position.
proof fn lemma_sample_pressure(before: int, pen: Pen, e: PenInput)
    requires
        !is_position(e.action),
    ensures
        axis_value(before, pen_events(pen, e), ABS_PRESSURE) == (if is_leaving(e.action)
            && is_near(pen, e) {
            0
        } else {
            before
        }),
{
    reveal_with_fuel(crate::uinput::axis_after, 8);
}

/// Whatever sample comes in, the kernel and the server go on agreeing, unless the sample strands what
/// is pressed; then they do not.
pub proof fn kernel_stays_matched(pen: Pen, e: PenInput, kernel: Kernel)
    requires
        kernel_matches(pen, kernel),
    ensures
        kernel_matches(pen_next(pen, e), kernel_after(pen, e, kernel)) <==> !strands(
            pen,
            e,
            kernel,
        ),
{
    keys_stay_matched(pen, e, kernel.keys);
    if !is_position(e.action) {
        lemma_sample_pressure(kernel.pressure, pen, e);
        lemma_sample_key((kernel.keys)(BTN_TOUCH), pen, e, BTN_TOUCH);
        lemma_sample_key((kernel.keys)(BTN_STYLUS), pen, e, BTN_STYLUS);
        lemma_sample_key((kernel.keys)(BTN_STYLUS2), pen, e, BTN_STYLUS2);
        if is_leaving(e.action) && is_near(pen, e) {
            leaving_releases_every_key(pen, e, kernel.keys);
        }
    }
}

/// What the server remembers after the first `n` samples.
pub open spec fn pen_after_all(pen: Pen, samples: Seq<PenInput>, n: int) -> Pen
    decreases n,
{
    if n <= 0 {
        pen
    } else {
        pen_next(pen_after_all(pen, samples, n - 1), samples[n - 1])
    }
}

/// What the kernel has been told after the first `n` samples.
pub open spec fn kernel_after_all(
    pen: Pen,
    samples: Seq<PenInput>,
    kernel: Kernel,
    n: int,
) -> Kernel
    decreases n,
{
    if n <= 0 {
        kernel
    } else {
        kernel_after(
            pen_after_all(pen, samples, n - 1),
            samples[n - 1],
            kernel_after_all(pen, samples, kernel, n - 1),
        )
    }
}

/// Whether none of the samples strands what is pressed when it comes in.
pub open spec fn none_strands(pen: Pen, samples: Seq<PenInput>, kernel: Kernel) -> bool {
    forall|i: int|
        0 <= i < samples.len() ==> !strands(
            #[trigger] pen_after_all(pen, samples, i),
            samples[i],
            kernel_after_all(pen, samples, kernel, i),
        )
}

proof fn lemma_matched_after_all(pen: Pen, samples: Seq<PenInput>, kernel: Kernel, n: int)
    requires
        kernel_matches(pen, kernel),
        none_strands(pen, samples, kernel),
        0 <= n <= samples.len(),
    ensures
        kernel_matches(
            pen_after_all(pen, samples, n),
            kernel_after_all(pen, samples, kernel, n),
        ),
    decreases n,
{
    if n > 0 {
        lemma_matched_after_all(pen, samples, kernel, n - 1);
        kernel_stays_matched(
            pen_after_all(pen, samples, n - 1),
            samples[n - 1],
            kernel_after_all(pen, samples, kernel, n - 1),
        );
    }
}

/// After a leave nothing is pressed, neither the tip nor a button, no tool is near, and the pressure
/// is zero, whatever samples came before, as long as none of them strands what was pressed.
pub proof fn leaving_puts_the_pen_to_rest(pen: Pen, samples: Seq<PenInput>, kernel: Kernel)
    requires
        kernel_matches(pen, kernel),
        none_strands(pen, samples, kernel),
        samples.len() > 0,
        samples.last().action == PEN_HOVER_EXIT || samples.last().action == PEN_CANCEL,
    ensures
        is_at_rest(kernel_after_all(pen, samples, kernel, samples.len() as int)),
{
    lemma_matched_after_all(pen, samples, kernel, samples.len() as int);
}

/// Nothing is stranded where every sample but a position carries the tool of the sample before it.
pub proof fn keeping_the_tool_strands_nothing(samples: Seq<PenInput>, kernel: Kernel)
    requires
        forall|i: int|
            0 < i < samples.len() ==> is_position((#[trigger] samples[i]).action) || tool_key(
                samples[i].tool,
            ) == tool_key(samples[i - 1].tool),
    ensures
        none_strands(unseen_pen(), samples, kernel),
{
    let pen = unseen_pen();
    assert forall|i: int| 0 <= i < samples.len() implies !strands(
        #[trigger] pen_after_all(pen, samples, i),
        samples[i],
        kernel_after_all(pen, samples, kernel, i),
    ) by {
        if i > 0 {
            assert(pen_after_all(pen, samples, i).tool == tool_key(samples[i - 1].tool));
        }
    }
}

/// Whether a sample lies on the axes that the tablet announces.
pub open spec fn on_axes(e: PenInput) -> bool {
    &&& 0 <= e.x <= AXIS_MAX
    &&& 0 <= e.y <= AXIS_MAX
    &&& 0 <= e.pressure <= PRESSURE_MAX
    &&& 0 <= e.distance <= DISTANCE_MAX
    &&& -TILT_MAX <= e.tilt_x <= TILT_MAX
    &&& -TILT_MAX <= e.tilt_y <= TILT_MAX
}

/// Whether an event stays on the axis it belongs to.
pub open spec fn stays_on(ev: InputEvent, axes: Seq<Axis>) -> bool {
    ev.type_ == EV_ABS ==> exists|i: int|
        0 <= i < axes.len() && (#[trigger] axes[i]).code == ev.code && axes[i].min <= ev.value
            <= axes[i].max
}

/// Every absolute value sent is on an axis that the tablet announces and inside its range.
pub proof fn values_stay_on_their_axes(pen: Pen, e: PenInput, res_x: i32, res_y: i32)
    requires
        on_axes(e),
    ensures
        forall|i: int|
            0 <= i < pen_events(pen, e).len() ==> stays_on(
                #[trigger] pen_events(pen, e)[i],
                pen_axes(res_x, res_y),
            ),
{
    let axes = pen_axes(res_x, res_y);
    assert(axes[0].code == ABS_X && axes[1].code == ABS_Y && axes[2].code == ABS_PRESSURE
        && axes[3].code == ABS_DISTANCE && axes[4].code == ABS_TILT_X && axes[5].code
        == ABS_TILT_Y);
}

/// Every report that is begun is also ended.
pub proof fn reports_are_ended(pen: Pen, e: PenInput)
    ensures
        pen_events(pen, e).len() > 0 ==> pen_events(pen, e).last() == syn(),
{
}

/// Whether an action reports where the tool is: it hovers, comes down, moves or goes up.
pub open spec fn reports_a_position(action: u8) -> bool {
    ||| action == PEN_HOVER_ENTER
    ||| action == PEN_HOVER_MOVE
    ||| action == PEN_DOWN
    ||| action == PEN_MOVE
    ||| action == PEN_UP
}

/// What a position report leaves of one axis.
proof fn lemma_position_axis(before: int, pen: Pen, e: PenInput, code: u16)
    requires
        reports_a_position(e.action),
    ensures
        axis_value(before, pen_events(pen, e), code) == axis_value(
            axis_value(before, placing(e), code),
            pressing(e),
            code,
        ),
{
    reveal_with_fuel(crate::uinput::axis_after, 3);
    let p0 = tool_change(pen, e);
    let p1 = entering(pen, e);
    let p2 = placing(e);
    let p3 = pressing(e);
    let p4 = tip_change(e);
    let p5 = button_change(pen, e);
    let last = seq![syn()];
    axis_value_in_a_row(before, p0, position_report(pen, e), code);
    axis_value_in_a_row(before, p1, p2, code);
    axis_value_in_a_row(before, p1 + p2, p3, code);
    axis_value_in_a_row(before, p1 + p2 + p3, p4, code);
    axis_value_in_a_row(before, p1 + p2 + p3 + p4, p5, code);
    axis_value_in_a_row(before, p1 + p2 + p3 + p4 + p5, last, code);
    assert(axis_value(before, p0, code) == before);
    assert(axis_value(before, p1, code) == before);
}

/// The pen is where the tablet says: after every sample of a position, the kernel has its place and
/// its tilt, whatever the action and whatever was remembered.
pub proof fn the_pen_is_where_the_tablet_says(
    pen: Pen,
    e: PenInput,
    x: int,
    y: int,
    tilt_x: int,
    tilt_y: int,
)
    requires
        reports_a_position(e.action),
    ensures
        axis_value(x, pen_events(pen, e), ABS_X) == e.x,
        axis_value(y, pen_events(pen, e), ABS_Y) == e.y,
        axis_value(tilt_x, pen_events(pen, e), ABS_TILT_X) == e.tilt_x,
        axis_value(tilt_y, pen_events(pen, e), ABS_TILT_Y) == e.tilt_y,
{
    reveal_with_fuel(crate::uinput::axis_after, 5);
    lemma_position_axis(x, pen, e, ABS_X);
    lemma_position_axis(y, pen, e, ABS_Y);
    lemma_position_axis(tilt_x, pen, e, ABS_TILT_X);
    lemma_position_axis(tilt_y, pen, e, ABS_TILT_Y);
}

/// The pen presses as hard as the tablet says, but at least a little, while it comes down or moves,
/// and is then at no distance; while it hovers or goes up it does not press, and is at the distance
/// that the tablet says, but at least a little.
pub proof fn the_pen_presses_as_the_tablet_says(
    pen: Pen,
    e: PenInput,
    pressure: int,
    distance: int,
)
    requires
        reports_a_position(e.action),
    ensures
        ({
            let now_pressing = axis_value(pressure, pen_events(pen, e), ABS_PRESSURE);
            let now_away = axis_value(distance, pen_events(pen, e), ABS_DISTANCE);
            if e.action == PEN_DOWN || e.action == PEN_MOVE {
                &&& now_away == 0
                &&& e.pressure >= 1 ==> now_pressing == e.pressure
                &&& e.pressure < 1 ==> now_pressing == 1
            } else {
                &&& now_pressing == 0
                &&& e.distance >= 1 ==> now_away == e.distance
                &&& e.distance < 1 ==> now_away == 1
            }
        }),
{
    reveal_with_fuel(crate::uinput::axis_after, 5);
    lemma_position_axis(pressure, pen, e, ABS_PRESSURE);
    lemma_position_axis(distance, pen, e, ABS_DISTANCE);
}

/// After every sample of a position, the kernel holds down the tool that the tablet names and not the
/// other, the barrel buttons that it reports and no others; the tip comes down and goes up with the
/// pen and stays as it is otherwise.
pub proof fn the_keys_are_what_the_tablet_says(
    pen: Pen,
    e: PenInput,
    keys: spec_fn(u16) -> bool,
)
    requires
        keys_match(pen, keys),
        reports_a_position(e.action),
    ensures
        ({
            let held = keys_after(pen, e, keys);
            &&& held(BTN_TOOL_RUBBER) == (e.tool == TOOL_ERASER)
            &&& held(BTN_TOOL_PEN) == (e.tool != TOOL_ERASER)
            &&& held(BTN_STYLUS) == (e.buttons % 2 == 1)
            &&& held(BTN_STYLUS2) == (e.buttons / 2 % 2 == 1)
            &&& held(BTN_TOUCH) == (if e.action == PEN_DOWN {
                true
            } else if e.action == PEN_UP {
                false
            } else {
                keys(BTN_TOUCH)
            })
        }),
{
    let b = e.buttons;
    assert(b & BTN_PRIMARY != 0 <==> b % 2 == 1) by (bit_vector);
    assert(b & BTN_SECONDARY != 0 <==> b / 2 % 2 == 1) by (bit_vector);
    keys_stay_matched(pen, e, keys);
    let before = keys(BTN_TOUCH);
    lemma_sample_key(before, pen, e, BTN_TOUCH);
    lemma_position_key(before, pen, e, BTN_TOUCH);
    lemma_position_key(false, pen, e, BTN_TOUCH);
}

/// A sample that is neither a position nor a leave sends nothing, unless it names another tool than
/// the one that is near; and nothing is sent for a leave when no tool is near.
pub proof fn idle_samples_send_nothing(pen: Pen, e: PenInput)
    requires
        !reports_a_position(e.action),
        e.action != PEN_HOVER_EXIT && e.action != PEN_CANCEL || !pen.in_proximity,
        pen.in_proximity ==> pen.tool == (if e.tool == TOOL_ERASER {
            BTN_TOOL_RUBBER
        } else {
            BTN_TOOL_PEN
        }),
    ensures
        pen_events(pen, e).len() == 0,
{
}

/// The kernel was told beforehand of everything that the pen sends.
pub proof fn the_pen_sends_what_was_announced(pen: Pen, e: PenInput, res_x: i32, res_y: i32, i: int)
    requires
        pen.tool == BTN_TOOL_PEN || pen.tool == BTN_TOOL_RUBBER,
        0 <= i < pen_events(pen, e).len(),
    ensures
        may_send(pen_steps(res_x, res_y), pen_events(pen, e)[i]),
{
    let steps = pen_steps(res_x, res_y);
    let axes = pen_axes(res_x, res_y);
    assert(steps[0] == Step::Event(EV_KEY) && steps[1] == Step::Event(EV_ABS));
    assert(steps[2] == Step::Key(BTN_TOOL_PEN) && steps[3] == Step::Key(BTN_TOOL_RUBBER));
    assert(steps[4] == Step::Key(BTN_TOUCH) && steps[5] == Step::Key(BTN_STYLUS));
    assert(steps[6] == Step::Key(BTN_STYLUS2));
    assert(steps[8] == Step::Absolute(axes[0]) && steps[9] == Step::Absolute(axes[1]));
    assert(steps[10] == Step::Absolute(axes[2]) && steps[11] == Step::Absolute(axes[3]));
    assert(steps[12] == Step::Absolute(axes[4]) && steps[13] == Step::Absolute(axes[5]));
    assert(forall|k: int| 0 <= k < 14 ==> steps.contains(#[trigger] steps[k]));
}

/// The axes of the pen have the resolutions and ranges that the tablet's size and abilities ask for,
/// and no axis is there twice.
pub proof fn the_pens_axes(res_x: i32, res_y: i32, i: int)
    requires
        0 <= i < pen_axes(res_x, res_y).len(),
    ensures
        ({
            let a = pen_axes(res_x, res_y)[i];
            &&& a.code == ABS_X ==> (a.min, a.max, a.resolution) == (0i32, 65535i32, res_x)
            &&& a.code == ABS_Y ==> (a.min, a.max, a.resolution) == (0i32, 65535i32, res_y)
            &&& a.code == ABS_PRESSURE ==> (a.min, a.max) == (0i32, 4095i32)
            &&& a.code == ABS_DISTANCE ==> (a.min, a.max) == (0i32, 1023i32)
            &&& a.code == ABS_TILT_X || a.code == ABS_TILT_Y ==> -a.min == 90 && a.max == 90
            &&& a.code != ABS_X && a.code != ABS_Y ==> a.resolution == 0
            &&& forall|j: int|
                0 <= j < pen_axes(res_x, res_y).len() && j != i ==> (#[trigger] pen_axes(
                    res_x,
                    res_y,
                )[j]).code != a.code
        }),
{
}

} // verus!
