//! The kernel's virtual input interface: event codes, the bytes of events and setup
//! structures, and the calls that create a device.
use vstd::prelude::*;

use crate::bytes::{
    i32_at, i32_le, i32_round_trip, push_bytes, push_i32, push_u16, push_u32, u16_at, u16_le,
    u16_round_trip, u32_at, u32_le, u32_round_trip,
};
use crate::text::{occurs_at, starts_with};

verus! {

// <linux/input-event-codes.h>
pub const EV_SYN: u16 = 0x00;
pub const EV_KEY: u16 = 0x01;
pub const EV_REL: u16 = 0x02;
pub const EV_ABS: u16 = 0x03;
pub const SYN_REPORT: u16 = 0;

pub const REL_X: u16 = 0x00;
pub const REL_Y: u16 = 0x01;
pub const REL_HWHEEL: u16 = 0x06;
pub const REL_WHEEL: u16 = 0x08;
pub const REL_WHEEL_HI_RES: u16 = 0x0b;
pub const REL_HWHEEL_HI_RES: u16 = 0x0c;

pub const BTN_LEFT: u16 = 0x110;
pub const BTN_RIGHT: u16 = 0x111;
pub const BTN_MIDDLE: u16 = 0x112;
pub const BTN_TOOL_PEN: u16 = 0x140;
pub const BTN_TOOL_RUBBER: u16 = 0x141;
pub const BTN_TOUCH: u16 = 0x14a;
pub const BTN_STYLUS: u16 = 0x14b;
pub const BTN_STYLUS2: u16 = 0x14c;

pub const ABS_X: u16 = 0x00;
pub const ABS_Y: u16 = 0x01;
pub const ABS_PRESSURE: u16 = 0x18;
pub const ABS_DISTANCE: u16 = 0x19;
pub const ABS_TILT_X: u16 = 0x1a;
pub const ABS_TILT_Y: u16 = 0x1b;
pub const ABS_MT_SLOT: u16 = 0x2f;
pub const ABS_MT_TOUCH_MAJOR: u16 = 0x30;
pub const ABS_MT_POSITION_X: u16 = 0x35;
pub const ABS_MT_POSITION_Y: u16 = 0x36;
pub const ABS_MT_TRACKING_ID: u16 = 0x39;
pub const ABS_MT_PRESSURE: u16 = 0x3a;

pub const INPUT_PROP_DIRECT: u16 = 0x01;
pub const BUS_VIRTUAL: u16 = 0x06;
pub const VENDOR: u16 = 0x7ab5;

// <linux/uinput.h> requests (x86_64/aarch64 encoding)
pub const UI_DEV_CREATE: u64 = 0x5501;
pub const UI_DEV_DESTROY: u64 = 0x5502;
pub const UI_DEV_SETUP: u64 = 0x405c_5503;
pub const UI_ABS_SETUP: u64 = 0x401c_5504;
pub const UI_SET_EVBIT: u64 = 0x4004_5564;
pub const UI_SET_KEYBIT: u64 = 0x4004_5565;
pub const UI_SET_RELBIT: u64 = 0x4004_5566;
pub const UI_SET_ABSBIT: u64 = 0x4004_5567;
pub const UI_SET_PROPBIT: u64 = 0x4004_556e;
pub const UI_GET_SYSNAME_64: u64 = 0x8040_552c;

pub const AXIS_MAX: i32 = 65535;
pub const PRESSURE_MAX: i32 = 4095;
pub const DISTANCE_MAX: i32 = 1023;
pub const TILT_MAX: i32 = 90;
pub const MT_SLOTS: usize = 10;

/// One event for the kernel; its time stamp is left to the kernel.
#[derive(Clone, Copy, Debug, PartialEq, Eq, Structural)]
pub struct InputEvent {
    pub type_: u16,
    pub code: u16,
    pub value: i32,
}

pub open spec fn key(code: u16, value: i32) -> InputEvent {
    InputEvent { type_: EV_KEY, code, value }
}

pub open spec fn abs(code: u16, value: i32) -> InputEvent {
    InputEvent { type_: EV_ABS, code, value }
}

pub open spec fn rel(code: u16, value: i32) -> InputEvent {
    InputEvent { type_: EV_REL, code, value }
}

/// The event that ends a report.
pub open spec fn syn() -> InputEvent {
    InputEvent { type_: EV_SYN, code: SYN_REPORT, value: 0 }
}

/// Queues one event.
pub fn emit(out: &mut Vec<InputEvent>, type_: u16, code: u16, value: i32)
    ensures
        final(out)@ == old(out)@.push((InputEvent { type_, code, value })),
{
    out.push(InputEvent { type_, code, value });
}

/// Ends the report.
pub fn sync(out: &mut Vec<InputEvent>)
    ensures
        final(out)@ == old(out)@.push(syn()),
{
    out.push(InputEvent { type_: EV_SYN, code: SYN_REPORT, value: 0 });
}

/// Whether a key is held after the first `n` events, if it was held `before` them or not.
pub open spec fn key_after(before: bool, events: Seq<InputEvent>, n: nat, code: u16) -> bool
    decreases n,
{
    if n == 0 {
        before
    } else {
        let e = events[n - 1];
        if e.type_ == EV_KEY && e.code == code {
            e.value != 0
        } else {
            key_after(before, events, (n - 1) as nat, code)
        }
    }
}

/// Whether a key is held after all of `events`.
pub open spec fn key_held(before: bool, events: Seq<InputEvent>, code: u16) -> bool {
    key_after(before, events, events.len(), code)
}

/// Only the first `n` events decide about the first `n` events.
proof fn lemma_key_after_prefix(before: bool, a: Seq<InputEvent>, b: Seq<InputEvent>, n: nat, code: u16)
    requires
        n <= a.len(),
    ensures
        key_after(before, a + b, n, code) == key_after(before, a, n, code),
    decreases n,
{
    if n > 0 {
        lemma_key_after_prefix(before, a, b, (n - 1) as nat, code);
    }
}

proof fn lemma_key_after_suffix(before: bool, a: Seq<InputEvent>, b: Seq<InputEvent>, n: nat, code: u16)
    requires
        n <= b.len(),
    ensures
        key_after(before, a + b, a.len() + n, code) == key_after(
            key_held(before, a, code),
            b,
            n,
            code,
        ),
    decreases n,
{
    if n == 0 {
        lemma_key_after_prefix(before, a, b, a.len(), code);
    } else {
        lemma_key_after_suffix(before, a, b, (n - 1) as nat, code);
    }
}

/// Replaying two reports in a row is replaying the second on what the first left.
pub proof fn key_held_in_a_row(before: bool, a: Seq<InputEvent>, b: Seq<InputEvent>, code: u16)
    ensures
        key_held(before, a + b, code) == key_held(key_held(before, a, code), b, code),
{
    lemma_key_after_suffix(before, a, b, b.len(), code);
}

/// The value of an absolute axis after the first `n` events, if it was `before` them.
pub open spec fn axis_after(before: int, events: Seq<InputEvent>, n: nat, code: u16) -> int
    decreases n,
{
    if n == 0 {
        before
    } else {
        let e = events[n - 1];
        if e.type_ == EV_ABS && e.code == code {
            e.value as int
        } else {
            axis_after(before, events, (n - 1) as nat, code)
        }
    }
}

/// The value of an absolute axis after all of `events`.
pub open spec fn axis_value(before: int, events: Seq<InputEvent>, code: u16) -> int {
    axis_after(before, events, events.len(), code)
}

/// The bytes of one event: a zero time stamp of two 64-bit words, then type, code and value.
pub open spec fn event_bytes(e: InputEvent) -> Seq<u8> {
    Seq::new(16, |i: int| 0u8) + u16_le(e.type_) + u16_le(e.code) + i32_le(e.value)
}

/// The bytes of several events in a row.
pub open spec fn events_bytes(events: Seq<InputEvent>) -> Seq<u8>
    decreases events.len(),
{
    if events.len() == 0 {
        seq![]
    } else {
        events_bytes(events.drop_last()) + event_bytes(events.last())
    }
}

/// Lays events out as the kernel reads them.
pub fn encode_events(events: &Vec<InputEvent>) -> (r: Vec<u8>)
    ensures
        r@ == events_bytes(events@),
{
    let mut r: Vec<u8> = Vec::new();
    let mut i: usize = 0;
    while i < events.len()
        invariant
            i <= events@.len(),
            r@ == events_bytes(events@.take(i as int)),
        decreases events@.len() - i,
    {
        let ghost before = r@;
        let e = events[i];
        push_zeros(&mut r, 16);
        push_u16(&mut r, e.type_);
        push_u16(&mut r, e.code);
        push_i32(&mut r, e.value);
        proof {
            assert(r@ =~= before + event_bytes(e));
            assert(events@.take(i + 1).drop_last() =~= events@.take(i as int));
        }
        i = i + 1;
    }
    assert(events@.take(i as int) =~= events@);
    r
}

/// Every event takes 24 bytes.
pub proof fn events_bytes_len(events: Seq<InputEvent>)
    ensures
        events_bytes(events).len() == 24 * events.len(),
    decreases events.len(),
{
    if events.len() > 0 {
        events_bytes_len(events.drop_last());
    }
}

fn push_zeros(v: &mut Vec<u8>, n: usize)
    ensures
        final(v)@ == old(v)@ + Seq::new(n as nat, |i: int| 0u8),
{
    let mut i: usize = 0;
    while i < n
        invariant
            i <= n,
            v@ == old(v)@ + Seq::new(i as nat, |k: int| 0u8),
        decreases n - i,
    {
        v.push(0);
        i = i + 1;
        assert(v@ =~= old(v)@ + Seq::new(i as nat, |k: int| 0u8));
    }
    assert(v@ =~= old(v)@ + Seq::new(n as nat, |i: int| 0u8));
}

/// The name field of a device: at most 79 bytes of the name, then zeros up to 80.
pub open spec fn name_field(name: Seq<u8>) -> Seq<u8> {
    Seq::new(80, |i: int| if i < name.len() && i < 79 { name[i] } else { 0u8 })
}

/// The setup structure of a device: bus, vendor, product, version, name, no force feedback.
pub open spec fn device_setup(name: Seq<u8>, product: u16) -> Seq<u8> {
    u16_le(BUS_VIRTUAL) + u16_le(VENDOR) + u16_le(product) + u16_le(1) + name_field(name) + u32_le(
        0,
    )
}

/// An absolute axis: its code, its range and its resolution in units per millimetre.
#[derive(Clone, Copy, Debug, PartialEq, Eq, Structural)]
pub struct Axis {
    pub code: u16,
    pub min: i32,
    pub max: i32,
    pub resolution: i32,
}

/// The setup structure of an axis: code, padding, initial value, range, fuzz, flat, resolution.
pub open spec fn axis_setup(a: Axis) -> Seq<u8> {
    u16_le(a.code) + u16_le(0) + i32_le(0) + i32_le(a.min) + i32_le(a.max) + i32_le(0) + i32_le(0)
        + i32_le(a.resolution)
}

fn device_setup_bytes(name: &[u8], product: u16) -> (v: Vec<u8>)
    ensures
        v@ == device_setup(name@, product),
{
    let mut v: Vec<u8> = Vec::new();
    push_u16(&mut v, BUS_VIRTUAL);
    push_u16(&mut v, VENDOR);
    push_u16(&mut v, product);
    push_u16(&mut v, 1);
    let ghost head = v@;
    let n: usize = if name.len() < 79 {
        name.len()
    } else {
        79
    };
    push_bytes(&mut v, vstd::slice::slice_subrange(name, 0, n));
    push_zeros(&mut v, 80 - n);
    proof {
        assert(head =~= u16_le(BUS_VIRTUAL) + u16_le(VENDOR) + u16_le(product) + u16_le(1));
        assert(v@ =~= head + name_field(name@));
    }
    push_u32(&mut v, 0);
    v
}

fn axis_setup_bytes(a: Axis) -> (v: Vec<u8>)
    ensures
        v@ == axis_setup(a),
{
    let mut v: Vec<u8> = Vec::new();
    push_u16(&mut v, a.code);
    push_u16(&mut v, 0);
    push_i32(&mut v, 0);
    push_i32(&mut v, a.min);
    push_i32(&mut v, a.max);
    push_i32(&mut v, 0);
    push_i32(&mut v, 0);
    push_i32(&mut v, a.resolution);
    assert(v@ =~= axis_setup(a));
    v
}

/// The size of the structure that a request announces to the kernel.
pub open spec fn announced_size(request: u64) -> int {
    request as int / 0x1_0000 % 0x4000
}

/// The structures of a device and of an axis are as large as their requests announce.
pub proof fn structures_fit_their_requests(name: Seq<u8>, product: u16, a: Axis)
    ensures
        device_setup(name, product).len() == announced_size(UI_DEV_SETUP),
        axis_setup(a).len() == announced_size(UI_ABS_SETUP),
{
}

/// One call on the device file.
#[derive(Debug)]
pub enum Ioctl {
    /// A request with a number.
    Value { request: u64, arg: u64 },
    /// A request with a structure.
    Data { request: u64, data: Vec<u8> },
}

/// What a call passes to the kernel.
#[verifier::ext_equal]
pub enum Call {
    Value { request: u64, arg: u64 },
    Data { request: u64, data: Seq<u8> },
}

impl View for Ioctl {
    type V = Call;

    open spec fn view(&self) -> Call {
        match self {
            Ioctl::Value { request, arg } => Call::Value { request: *request, arg: *arg },
            Ioctl::Data { request, data } => Call::Data { request: *request, data: data@ },
        }
    }
}

/// What the calls pass to the kernel, in order.
pub open spec fn calls(v: Seq<Ioctl>) -> Seq<Call> {
    v.map_values(|c: Ioctl| c@)
}

/// One step in making a device.
#[derive(Clone, Copy, Debug, PartialEq, Eq, Structural)]
pub enum Step {
    /// Allow a kind of event.
    Event(u16),
    /// Allow a key or button.
    Key(u16),
    /// Allow a relative axis.
    Relative(u16),
    /// Give the device a property.
    Property(u16),
    /// Add an absolute axis.
    Absolute(Axis),
}

/// The calls of one step; an axis takes two.
pub open spec fn step_calls(s: Step) -> Seq<Call> {
    match s {
        Step::Event(bit) => seq![Call::Value { request: UI_SET_EVBIT, arg: bit as u64 }],
        Step::Key(bit) => seq![Call::Value { request: UI_SET_KEYBIT, arg: bit as u64 }],
        Step::Relative(bit) => seq![Call::Value { request: UI_SET_RELBIT, arg: bit as u64 }],
        Step::Property(bit) => seq![Call::Value { request: UI_SET_PROPBIT, arg: bit as u64 }],
        Step::Absolute(a) => seq![
            Call::Value { request: UI_SET_ABSBIT, arg: a.code as u64 },
            Call::Data { request: UI_ABS_SETUP, data: axis_setup(a) },
        ],
    }
}

/// The calls of several steps in a row.
pub open spec fn steps_calls(steps: Seq<Step>) -> Seq<Call>
    decreases steps.len(),
{
    if steps.len() == 0 {
        seq![]
    } else {
        steps_calls(steps.drop_last()) + step_calls(steps.last())
    }
}

/// The calls that make a device: name it, take the steps, create it.
pub open spec fn creation(name: Seq<u8>, product: u16, steps: Seq<Step>) -> Seq<Call> {
    seq![Call::Data { request: UI_DEV_SETUP, data: device_setup(name, product) }] + steps_calls(
        steps,
    ) + seq![Call::Value { request: UI_DEV_CREATE, arg: 0 }]
}

/// Lists the calls that make a device.
pub fn creation_calls(name: &[u8], product: u16, steps: &Vec<Step>) -> (v: Vec<Ioctl>)
    ensures
        calls(v@) == creation(name@, product, steps@),
{
    let mut v: Vec<Ioctl> = Vec::new();
    v.push(Ioctl::Data { request: UI_DEV_SETUP, data: device_setup_bytes(name, product) });
    let ghost first = seq![Call::Data { request: UI_DEV_SETUP, data: device_setup(name@, product) }];
    assert(calls(v@) =~= first + steps_calls(steps@.take(0)));
    let mut i: usize = 0;
    while i < steps.len()
        invariant
            i <= steps@.len(),
            calls(v@) == first + steps_calls(steps@.take(i as int)),
        decreases steps@.len() - i,
    {
        let ghost before = calls(v@);
        let s = steps[i];
        match s {
            Step::Event(bit) => v.push(Ioctl::Value { request: UI_SET_EVBIT, arg: bit as u64 }),
            Step::Key(bit) => v.push(Ioctl::Value { request: UI_SET_KEYBIT, arg: bit as u64 }),
            Step::Relative(bit) => v.push(Ioctl::Value { request: UI_SET_RELBIT, arg: bit as u64 }),
            Step::Property(bit) => v.push(Ioctl::Value { request: UI_SET_PROPBIT, arg: bit as u64 }),
            Step::Absolute(a) => {
                v.push(Ioctl::Value { request: UI_SET_ABSBIT, arg: a.code as u64 });
                v.push(Ioctl::Data { request: UI_ABS_SETUP, data: axis_setup_bytes(a) });
            },
        }
        proof {
            assert(calls(v@) =~= before + step_calls(s));
            assert(steps@.take(i + 1).drop_last() =~= steps@.take(i as int));
            assert(before + step_calls(s) =~= first + (steps_calls(steps@.take(i as int))
                + step_calls(s)));
        }
        i = i + 1;
    }
    assert(steps@.take(i as int) =~= steps@);
    let ghost before = calls(v@);
    v.push(Ioctl::Value { request: UI_DEV_CREATE, arg: 0 });
    assert(calls(v@) =~= before + seq![Call::Value { request: UI_DEV_CREATE, arg: 0 }]);
    v
}

/// How many bytes of a buffer stand in front of its first zero.
pub fn c_string_len(buf: &[u8]) -> (n: usize)
    ensures
        n <= buf@.len(),
        forall|i: int| 0 <= i < n ==> buf@[i] != 0,
        n < buf@.len() ==> buf@[n as int] == 0,
{
    let mut n: usize = 0;
    while n < buf.len() && buf[n] != 0
        invariant
            n <= buf@.len(),
            forall|i: int| 0 <= i < n ==> buf@[i] != 0,
        decreases buf@.len() - n,
    {
        n = n + 1;
    }
    n
}

/// Whether a directory entry is an event node.
pub open spec fn is_event_node(name: Seq<char>) -> bool {
    occurs_at(name, "event"@, 0)
}

/// The first event node among the entries of a device's directory.
pub fn event_node(names: &Vec<String>) -> (r: Option<String>)
    ensures
        match r {
            Some(s) => exists|i: int|
                0 <= i < names@.len() && s@ == (#[trigger] names@[i])@ && is_event_node(s@) && (
                forall|k: int| 0 <= k < i ==> !is_event_node((#[trigger] names@[k])@)),
            None => forall|k: int| 0 <= k < names@.len() ==> !is_event_node((#[trigger] names@[k])@),
        },
{
    let mut i: usize = 0;
    while i < names.len()
        invariant
            i <= names@.len(),
            forall|k: int| 0 <= k < i ==> !is_event_node((#[trigger] names@[k])@),
        decreases names@.len() - i,
    {
        if starts_with(names[i].as_str(), "event") {
            return Some(names[i].clone());
        }
        i = i + 1;
    }
    None
}

/// The codes are those of the kernel's headers.
pub proof fn codes_are_the_kernels()
    ensures
        EV_SYN == 0 && EV_KEY == 1 && EV_REL == 2 && EV_ABS == 3 && SYN_REPORT == 0,
        REL_X == 0 && REL_Y == 1 && REL_HWHEEL == 6 && REL_WHEEL == 8,
        REL_WHEEL_HI_RES == 0xb && REL_HWHEEL_HI_RES == 0xc,
        BTN_LEFT == 0x110 && BTN_RIGHT == 0x111 && BTN_MIDDLE == 0x112,
        BTN_TOOL_PEN == 0x140 && BTN_TOOL_RUBBER == 0x141 && BTN_TOUCH == 0x14a,
        BTN_STYLUS == 0x14b && BTN_STYLUS2 == 0x14c,
        ABS_X == 0 && ABS_Y == 1 && ABS_PRESSURE == 0x18 && ABS_DISTANCE == 0x19,
        ABS_TILT_X == 0x1a && ABS_TILT_Y == 0x1b && ABS_MT_SLOT == 0x2f,
        ABS_MT_TOUCH_MAJOR == 0x30 && ABS_MT_POSITION_X == 0x35 && ABS_MT_POSITION_Y == 0x36,
        ABS_MT_TRACKING_ID == 0x39 && ABS_MT_PRESSURE == 0x3a && INPUT_PROP_DIRECT == 1,
        UI_DEV_CREATE == 0x5501 && UI_DEV_DESTROY == 0x5502 && UI_DEV_SETUP == 0x405c_5503,
        UI_ABS_SETUP == 0x401c_5504 && UI_SET_EVBIT == 0x4004_5564 && UI_SET_KEYBIT == 0x4004_5565,
        UI_SET_RELBIT == 0x4004_5566 && UI_SET_ABSBIT == 0x4004_5567,
        UI_SET_PROPBIT == 0x4004_556e && UI_GET_SYSNAME_64 == 0x8040_552c,
        AXIS_MAX == 65535 && PRESSURE_MAX == 4095 && DISTANCE_MAX == 1023 && TILT_MAX == 90,
        MT_SLOTS == 10 && BUS_VIRTUAL == 6 && VENDOR == 0x7ab5,
{
}

proof fn lemma_axis_prefix(before: int, a: Seq<InputEvent>, b: Seq<InputEvent>, n: nat, code: u16)
    requires
        n <= a.len(),
    ensures
        axis_after(before, a + b, n, code) == axis_after(before, a, n, code),
    decreases n,
{
    if n > 0 {
        lemma_axis_prefix(before, a, b, (n - 1) as nat, code);
    }
}

proof fn lemma_axis_suffix(before: int, a: Seq<InputEvent>, b: Seq<InputEvent>, n: nat, code: u16)
    requires
        n <= b.len(),
    ensures
        axis_after(before, a + b, a.len() + n, code) == axis_after(
            axis_value(before, a, code),
            b,
            n,
            code,
        ),
    decreases n,
{
    if n == 0 {
        lemma_axis_prefix(before, a, b, a.len(), code);
    } else {
        lemma_axis_suffix(before, a, b, (n - 1) as nat, code);
    }
}

/// Replaying two reports in a row is replaying the second on what the first left, for an axis too.
pub proof fn axis_value_in_a_row(before: int, a: Seq<InputEvent>, b: Seq<InputEvent>, code: u16)
    ensures
        axis_value(before, a + b, code) == axis_value(axis_value(before, a, code), b, code),
{
    lemma_axis_suffix(before, a, b, b.len(), code);
}

proof fn lemma_event_record(events: Seq<InputEvent>, i: int)
    requires
        0 <= i < events.len(),
    ensures
        events_bytes(events).len() == 24 * events.len(),
        events_bytes(events).subrange(24 * i, 24 * i + 24) == event_bytes(events[i]),
    decreases events.len(),
{
    events_bytes_len(events);
    let front = events.drop_last();
    events_bytes_len(front);
    let all = events_bytes(events);
    if i == events.len() - 1 {
        assert(all.subrange(24 * i, 24 * i + 24) =~= event_bytes(events[i]));
    } else {
        lemma_event_record(front, i);
        assert(all.subrange(24 * i, 24 * i + 24) =~= events_bytes(front).subrange(
            24 * i,
            24 * i + 24,
        ));
    }
}

/// The kernel reads the events that were written: each takes 24 bytes, of which the first 16 are zero
/// and the others hold its type, its code and its value.
pub proof fn events_read_back(events: Seq<InputEvent>, i: int)
    requires
        0 <= i < events.len(),
    ensures
        events_bytes(events).len() == 24 * events.len(),
        forall|k: int| 24 * i <= k < 24 * i + 16 ==> #[trigger] events_bytes(events)[k] == 0,
        u16_at(events_bytes(events), 24 * i + 16) == events[i].type_,
        u16_at(events_bytes(events), 24 * i + 18) == events[i].code,
        i32_at(events_bytes(events), 24 * i + 20) == events[i].value,
{
    lemma_event_record(events, i);
    let s = events_bytes(events);
    let e = events[i];
    let r = s.subrange(24 * i, 24 * i + 24);
    u16_round_trip(e.type_);
    u16_round_trip(e.code);
    i32_round_trip(e.value);
    assert forall|k: int| 24 * i <= k < 24 * i + 16 implies #[trigger] s[k] == 0 by {
        assert(r[k - 24 * i] == s[k]);
    }
    assert(forall|k: int| 0 <= k < 24 ==> r[k] == s[24 * i + k]);
    assert(r[16] == u16_le(e.type_)[0] && r[17] == u16_le(e.type_)[1]);
    assert(r[18] == u16_le(e.code)[0] && r[19] == u16_le(e.code)[1]);
    assert(r[20] == i32_le(e.value)[0] && r[21] == i32_le(e.value)[1]);
    assert(r[22] == i32_le(e.value)[2] && r[23] == i32_le(e.value)[3]);
}

/// The kernel reads who made the device and what it is called: as much of the name as fits, then
/// zeros.
pub proof fn device_setup_reads_back(name: Seq<u8>, product: u16)
    ensures
        ({
            let s = device_setup(name, product);
            &&& s.len() == 92
            &&& u16_at(s, 0) == 6
            &&& u16_at(s, 2) == 0x7ab5
            &&& u16_at(s, 4) == product
            &&& u16_at(s, 6) == 1
            &&& forall|k: int| 0 <= k < 80 ==> #[trigger] s[8 + k] == (if k < name.len() && k < 79 {
                name[k]
            } else {
                0
            })
            &&& u32_at(s, 88) == 0
        }),
{
    let s = device_setup(name, product);
    u16_round_trip(BUS_VIRTUAL);
    u16_round_trip(VENDOR);
    u16_round_trip(product);
    u16_round_trip(1);
    u32_round_trip(0);
    assert(s[4] == u16_le(product)[0] && s[5] == u16_le(product)[1]);
    assert(s[88] == u32_le(0)[0] && s[89] == u32_le(0)[1] && s[90] == u32_le(0)[2] && s[91]
        == u32_le(0)[3]);
    assert forall|k: int| 0 <= k < 80 implies #[trigger] s[8 + k] == (if k < name.len() && k < 79 {
        name[k]
    } else {
        0
    }) by {
        assert(s[8 + k] == name_field(name)[k]);
    }
}

/// The kernel reads the axis that was set up: its code, its range and its resolution, from the value
/// zero, without fuzz or flatness.
pub proof fn axis_setup_reads_back(a: Axis)
    ensures
        ({
            let s = axis_setup(a);
            &&& s.len() == 28
            &&& u16_at(s, 0) == a.code
            &&& i32_at(s, 4) == 0
            &&& i32_at(s, 8) == a.min
            &&& i32_at(s, 12) == a.max
            &&& i32_at(s, 16) == 0
            &&& i32_at(s, 20) == 0
            &&& i32_at(s, 24) == a.resolution
        }),
{
    let s = axis_setup(a);
    u16_round_trip(a.code);
    i32_round_trip(0);
    i32_round_trip(a.min);
    i32_round_trip(a.max);
    i32_round_trip(a.resolution);
    assert(s.subrange(4, 8) =~= i32_le(0));
    assert(s.subrange(8, 12) =~= i32_le(a.min));
    assert(s.subrange(12, 16) =~= i32_le(a.max));
    assert(s.subrange(16, 20) =~= i32_le(0));
    assert(s.subrange(20, 24) =~= i32_le(0));
    assert(s.subrange(24, 28) =~= i32_le(a.resolution));
    lemma_i32_inside(s, 4, 0);
    lemma_i32_inside(s, 8, a.min);
    lemma_i32_inside(s, 12, a.max);
    lemma_i32_inside(s, 16, 0);
    lemma_i32_inside(s, 20, 0);
    lemma_i32_inside(s, 24, a.resolution);
}

proof fn lemma_i32_inside(s: Seq<u8>, at: int, x: i32)
    requires
        0 <= at,
        at + 4 <= s.len(),
        s.subrange(at, at + 4) == i32_le(x),
    ensures
        i32_at(s, at) == x,
{
    let t = s.subrange(at, at + 4);
    i32_round_trip(x);
    assert(t[0] == s[at] && t[1] == s[at + 1] && t[2] == s[at + 2] && t[3] == s[at + 3]);
}

/// Whether a step makes a call.
pub open spec fn step_makes(s: Step, c: Call) -> bool {
    step_calls(s).contains(c)
}

proof fn lemma_steps_make(steps: Seq<Step>, c: Call)
    ensures
        steps_calls(steps).contains(c) <==> exists|i: int|
            0 <= i < steps.len() && #[trigger] step_makes(steps[i], c),
    decreases steps.len(),
{
    if steps.len() > 0 {
        let front = steps.drop_last();
        let a = steps_calls(front);
        let b = step_calls(steps.last());
        lemma_steps_make(front, c);
        assert((a + b).contains(c) <==> a.contains(c) || b.contains(c)) by {
            if a.contains(c) {
                let i = choose|i: int| 0 <= i < a.len() && a[i] == c;
                assert((a + b)[i] == c);
            }
            if b.contains(c) {
                let i = choose|i: int| 0 <= i < b.len() && b[i] == c;
                assert((a + b)[a.len() + i] == c);
            }
        }
        if exists|i: int| 0 <= i < front.len() && #[trigger] step_makes(front[i], c) {
            let i = choose|i: int| 0 <= i < front.len() && #[trigger] step_makes(front[i], c);
            assert(step_makes(steps[i], c));
        }
        if exists|i: int| 0 <= i < steps.len() && #[trigger] step_makes(steps[i], c) {
            let i = choose|i: int| 0 <= i < steps.len() && #[trigger] step_makes(steps[i], c);
            if i < front.len() {
                assert(step_makes(front[i], c));
            }
        }
        if b.contains(c) {
            assert(step_makes(steps[steps.len() - 1], c));
        }
    }
}

/// A device is named first and created last, and the kernel is told of exactly the kinds of events,
/// the keys, the relative axes and the properties that were asked for.
pub proof fn creation_announces_the_steps(
    name: Seq<u8>,
    product: u16,
    steps: Seq<Step>,
    bit: u16,
)
    ensures
        ({
            let c = creation(name, product, steps);
            &&& c.len() >= 2
            &&& c[0] == (Call::Data { request: UI_DEV_SETUP, data: device_setup(name, product) })
            &&& c.last() == (Call::Value { request: UI_DEV_CREATE, arg: 0 })
            &&& c.contains(Call::Value { request: UI_SET_EVBIT, arg: bit as u64 })
                <==> steps.contains(Step::Event(bit))
            &&& c.contains(Call::Value { request: UI_SET_KEYBIT, arg: bit as u64 })
                <==> steps.contains(Step::Key(bit))
            &&& c.contains(Call::Value { request: UI_SET_RELBIT, arg: bit as u64 })
                <==> steps.contains(Step::Relative(bit))
            &&& c.contains(Call::Value { request: UI_SET_PROPBIT, arg: bit as u64 })
                <==> steps.contains(Step::Property(bit))
        }),
{
    let c = creation(name, product, steps);
    let ev = Call::Value { request: UI_SET_EVBIT, arg: bit as u64 };
    let key = Call::Value { request: UI_SET_KEYBIT, arg: bit as u64 };
    let rel = Call::Value { request: UI_SET_RELBIT, arg: bit as u64 };
    let prop = Call::Value { request: UI_SET_PROPBIT, arg: bit as u64 };
    lemma_creation_holds(name, product, steps, ev);
    lemma_creation_holds(name, product, steps, key);
    lemma_creation_holds(name, product, steps, rel);
    lemma_creation_holds(name, product, steps, prop);
    assert forall|i: int| 0 <= i < steps.len() implies (step_makes(steps[i], ev) <==> steps[i]
        == Step::Event(bit)) && (step_makes(steps[i], key) <==> steps[i] == Step::Key(bit)) && (
    step_makes(steps[i], rel) <==> steps[i] == Step::Relative(bit)) && (step_makes(steps[i], prop)
        <==> steps[i] == Step::Property(bit)) by {
        let s = step_calls(steps[i]);
        assert(s.len() >= 1);
        assert(s.contains(s[0]));
    }
    lemma_made_by(steps, ev, Step::Event(bit));
    lemma_made_by(steps, key, Step::Key(bit));
    lemma_made_by(steps, rel, Step::Relative(bit));
    lemma_made_by(steps, prop, Step::Property(bit));
}

proof fn lemma_made_by(steps: Seq<Step>, c: Call, s: Step)
    requires
        forall|i: int| 0 <= i < steps.len() ==> (#[trigger] step_makes(steps[i], c) <==> steps[i] == s),
    ensures
        (exists|i: int| 0 <= i < steps.len() && #[trigger] step_makes(steps[i], c))
            <==> steps.contains(s),
{
    if steps.contains(s) {
        let i = choose|i: int| 0 <= i < steps.len() && steps[i] == s;
        assert(step_makes(steps[i], c));
    }
}

proof fn lemma_creation_holds(name: Seq<u8>, product: u16, steps: Seq<Step>, c: Call)
    requires
        c is Value,
        c != (Call::Value { request: UI_DEV_CREATE, arg: 0 }),
    ensures
        creation(name, product, steps).contains(c) <==> exists|i: int|
            0 <= i < steps.len() && #[trigger] step_makes(steps[i], c),
{
    lemma_steps_make(steps, c);
    let all = creation(name, product, steps);
    let mid = steps_calls(steps);
    if all.contains(c) {
        let i = choose|i: int| 0 <= i < all.len() && all[i] == c;
        assert(mid[i - 1] == c);
    }
    if mid.contains(c) {
        let i = choose|i: int| 0 <= i < mid.len() && mid[i] == c;
        assert(all[i + 1] == c);
    }
}

/// Every absolute axis that was asked for is allowed and set up.
pub proof fn creation_sets_up_the_axes(name: Seq<u8>, product: u16, steps: Seq<Step>, a: Axis)
    requires
        steps.contains(Step::Absolute(a)),
    ensures
        creation(name, product, steps).contains(
            Call::Value { request: UI_SET_ABSBIT, arg: a.code as u64 },
        ),
        creation(name, product, steps).contains(
            Call::Data { request: UI_ABS_SETUP, data: axis_setup(a) },
        ),
{
    let bit = Call::Value { request: UI_SET_ABSBIT, arg: a.code as u64 };
    let data = Call::Data { request: UI_ABS_SETUP, data: axis_setup(a) };
    let i = choose|i: int| 0 <= i < steps.len() && steps[i] == Step::Absolute(a);
    let s = step_calls(steps[i]);
    assert(s[0] == bit && s[1] == data);
    assert(step_makes(steps[i], bit));
    assert(step_makes(steps[i], data));
    lemma_steps_make(steps, bit);
    lemma_steps_make(steps, data);
    let mid = steps_calls(steps);
    let all = creation(name, product, steps);
    let j = choose|j: int| 0 <= j < mid.len() && mid[j] == bit;
    let k = choose|k: int| 0 <= k < mid.len() && mid[k] == data;
    assert(all[j + 1] == bit);
    assert(all[k + 1] == data);
}

/// Whether a device made by these steps may send this event: the kernel was told of its kind, and of
/// its key or axis.
pub open spec fn may_send(steps: Seq<Step>, e: InputEvent) -> bool {
    ||| e.type_ == EV_SYN
    ||| {
        &&& steps.contains(Step::Event(e.type_))
        &&& e.type_ == EV_KEY ==> steps.contains(Step::Key(e.code))
        &&& e.type_ == EV_REL ==> steps.contains(Step::Relative(e.code))
        &&& e.type_ == EV_ABS ==> exists|a: Axis|
            a.code == e.code && #[trigger] steps.contains(Step::Absolute(a))
    }
}

/// The sum of all values that a relative axis is told.
pub open spec fn relative_sum(events: Seq<InputEvent>, code: u16) -> int
    decreases events.len(),
{
    if events.len() == 0 {
        0
    } else {
        relative_sum(events.drop_last(), code) + (if events.last().type_ == EV_REL
            && events.last().code == code {
            events.last().value as int
        } else {
            0
        })
    }
}

/// An event node is an entry whose name starts with `event`.
pub proof fn event_nodes_are_named_so(rest: Seq<char>, name: Seq<char>)
    ensures
        is_event_node("event"@ + rest),
        is_event_node(name) <==> "event"@.is_prefix_of(name),
{
    assert(("event"@ + rest).subrange(0, "event"@.len() as int) =~= "event"@);
}

} // verus!
