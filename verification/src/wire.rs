//! What a tablet writes is what the server reads: the layouts of the tablet's messages, and the proof
//! that reading undoes writing.
use crate::bytes::{
    u16_at, u16_le, u16_round_trip, u32_at, u32_le, u32_round_trip, u64_at, u64_le, u64_round_trip,
};
use crate::protocol::{
    batch_complete, hello_at, pen_batch, pen_event_at, touch_batch, touch_event_at, Hello, PenEvent,
    TouchEvent, AUDIO_NONE, FIRST_HELLO_LEN, FIRST_VERSION, HELLO_LEN, MODE_SCREEN, MSG_HELLO,
    PEN_EVENT_LEN, TOUCH_EVENT_LEN, VERSION,
};
use crate::session::{greeting, meaning, Devices, HelloError, Meaning};
use vstd::prelude::*;

verus! {

/// The greeting as a tablet writes it in the first version of the protocol.
pub open spec fn first_hello_layout(h: Hello) -> Seq<u8> {
    u16_le(h.version) + u16_le(h.width) + u16_le(h.height) + u16_le(h.refresh) + seq![
        h.codecs,
        h.preferred_codec,
    ] + u32_le(h.width_mm) + u32_le(h.height_mm)
}

/// The greeting as a tablet writes it in the server's version of the protocol.
pub open spec fn hello_layout(h: Hello) -> Seq<u8> {
    first_hello_layout(h) + seq![h.mode, h.audio]
}

/// A stylus sample as a tablet writes it. The last of the first twelve bytes is padding.
pub open spec fn pen_layout(e: PenEvent) -> Seq<u8> {
    u64_le(e.t_ns) + seq![e.action, e.tool, e.buttons, 0u8] + u32_le(e.x) + u32_le(e.y) + u32_le(
        e.pressure,
    ) + u32_le(e.tilt_x) + u32_le(e.tilt_y) + u32_le(e.distance)
}

/// A finger sample as a tablet writes it. The last two of the first twelve bytes are padding.
pub open spec fn touch_layout(e: TouchEvent) -> Seq<u8> {
    u64_le(e.t_ns) + seq![e.action, e.id, 0u8, 0u8] + u32_le(e.x) + u32_le(e.y) + u32_le(e.pressure)
        + u32_le(e.major)
}

/// Records in a row.
pub open spec fn in_a_row(records: Seq<Seq<u8>>) -> Seq<u8>
    decreases records.len(),
{
    if records.len() == 0 {
        Seq::empty()
    } else {
        in_a_row(records.drop_last()) + records.last()
    }
}

/// A batch of stylus samples as a tablet writes it: how many, then one after the other.
pub open spec fn pen_message(events: Seq<PenEvent>) -> Seq<u8> {
    u16_le(events.len() as u16) + in_a_row(events.map_values(|e: PenEvent| pen_layout(e)))
}

/// A batch of finger samples as a tablet writes it: how many, then one after the other.
pub open spec fn touch_message(events: Seq<TouchEvent>) -> Seq<u8> {
    u16_le(events.len() as u16) + in_a_row(events.map_values(|e: TouchEvent| touch_layout(e)))
}

/// A number that stands in a row of bytes is read there.
proof fn lemma_u32_inside(s: Seq<u8>, at: int, x: u32)
    requires
        0 <= at,
        at + 4 <= s.len(),
        s.subrange(at, at + 4) == u32_le(x),
    ensures
        u32_at(s, at) == x,
{
    let t = s.subrange(at, at + 4);
    u32_round_trip(x);
    assert(t[0] == s[at] && t[1] == s[at + 1] && t[2] == s[at + 2] && t[3] == s[at + 3]);
}

/// A number that stands in front is read there.
proof fn lemma_u64_in_front(s: Seq<u8>, x: u64)
    requires
        8 <= s.len(),
        s.take(8) == u64_le(x),
    ensures
        u64_at(s, 0) == x,
{
    let t = s.take(8);
    u64_round_trip(x);
    assert(u32_at(t, 0) == u32_at(s, 0));
    assert(u32_at(t, 4) == u32_at(s, 4));
}

/// A greeting is read as it was written.
pub proof fn hello_round_trip(h: Hello)
    ensures
        hello_layout(h).len() == HELLO_LEN,
        hello_at(hello_layout(h)) == h,
{
    let s = hello_layout(h);
    u16_round_trip(h.version);
    u16_round_trip(h.width);
    u16_round_trip(h.height);
    u16_round_trip(h.refresh);
    assert(s.subrange(10, 14) =~= u32_le(h.width_mm));
    assert(s.subrange(14, 18) =~= u32_le(h.height_mm));
    lemma_u32_inside(s, 10, h.width_mm);
    lemma_u32_inside(s, 14, h.height_mm);
}

/// A greeting in the first version is read as it was written, of a tablet that is used as a second
/// screen and leaves the sound at the computer.
pub proof fn first_hello_round_trip(h: Hello)
    ensures
        first_hello_layout(h).len() == FIRST_HELLO_LEN,
        hello_at(first_hello_layout(h)) == (Hello { mode: MODE_SCREEN, audio: AUDIO_NONE, ..h }),
{
    let s = first_hello_layout(h);
    u16_round_trip(h.version);
    u16_round_trip(h.width);
    u16_round_trip(h.height);
    u16_round_trip(h.refresh);
    assert(s.subrange(10, 14) =~= u32_le(h.width_mm));
    assert(s.subrange(14, 18) =~= u32_le(h.height_mm));
    lemma_u32_inside(s, 10, h.width_mm);
    lemma_u32_inside(s, 14, h.height_mm);
}

/// A greeting is accepted in either version of the protocol.
pub proof fn both_versions_are_accepted(h: Hello)
    ensures
        h.version == VERSION ==> greeting(MSG_HELLO, hello_layout(h)) == Ok::<Hello, HelloError>(h),
        h.version == FIRST_VERSION ==> greeting(MSG_HELLO, first_hello_layout(h)) == Ok::<
            Hello,
            HelloError,
        >(Hello { mode: MODE_SCREEN, audio: AUDIO_NONE, ..h }),
{
    hello_round_trip(h);
    first_hello_round_trip(h);
    assert(u16_at(hello_layout(h), 0) == hello_at(hello_layout(h)).version);
    assert(u16_at(first_hello_layout(h), 0) == hello_at(first_hello_layout(h)).version);
}

/// A stylus sample is read as it was written.
pub proof fn pen_event_round_trip(e: PenEvent)
    ensures
        pen_layout(e).len() == PEN_EVENT_LEN,
        pen_event_at(pen_layout(e), 0) == e,
{
    let s = pen_layout(e);
    assert(s.take(8) =~= u64_le(e.t_ns));
    lemma_u64_in_front(s, e.t_ns);
    assert(s.subrange(12, 16) =~= u32_le(e.x));
    assert(s.subrange(16, 20) =~= u32_le(e.y));
    assert(s.subrange(20, 24) =~= u32_le(e.pressure));
    assert(s.subrange(24, 28) =~= u32_le(e.tilt_x));
    assert(s.subrange(28, 32) =~= u32_le(e.tilt_y));
    assert(s.subrange(32, 36) =~= u32_le(e.distance));
    lemma_u32_inside(s, 12, e.x);
    lemma_u32_inside(s, 16, e.y);
    lemma_u32_inside(s, 20, e.pressure);
    lemma_u32_inside(s, 24, e.tilt_x);
    lemma_u32_inside(s, 28, e.tilt_y);
    lemma_u32_inside(s, 32, e.distance);
}

/// A finger sample is read as it was written.
pub proof fn touch_event_round_trip(e: TouchEvent)
    ensures
        touch_layout(e).len() == TOUCH_EVENT_LEN,
        touch_event_at(touch_layout(e), 0) == e,
{
    let s = touch_layout(e);
    assert(s.take(8) =~= u64_le(e.t_ns));
    lemma_u64_in_front(s, e.t_ns);
    assert(s.subrange(12, 16) =~= u32_le(e.x));
    assert(s.subrange(16, 20) =~= u32_le(e.y));
    assert(s.subrange(20, 24) =~= u32_le(e.pressure));
    assert(s.subrange(24, 28) =~= u32_le(e.major));
    lemma_u32_inside(s, 12, e.x);
    lemma_u32_inside(s, 16, e.y);
    lemma_u32_inside(s, 20, e.pressure);
    lemma_u32_inside(s, 24, e.major);
}

/// Records of the same length stand at the multiples of it.
proof fn lemma_record(records: Seq<Seq<u8>>, each: int, i: int)
    requires
        each >= 0,
        forall|k: int| 0 <= k < records.len() ==> (#[trigger] records[k]).len() == each,
        0 <= i < records.len(),
    ensures
        in_a_row(records).len() == each * records.len(),
        0 <= each * i,
        each * i + each <= in_a_row(records).len(),
        in_a_row(records).subrange(each * i, each * i + each) == records[i],
    decreases records.len(),
{
    let n = records.len() as int;
    let front = records.drop_last();
    let row = in_a_row(records);
    assert(each * (n - 1) + each == each * n) by (nonlinear_arith);
    assert(0 <= each * i) by (nonlinear_arith)
        requires
            each >= 0,
            i >= 0,
    ;
    if n == 1 {
        assert(in_a_row(front).len() == 0);
    } else {
        lemma_record(front, each, if i < n - 1 {
            i
        } else {
            0
        });
    }
    assert(in_a_row(front).len() == each * (n - 1));
    if i == n - 1 {
        assert(row.subrange(each * i, each * i + each) =~= records[i]);
    } else {
        assert(each * i + each <= in_a_row(front).len());
        assert(row.subrange(each * i, each * i + each) =~= in_a_row(front).subrange(
            each * i,
            each * i + each,
        ));
    }
}

/// A sample is read from its own bytes alone.
proof fn lemma_pen_event_local(p: Seq<u8>, at: int)
    requires
        0 <= at,
        at + PEN_EVENT_LEN <= p.len(),
    ensures
        pen_event_at(p, at) == pen_event_at(p.subrange(at, at + PEN_EVENT_LEN), 0),
{
    let s = p.subrange(at, at + PEN_EVENT_LEN);
    assert(forall|k: int| 0 <= k < PEN_EVENT_LEN ==> s[k] == p[at + k]);
    assert(u64_at(p, at) == u64_at(s, 0));
}

/// A sample is read from its own bytes alone.
proof fn lemma_touch_event_local(p: Seq<u8>, at: int)
    requires
        0 <= at,
        at + TOUCH_EVENT_LEN <= p.len(),
    ensures
        touch_event_at(p, at) == touch_event_at(p.subrange(at, at + TOUCH_EVENT_LEN), 0),
{
    let s = p.subrange(at, at + TOUCH_EVENT_LEN);
    assert(forall|k: int| 0 <= k < TOUCH_EVENT_LEN ==> s[k] == p[at + k]);
    assert(u64_at(p, at) == u64_at(s, 0));
}

/// A batch of stylus samples is read as it was written.
pub proof fn pen_batch_round_trip(events: Seq<PenEvent>)
    requires
        events.len() <= 0xffff,
    ensures
        batch_complete(pen_message(events), PEN_EVENT_LEN as int),
        pen_batch(pen_message(events)) == events,
{
    let n = events.len() as int;
    let each = PEN_EVENT_LEN as int;
    let records = events.map_values(|e: PenEvent| pen_layout(e));
    let head = u16_le(events.len() as u16);
    let body = in_a_row(records);
    let p = pen_message(events);
    u16_round_trip(events.len() as u16);
    assert(u16_at(p, 0) == u16_at(head, 0));
    assert forall|k: int| 0 <= k < records.len() implies (#[trigger] records[k]).len() == each by {
        pen_event_round_trip(events[k]);
    }
    if n > 0 {
        lemma_record(records, each, 0);
    }
    assert(body.len() == each * n);
    assert forall|i: int| 0 <= i < n implies pen_batch(p)[i] == events[i] by {
        lemma_record(records, each, i);
        lemma_pen_event_local(p, 2 + each * i);
        assert(p.subrange(2 + each * i, 2 + each * i + each) =~= body.subrange(
            each * i,
            each * i + each,
        ));
        pen_event_round_trip(events[i]);
    }
    assert(pen_batch(p) =~= events);
}

/// A batch of finger samples is read as it was written.
pub proof fn touch_batch_round_trip(events: Seq<TouchEvent>)
    requires
        events.len() <= 0xffff,
    ensures
        batch_complete(touch_message(events), TOUCH_EVENT_LEN as int),
        touch_batch(touch_message(events)) == events,
{
    let n = events.len() as int;
    let each = TOUCH_EVENT_LEN as int;
    let records = events.map_values(|e: TouchEvent| touch_layout(e));
    let head = u16_le(events.len() as u16);
    let body = in_a_row(records);
    let p = touch_message(events);
    u16_round_trip(events.len() as u16);
    assert(u16_at(p, 0) == u16_at(head, 0));
    assert forall|k: int| 0 <= k < records.len() implies (#[trigger] records[k]).len() == each by {
        touch_event_round_trip(events[k]);
    }
    if n > 0 {
        lemma_record(records, each, 0);
    }
    assert(body.len() == each * n);
    assert forall|i: int| 0 <= i < n implies touch_batch(p)[i] == events[i] by {
        lemma_record(records, each, i);
        lemma_touch_event_local(p, 2 + each * i);
        assert(p.subrange(2 + each * i, 2 + each * i + each) =~= body.subrange(
            each * i,
            each * i + each,
        ));
        touch_event_round_trip(events[i]);
    }
    assert(touch_batch(p) =~= events);
}

/// A batch of stylus samples that the tablet sends reaches the second screen: every sample, as it was
/// written, in the order in which it was written. Without a second screen it is passed over.
pub proof fn pen_input_arrives(events: Seq<PenEvent>, devices: Devices)
    requires
        events.len() <= 0xffff,
    ensures
        meaning(0x02, pen_message(events), devices) == Some(
            if devices.screen {
                Meaning::Pen { samples: events }
            } else {
                Meaning::Ignore
            },
        ),
{
    pen_batch_round_trip(events);
}

/// A batch of finger samples that the tablet sends reaches the touchpad where there is one, else the
/// second screen where it takes fingers: every sample, as it was written, in the order in which it
/// was written.
pub proof fn touch_input_arrives(events: Seq<TouchEvent>, devices: Devices)
    requires
        events.len() <= 0xffff,
    ensures
        meaning(0x03, touch_message(events), devices) == Some(
            if devices.touchpad {
                Meaning::Pad { events }
            } else if devices.screen && devices.touch {
                Meaning::Touch { events }
            } else {
                Meaning::Ignore
            },
        ),
{
    touch_batch_round_trip(events);
}

/// A batch that was cut short anywhere is refused, and not read in part.
pub proof fn cut_batches_are_refused(
    strokes: Seq<PenEvent>,
    touches: Seq<TouchEvent>,
    devices: Devices,
    n: int,
)
    requires
        strokes.len() <= 0xffff,
        touches.len() <= 0xffff,
        0 <= n,
    ensures
        devices.screen && n < pen_message(strokes).len() ==> meaning(
            0x02,
            pen_message(strokes).take(n),
            devices,
        ) is None,
        n < touch_message(touches).len() ==> meaning(
            0x03,
            touch_message(touches).take(n),
            devices,
        ) is None,
{
    if n < pen_message(strokes).len() {
        let p = pen_message(strokes);
        let records = strokes.map_values(|e: PenEvent| pen_layout(e));
        u16_round_trip(strokes.len() as u16);
        assert(u16_at(p, 0) == u16_at(u16_le(strokes.len() as u16), 0));
        assert forall|k: int| 0 <= k < records.len() implies (#[trigger] records[k]).len()
            == PEN_EVENT_LEN by {
            pen_event_round_trip(strokes[k]);
        }
        if strokes.len() > 0 {
            lemma_record(records, PEN_EVENT_LEN as int, 0);
        }
        if n >= 2 {
            assert(u16_at(p.take(n), 0) == u16_at(p, 0));
        }
    }
    if n < touch_message(touches).len() {
        let p = touch_message(touches);
        let records = touches.map_values(|e: TouchEvent| touch_layout(e));
        u16_round_trip(touches.len() as u16);
        assert(u16_at(p, 0) == u16_at(u16_le(touches.len() as u16), 0));
        assert forall|k: int| 0 <= k < records.len() implies (#[trigger] records[k]).len()
            == TOUCH_EVENT_LEN by {
            touch_event_round_trip(touches[k]);
        }
        if touches.len() > 0 {
            lemma_record(records, TOUCH_EVENT_LEN as int, 0);
        }
        if n >= 2 {
            assert(u16_at(p.take(n), 0) == u16_at(p, 0));
        }
    }
}

/// What stands behind a batch changes nothing of it.
pub proof fn what_follows_a_batch_is_passed_over(
    ty: u8,
    payload: Seq<u8>,
    more: Seq<u8>,
    devices: Devices,
)
    requires
        ty == 0x02 || ty == 0x03,
        meaning(ty, payload, devices) is Some,
    ensures
        meaning(ty, payload + more, devices) == meaning(ty, payload, devices),
{
    let p = payload + more;
    if payload.len() >= 2 {
        assert(u16_at(p, 0) == u16_at(payload, 0));
    }
    if ty == 0x02 && devices.screen {
        assert forall|i: int| 0 <= i < pen_batch(payload).len() implies pen_batch(p)[i]
            == pen_batch(payload)[i] by {
            let at = 2 + PEN_EVENT_LEN * i;
            lemma_pen_event_local(p, at);
            lemma_pen_event_local(payload, at);
            assert(p.subrange(at, at + PEN_EVENT_LEN) =~= payload.subrange(at, at + PEN_EVENT_LEN));
        }
        assert(pen_batch(p) =~= pen_batch(payload));
    }
    if ty == 0x03 {
        assert forall|i: int| 0 <= i < touch_batch(payload).len() implies touch_batch(p)[i]
            == touch_batch(payload)[i] by {
            let at = 2 + TOUCH_EVENT_LEN * i;
            lemma_touch_event_local(p, at);
            lemma_touch_event_local(payload, at);
            assert(p.subrange(at, at + TOUCH_EVENT_LEN) =~= payload.subrange(
                at,
                at + TOUCH_EVENT_LEN,
            ));
        }
        assert(touch_batch(p) =~= touch_batch(payload));
    }
}

/// A ping is answered with a pong of the same contents; a request for a keyframe counts where there
/// is a second screen; and every other message is reported with its type and its length.
pub proof fn other_messages_have_their_meaning(ty: u8, payload: Seq<u8>, devices: Devices)
    requires
        ty != 0x02,
        ty != 0x03,
        payload.len() < 0x1_0000_0000,
    ensures
        ty == 0x04 ==> (meaning(ty, payload, devices) matches Some(Meaning::Reply { bytes })
            && bytes[0] == 0x84 && u32_at(bytes, 1) == payload.len() && bytes.skip(5) == payload),
        ty == 0x05 ==> meaning(ty, payload, devices) == Some(
            if devices.screen {
                Meaning::Keyframe
            } else {
                Meaning::Ignore
            },
        ),
        ty != 0x04 && ty != 0x05 ==> meaning(ty, payload, devices) == Some(
            Meaning::Unknown { ty, len: payload.len() },
        ),
{
    crate::protocol::frames_say_what_they_hold(0x84, payload);
}

/// A first message that is no greeting is refused: by its type where that is another one, and by the
/// version that it names where that is none of the two, or where it is too short for its version.
pub proof fn other_greetings_are_refused(ty: u8, h: Hello, n: int)
    requires
        ty != MSG_HELLO,
        0 <= n,
    ensures
        greeting(ty, hello_layout(h)) == Err::<Hello, HelloError>(HelloError::WrongType(ty)),
        h.version != 1 && h.version != 2 ==> greeting(MSG_HELLO, hello_layout(h)) == Err::<
            Hello,
            HelloError,
        >(HelloError::WrongVersion(h.version)),
        h.version == 2 && 2 <= n < 20 ==> greeting(MSG_HELLO, hello_layout(h).take(n)) == Err::<
            Hello,
            HelloError,
        >(HelloError::Truncated),
        h.version == 1 && 2 <= n < 18 ==> greeting(MSG_HELLO, first_hello_layout(h).take(n))
            == Err::<Hello, HelloError>(HelloError::Truncated),
        n < 2 ==> greeting(MSG_HELLO, hello_layout(h).take(n)) == Err::<Hello, HelloError>(
            HelloError::WrongVersion(0),
        ),
{
    hello_round_trip(h);
    first_hello_round_trip(h);
    assert(u16_at(hello_layout(h), 0) == hello_at(hello_layout(h)).version);
    assert(u16_at(first_hello_layout(h), 0) == hello_at(first_hello_layout(h)).version);
    if 2 <= n < 20 {
        assert(u16_at(hello_layout(h).take(n), 0) == u16_at(hello_layout(h), 0));
    }
    if 2 <= n < 18 {
        assert(u16_at(first_hello_layout(h).take(n), 0) == u16_at(first_hello_layout(h), 0));
    }
}

} // verus!
