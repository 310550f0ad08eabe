use tabscreen::pen::{Pen, PenInput};
use tabscreen::protocol::{
    TouchEvent, PEN_CANCEL, PEN_DOWN, PEN_HOVER_ENTER, PEN_HOVER_EXIT, PEN_MOVE, PEN_UP,
    TOOL_ERASER, TOOL_PEN, TOUCH_CANCEL, TOUCH_DOWN, TOUCH_MOVE, TOUCH_UP,
};
use tabscreen::touch::{Touch, TouchInput};
use tabscreen::touchpad::{
    click, emit_motion, emit_scroll, Effect, Reaction, Touchpad, Wheel,
};
use tabscreen::uinput::{
    c_string_len, creation_calls, encode_events, event_node, Axis, InputEvent, Ioctl, Step,
    ABS_DISTANCE, ABS_MT_POSITION_X, ABS_MT_POSITION_Y, ABS_MT_PRESSURE, ABS_MT_SLOT,
    ABS_MT_TOUCH_MAJOR, ABS_MT_TRACKING_ID, ABS_PRESSURE, ABS_TILT_X, ABS_TILT_Y, ABS_X, ABS_Y,
    BTN_LEFT, BTN_MIDDLE, BTN_RIGHT, BTN_STYLUS, BTN_STYLUS2, BTN_TOOL_PEN, BTN_TOOL_RUBBER,
    BTN_TOUCH, EV_ABS, EV_KEY, EV_REL, EV_SYN, REL_HWHEEL, REL_HWHEEL_HI_RES, REL_WHEEL,
    REL_WHEEL_HI_RES, REL_X, REL_Y, UI_ABS_SETUP, UI_DEV_CREATE, UI_DEV_SETUP, UI_SET_ABSBIT,
    UI_SET_EVBIT, UI_SET_KEYBIT, UI_SET_PROPBIT, UI_SET_RELBIT,
};

fn key(code: u16, value: i32) -> InputEvent {
    InputEvent { type_: EV_KEY, code, value }
}

fn abs(code: u16, value: i32) -> InputEvent {
    InputEvent { type_: EV_ABS, code, value }
}

fn rel(code: u16, value: i32) -> InputEvent {
    InputEvent { type_: EV_REL, code, value }
}

fn syn() -> InputEvent {
    InputEvent { type_: EV_SYN, code: 0, value: 0 }
}

fn pen(action: u8, tool: u8, buttons: u8) -> PenInput {
    PenInput {
        action,
        tool,
        buttons,
        x: 100,
        y: 200,
        pressure: 300,
        tilt_x: -5,
        tilt_y: 6,
        distance: 70,
    }
}

fn held(events: &[InputEvent]) -> Vec<u16> {
    let mut down: Vec<u16> = Vec::new();
    for e in events {
        if e.type_ == EV_KEY {
            down.retain(|c| *c != e.code);
            if e.value != 0 {
                down.push(e.code);
            }
        }
    }
    down
}

#[test]
fn events_have_the_kernels_layout() {
    let bytes = encode_events(&vec![abs(ABS_TILT_X, -2), syn()]);
    assert_eq!(bytes.len(), 48);
    assert_eq!(&bytes[..16], &[0u8; 16]);
    assert_eq!(&bytes[16..24], &[3, 0, 0x1a, 0, 0xfe, 0xff, 0xff, 0xff]);
    assert_eq!(&bytes[24..], &[0u8; 24]);
    assert!(encode_events(&vec![]).is_empty());
}

#[test]
fn devices_are_created_step_by_step() {
    let axis = Axis { code: ABS_TILT_X, min: -90, max: 90, resolution: 7 };
    let calls = creation_calls(
        b"Pad",
        0x0102,
        &vec![Step::Event(1), Step::Key(0x110), Step::Relative(8), Step::Property(1), Step::Absolute(axis)],
    );
    assert_eq!(calls.len(), 8);
    match &calls[0] {
        Ioctl::Data { request, data } => {
            assert_eq!(*request, UI_DEV_SETUP);
            assert_eq!(data.len(), 92);
            assert_eq!(&data[..11], &[6, 0, 0xb5, 0x7a, 2, 1, 1, 0, b'P', b'a', b'd']);
            assert!(data[11..].iter().all(|b| *b == 0));
        }
        _ => unreachable!(),
    }
    for (i, req, val) in [
        (1, UI_SET_EVBIT, 1u64),
        (2, UI_SET_KEYBIT, 0x110),
        (3, UI_SET_RELBIT, 8),
        (4, UI_SET_PROPBIT, 1),
        (5, UI_SET_ABSBIT, 0x1a),
        (7, UI_DEV_CREATE, 0),
    ] {
        assert!(matches!(&calls[i], Ioctl::Value { request, arg } if *request == req && *arg == val));
    }
    match &calls[6] {
        Ioctl::Data { request, data } => {
            assert_eq!(*request, UI_ABS_SETUP);
            assert_eq!(data.len(), 28);
            assert_eq!(&data[..8], &[0x1a, 0, 0, 0, 0, 0, 0, 0]);
            assert_eq!(&data[8..12], &(-90i32).to_le_bytes());
            assert_eq!(&data[12..16], &90i32.to_le_bytes());
            assert_eq!(&data[16..24], &[0u8; 8]);
            assert_eq!(&data[24..], &7i32.to_le_bytes());
        }
        _ => unreachable!(),
    }
}

#[test]
fn long_device_names_are_cut() {
    let calls = creation_calls(&[b'x'; 100], 1, &vec![]);
    match &calls[0] {
        Ioctl::Data { data, .. } => {
            assert!(data[8..87].iter().all(|b| *b == b'x'));
            assert_eq!(data[87], 0);
            assert_eq!(data.len(), 92);
        }
        _ => unreachable!(),
    }
}

#[test]
fn the_three_devices_announce_what_they_can_do() {
    // Setup and creation, two kinds of events, five keys, one property, six axes of two calls each.
    assert_eq!(Pen::setup(10, 20).len(), 2 + 2 + 5 + 1 + 12);
    // Two kinds of events, one key, one property, eight axes.
    assert_eq!(Touch::setup(10, 20).len(), 2 + 2 + 1 + 1 + 16);
    // Two kinds of events, three buttons, six relative axes.
    assert_eq!(Touchpad::setup().len(), 2 + 2 + 3 + 6);
    match &Touch::setup(10, 20)[0] {
        Ioctl::Data { data, .. } => {
            assert_eq!(&data[4..6], &[2, 0]);
            assert_eq!(&data[8..23], b"TabScreen Touch");
        }
        _ => unreachable!(),
    }
}

#[test]
fn sysfs_names_are_found() {
    assert_eq!(c_string_len(b"input12\0\0\0"), 7);
    assert_eq!(c_string_len(b"full"), 4);
    assert_eq!(c_string_len(b"\0"), 0);
    let names: Vec<String> =
        ["power", "js0", "event7", "event8"].iter().map(|s| s.to_string()).collect();
    assert_eq!(event_node(&names), Some("event7".to_string()));
    assert_eq!(event_node(&vec!["an event".to_string()]), None);
    assert_eq!(event_node(&vec![]), None);
}

#[test]
fn a_stroke_of_the_pen() {
    let mut p = Pen::new();
    assert_eq!(
        p.handle(&pen(PEN_HOVER_ENTER, TOOL_PEN, 0)),
        vec![
            key(BTN_TOOL_PEN, 1),
            abs(ABS_X, 100),
            abs(ABS_Y, 200),
            abs(ABS_TILT_X, -5),
            abs(ABS_TILT_Y, 6),
            abs(ABS_PRESSURE, 0),
            abs(ABS_DISTANCE, 70),
            syn(),
        ]
    );
    assert_eq!(
        p.handle(&pen(PEN_DOWN, TOOL_PEN, 1)),
        vec![
            abs(ABS_X, 100),
            abs(ABS_Y, 200),
            abs(ABS_TILT_X, -5),
            abs(ABS_TILT_Y, 6),
            abs(ABS_PRESSURE, 300),
            abs(ABS_DISTANCE, 0),
            key(BTN_TOUCH, 1),
            key(BTN_STYLUS, 1),
            key(BTN_STYLUS2, 0),
            syn(),
        ]
    );
    let mut light = pen(PEN_MOVE, TOOL_PEN, 1);
    light.pressure = 0;
    let moved = p.handle(&light);
    assert_eq!(moved[4], abs(ABS_PRESSURE, 1));
    assert_eq!(moved.len(), 7);
    let mut up = pen(PEN_UP, TOOL_PEN, 2);
    up.distance = 0;
    let lifted = p.handle(&up);
    assert_eq!(
        &lifted[4..],
        &[
            abs(ABS_PRESSURE, 0),
            abs(ABS_DISTANCE, 1),
            key(BTN_TOUCH, 0),
            key(BTN_STYLUS, 0),
            key(BTN_STYLUS2, 1),
            syn(),
        ]
    );
    assert_eq!(
        p.handle(&pen(PEN_HOVER_EXIT, TOOL_PEN, 2)),
        vec![
            key(BTN_TOUCH, 0),
            abs(ABS_PRESSURE, 0),
            key(BTN_STYLUS, 0),
            key(BTN_STYLUS2, 0),
            key(BTN_TOOL_PEN, 0),
            syn(),
        ]
    );
    assert_eq!(p, Pen::new());
    assert_eq!(p.handle(&pen(PEN_CANCEL, TOOL_PEN, 0)), vec![]);
    assert_eq!(p.handle(&pen(99, TOOL_PEN, 0)), vec![]);
}

#[test]
fn turning_the_pen_over_takes_the_old_tool_away() {
    let mut p = Pen::new();
    let mut all = p.handle(&pen(PEN_HOVER_ENTER, TOOL_PEN, 0));
    let turned = p.handle(&pen(PEN_HOVER_ENTER, TOOL_ERASER, 0));
    assert_eq!(&turned[..3], &[key(BTN_TOOL_PEN, 0), syn(), key(BTN_TOOL_RUBBER, 1)]);
    all.extend(turned);
    assert_eq!(held(&all), vec![BTN_TOOL_RUBBER]);
    all.extend(p.handle(&pen(PEN_HOVER_EXIT, TOOL_ERASER, 0)));
    assert_eq!(held(&all), Vec::<u16>::new());
}

#[test]
fn cancelling_releases_every_key_of_the_pen() {
    let mut p = Pen::new();
    let mut all = p.handle(&pen(PEN_DOWN, TOOL_PEN, 3));
    assert_eq!(held(&all).len(), 4);
    all.extend(p.handle(&pen(PEN_CANCEL, TOOL_PEN, 0)));
    assert_eq!(held(&all), Vec::<u16>::new());
    assert_eq!(all.last(), Some(&syn()));
}

fn finger(action: u8, id: u8) -> TouchInput {
    TouchInput { action, id, x: 10, y: 20, pressure: 0, major: 30 }
}

#[test]
fn fingers_get_slots_and_numbers() {
    let mut t = Touch::new_touchscreen();
    assert_eq!(
        t.handle(&finger(TOUCH_DOWN, 7)),
        vec![
            abs(ABS_MT_SLOT, 0),
            abs(ABS_MT_TRACKING_ID, 1),
            abs(ABS_MT_POSITION_X, 10),
            abs(ABS_MT_POSITION_Y, 20),
            abs(ABS_MT_PRESSURE, 1),
            abs(ABS_MT_TOUCH_MAJOR, 30),
            abs(ABS_X, 10),
            abs(ABS_Y, 20),
            key(BTN_TOUCH, 1),
            syn(),
        ]
    );
    assert_eq!(
        t.handle(&finger(TOUCH_DOWN, 4)),
        vec![
            abs(ABS_MT_SLOT, 1),
            abs(ABS_MT_TRACKING_ID, 2),
            abs(ABS_MT_POSITION_X, 10),
            abs(ABS_MT_POSITION_Y, 20),
            abs(ABS_MT_PRESSURE, 1),
            abs(ABS_MT_TOUCH_MAJOR, 30),
            syn(),
        ]
    );
    let moved = t.handle(&finger(TOUCH_MOVE, 7));
    assert_eq!(moved[0], abs(ABS_MT_SLOT, 0));
    assert_eq!(moved[1], abs(ABS_MT_POSITION_X, 10));
    assert_eq!(moved.len(), 8);
    assert_eq!(t.handle(&finger(TOUCH_MOVE, 9)), vec![]);
    assert_eq!(
        t.handle(&finger(TOUCH_UP, 7)),
        vec![abs(ABS_MT_SLOT, 0), abs(ABS_MT_TRACKING_ID, -1), syn()]
    );
    assert_eq!(
        t.handle(&finger(TOUCH_CANCEL, 4)),
        vec![abs(ABS_MT_SLOT, 1), abs(ABS_MT_TRACKING_ID, -1), key(BTN_TOUCH, 0), syn()]
    );
    assert_eq!(t.handle(&finger(TOUCH_UP, 4)), vec![]);
    assert_eq!(t.handle(&finger(77, 4)), vec![]);
}

#[test]
fn an_eleventh_finger_is_ignored() {
    let mut t = Touch::new_touchscreen();
    for id in 0..10 {
        assert!(!t.handle(&finger(TOUCH_DOWN, id)).is_empty());
    }
    assert_eq!(t.handle(&finger(TOUCH_DOWN, 10)), vec![]);
    t.handle(&finger(TOUCH_UP, 3));
    assert_eq!(t.handle(&finger(TOUCH_DOWN, 10))[0], abs(ABS_MT_SLOT, 3));
}

#[test]
fn tracking_numbers_wrap() {
    let mut t = Touch::new_touchscreen();
    for _ in 0..65535 {
        t.handle(&finger(TOUCH_DOWN, 1));
        t.handle(&finger(TOUCH_UP, 1));
    }
    assert_eq!(t.handle(&finger(TOUCH_DOWN, 1))[1], abs(ABS_MT_TRACKING_ID, 0));
}

#[test]
fn releasing_lifts_every_finger() {
    let mut t = Touch::new_touchscreen();
    t.handle(&finger(TOUCH_DOWN, 1));
    t.handle(&finger(TOUCH_DOWN, 2));
    t.handle(&finger(TOUCH_UP, 1));
    assert_eq!(
        t.release_all(),
        vec![abs(ABS_MT_SLOT, 1), abs(ABS_MT_TRACKING_ID, -1), key(BTN_TOUCH, 0), syn()]
    );
    assert_eq!(t.release_all(), vec![key(BTN_TOUCH, 0), syn()]);
}

fn pad(action: u8, id: u8, x: f32, y: f32) -> TouchEvent {
    TouchEvent {
        t_ns: 0,
        action,
        id,
        x: x.to_bits(),
        y: y.to_bits(),
        pressure: 0,
        major: 0,
    }
}

const MS: u128 = 1_000_000;

#[test]
fn taps_with_up_to_three_fingers_click() {
    for (n, button) in [(1u8, Some(BTN_LEFT)), (2, Some(BTN_RIGHT)), (3, Some(BTN_MIDDLE)), (4, None)] {
        let mut t = Touchpad::new(0);
        for id in 0..n {
            assert_eq!(t.handle(&pad(TOUCH_DOWN, id, 0.5, 0.5), 1000 * MS), Reaction::Quiet);
        }
        for id in 1..n {
            assert_eq!(t.handle(&pad(TOUCH_UP, id, 0.5, 0.5), 1100 * MS), Reaction::Quiet);
        }
        let last = t.handle(&pad(TOUCH_UP, 0, 0.5, 0.5), 1220 * MS);
        match button {
            Some(b) => assert_eq!(last, Reaction::Click(b)),
            None => assert_eq!(last, Reaction::Quiet),
        }
    }
}

#[test]
fn slow_moved_or_cancelled_taps_do_not_click() {
    let mut t = Touchpad::new(0);
    t.handle(&pad(TOUCH_DOWN, 0, 0.5, 0.5), 0);
    assert_eq!(t.handle(&pad(TOUCH_UP, 0, 0.5, 0.5), 221 * MS), Reaction::Quiet);
    t.handle(&pad(TOUCH_DOWN, 0, 0.5, 0.5), 1000 * MS);
    t.mark_moved();
    assert_eq!(t.handle(&pad(TOUCH_UP, 0, 0.5, 0.5), 1001 * MS), Reaction::Quiet);
    t.handle(&pad(TOUCH_DOWN, 0, 0.5, 0.5), 2000 * MS);
    assert_eq!(t.handle(&pad(TOUCH_CANCEL, 0, 0.5, 0.5), 2001 * MS), Reaction::Quiet);
    // Everything is forgotten when the next gesture begins.
    t.handle(&pad(TOUCH_DOWN, 0, 0.5, 0.5), 3000 * MS);
    assert_eq!(t.handle(&pad(TOUCH_UP, 0, 0.5, 0.5), 3220 * MS + 999_999), Reaction::Click(BTN_LEFT));
}

#[test]
fn one_finger_points_and_two_scroll() {
    let mut t = Touchpad::new(0);
    assert_eq!(t.handle(&pad(TOUCH_MOVE, 0, 0.5, 0.5), 0), Reaction::Quiet);
    t.handle(&pad(TOUCH_DOWN, 0, 0.5, 0.25), 0);
    assert_eq!(
        t.handle(&pad(TOUCH_MOVE, 0, 0.6, 0.3), 0),
        Reaction::Moved {
            from_x: 0.5f32.to_bits(),
            from_y: 0.25f32.to_bits(),
            effect: Effect::Pointer,
        }
    );
    t.handle(&pad(TOUCH_DOWN, 1, 0.1, 0.1), 0);
    assert_eq!(
        t.handle(&pad(TOUCH_MOVE, 0, 0.7, 0.4), 0),
        Reaction::Moved { from_x: 0.6f32.to_bits(), from_y: 0.3f32.to_bits(), effect: Effect::Scroll }
    );
    t.handle(&pad(TOUCH_DOWN, 2, 0.1, 0.1), 0);
    assert!(matches!(
        t.handle(&pad(TOUCH_MOVE, 2, 0.2, 0.2), 0),
        Reaction::Moved { effect: Effect::Nothing, .. }
    ));
    assert_eq!(t.handle(&pad(42, 0, 0.0, 0.0), 0), Reaction::Quiet);
}

#[test]
fn the_pad_moves_clicks_and_scrolls() {
    assert_eq!(click(BTN_RIGHT), vec![key(BTN_RIGHT, 1), syn(), key(BTN_RIGHT, 0), syn()]);
    assert_eq!(emit_motion(0, 0), vec![]);
    assert_eq!(emit_motion(3, 0), vec![rel(REL_X, 3), syn()]);
    assert_eq!(emit_motion(0, -4), vec![rel(REL_Y, -4), syn()]);
    assert_eq!(emit_motion(3, -4), vec![rel(REL_X, 3), rel(REL_Y, -4), syn()]);
    assert_eq!(emit_scroll(None, None), vec![]);
    assert_eq!(
        emit_scroll(
            Some(Wheel { hi_res: -12, detents: 0 }),
            Some(Wheel { hi_res: 150, detents: 1 })
        ),
        vec![
            rel(REL_WHEEL_HI_RES, 150),
            rel(REL_WHEEL, 1),
            rel(REL_HWHEEL_HI_RES, -12),
            syn(),
        ]
    );
    assert_eq!(
        emit_scroll(Some(Wheel { hi_res: 240, detents: 2 }), None),
        vec![rel(REL_HWHEEL_HI_RES, 240), rel(REL_HWHEEL, 2), syn()]
    );
    let mut t = Touchpad::new(0);
    t.handle(&pad(TOUCH_DOWN, 0, 0.5, 0.5), 0);
    assert_eq!(
        t.release_all(),
        vec![key(BTN_LEFT, 0), key(BTN_RIGHT, 0), key(BTN_MIDDLE, 0), syn()]
    );
    assert_eq!(t.handle(&pad(TOUCH_MOVE, 0, 0.6, 0.6), 0), Reaction::Quiet);
}

#[test]
fn values_stay_on_their_axes() {
    let range = |code: u16| match code {
        ABS_X | ABS_Y | ABS_MT_POSITION_X | ABS_MT_POSITION_Y | ABS_MT_TOUCH_MAJOR => (0, 65535),
        ABS_PRESSURE | ABS_MT_PRESSURE => (0, 4095),
        ABS_DISTANCE => (0, 1023),
        ABS_TILT_X | ABS_TILT_Y => (-90, 90),
        ABS_MT_SLOT => (0, 9),
        ABS_MT_TRACKING_ID => (-1, 65535),
        _ => unreachable!(),
    };
    let mut p = Pen::new();
    let mut t = Touch::new_touchscreen();
    let mut events = Vec::new();
    for action in 0..7 {
        events.extend(p.handle(&PenInput {
            action,
            tool: 1 + action % 2,
            buttons: action,
            x: 65535,
            y: 0,
            pressure: 4095,
            tilt_x: -90,
            tilt_y: 90,
            distance: 1023,
        }));
    }
    for action in 0..4 {
        events.extend(t.handle(&TouchInput {
            action,
            id: action / 2,
            x: 65535,
            y: 0,
            pressure: 4095,
            major: 65535,
        }));
    }
    assert!(!events.is_empty());
    for e in events.iter().filter(|e| e.type_ == EV_ABS) {
        let (min, max) = range(e.code);
        assert!(min <= e.value && e.value <= max);
    }
    assert_eq!(events.last(), Some(&syn()));
}

fn pressure(events: &[InputEvent]) -> i32 {
    events
        .iter()
        .rev()
        .find(|e| e.type_ == EV_ABS && e.code == ABS_PRESSURE)
        .map(|e| e.value)
        .unwrap_or(0)
}

#[test]
fn leaving_puts_the_pen_to_rest() {
    let mut p = Pen::new();
    let mut all = Vec::new();
    for e in [
        pen(PEN_HOVER_ENTER, TOOL_PEN, 1),
        pen(PEN_DOWN, TOOL_PEN, 3),
        // Turned over with the tip down, which takes the pen away but not the tip.
        pen(PEN_MOVE, TOOL_ERASER, 2),
        pen(99, TOOL_ERASER, 0),
    ] {
        all.extend(p.handle(&e));
    }
    assert_eq!(held(&all), vec![BTN_TOUCH, BTN_TOOL_RUBBER, BTN_STYLUS2]);
    assert_eq!(pressure(&all), 300);
    all.extend(p.handle(&pen(PEN_HOVER_EXIT, TOOL_ERASER, 2)));
    assert_eq!(held(&all), Vec::<u16>::new());
    assert_eq!(pressure(&all), 0);
    // A second leave changes nothing.
    assert_eq!(p.handle(&pen(PEN_CANCEL, TOOL_PEN, 0)), vec![]);
}

#[test]
fn a_leave_with_another_tool_strands_the_tip() {
    let mut p = Pen::new();
    let mut all = p.handle(&pen(PEN_DOWN, TOOL_PEN, 0));
    all.extend(p.handle(&pen(PEN_CANCEL, TOOL_ERASER, 0)));
    assert_eq!(held(&all), vec![BTN_TOUCH]);
    assert_eq!(pressure(&all), 300);
    // Nothing is stranded where nothing was pressed.
    let mut p = Pen::new();
    let mut all = p.handle(&pen(PEN_HOVER_ENTER, TOOL_PEN, 0));
    all.extend(p.handle(&pen(PEN_CANCEL, TOOL_ERASER, 0)));
    assert_eq!(held(&all), Vec::<u16>::new());
}

#[test]
fn taps_may_move_a_little_and_gather_fingers() {
    let mut t = Touchpad::new(0);
    let at = 500 * MS;
    assert_eq!(t.handle(&pad(TOUCH_DOWN, 4, 0.5, 0.5), at), Reaction::Quiet);
    assert!(matches!(t.handle(&pad(TOUCH_MOVE, 4, 0.51, 0.5), at), Reaction::Moved { .. }));
    assert_eq!(t.handle(&pad(TOUCH_DOWN, 5, 0.1, 0.1), at), Reaction::Quiet);
    assert_eq!(t.handle(&pad(TOUCH_CANCEL, 4, 0.5, 0.5), at), Reaction::Quiet);
    // An unknown finger that leaves does not end the gesture.
    assert_eq!(t.handle(&pad(TOUCH_UP, 9, 0.5, 0.5), at), Reaction::Quiet);
    assert_eq!(t.handle(&pad(TOUCH_DOWN, 6, 0.2, 0.2), at), Reaction::Quiet);
    assert_eq!(t.handle(&pad(TOUCH_UP, 5, 0.1, 0.1), at), Reaction::Quiet);
    // Three fingers touched the pad, but never more than two at once.
    assert_eq!(t.handle(&pad(TOUCH_UP, 6, 0.2, 0.2), at + 100 * MS), Reaction::Click(BTN_RIGHT));
    // A last finger that is cancelled clicks nothing.
    t.handle(&pad(TOUCH_DOWN, 1, 0.5, 0.5), at);
    t.handle(&pad(TOUCH_DOWN, 2, 0.5, 0.5), at);
    assert_eq!(t.handle(&pad(TOUCH_UP, 1, 0.5, 0.5), at), Reaction::Quiet);
    assert_eq!(t.handle(&pad(TOUCH_CANCEL, 2, 0.5, 0.5), at), Reaction::Quiet);
}
