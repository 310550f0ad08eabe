use tabscreen::audio::AudioChunk;
use tabscreen::framing::Inbox;
use tabscreen::protocol::{
    audio_chunk, frame, video_frame, Hello, FIRST_VERSION, MODE_SCREEN, MODE_TOUCHPAD, MSG_DISCOVER, MSG_HELLO,
    MSG_KEYFRAME_REQUEST, MSG_PEN, MSG_PING, MSG_PONG, MSG_TOUCH, VERSION,
};
use tabscreen::session::{
    accept_hello, after_read, audio_plan, choose_codec, connected_status, dispatch, mode_of,
    opening, plan_screen, probe_reply, receive, session_result, Action, AudioPlan, Devices, End,
    HelloError, Mode, Opening, Outgoing, Reading, ScreenOptions, SessionControl, Traffic, Transmit,
};
use tabscreen::video::{Codec, EncodedFrame};
use tabscreen::wayland::Pointer;

fn hello() -> Hello {
    Hello {
        version: VERSION,
        width: 2961,
        height: 1849,
        refresh: 120,
        codecs: 0b101,
        preferred_codec: 0,
        width_mm: 0,
        height_mm: 0,
        mode: MODE_SCREEN,
        audio: 0,
    }
}

fn options() -> ScreenOptions {
    ScreenOptions { codec: Codec::H264, width: None, height: None, refresh: None, no_cursor: false }
}

#[test]
fn the_tray_follows_the_session() {
    let mut c: SessionControl<u32> = SessionControl::new();
    assert!(!c.is_connected());
    assert_eq!(c.status(), "");
    c.set_status("Waiting".to_string());
    c.connected(5, "Connected".to_string());
    assert!(c.is_connected());
    assert_eq!(c.status(), "Connected");
    assert_eq!(c.disconnect(), Some(5));
    assert_eq!(c.disconnect(), None);
    assert_eq!(c.status(), "Connected");
    c.connected(6, "Again".to_string());
    c.cleared("Waiting".to_string());
    assert!(!c.is_connected());
    assert_eq!(c.status(), "Waiting");
}

#[test]
fn connections_are_told_by_their_first_byte() {
    assert_eq!(opening(None), Opening::Closed);
    assert_eq!(opening(Some(0x16)), Opening::Tls);
    assert_eq!(opening(Some(MSG_DISCOVER)), Opening::Plain);
    assert_eq!(probe_reply(MSG_DISCOVER, "host"), Some(frame(MSG_DISCOVER, b"host")));
    assert_eq!(probe_reply(MSG_PING, "host"), None);
}

#[test]
fn greetings_are_checked() {
    let mut p = vec![0u8; 20];
    p[..2].copy_from_slice(&VERSION.to_le_bytes());
    p[2] = 9;
    assert_eq!(accept_hello(MSG_HELLO, &p).map(|h| h.width), Ok(9));
    assert_eq!(accept_hello(MSG_PING, &p), Err(HelloError::WrongType(MSG_PING)));
    assert_eq!(accept_hello(MSG_HELLO, &p[..19]), Err(HelloError::Truncated));
    assert_eq!(accept_hello(MSG_HELLO, &p[..18]), Err(HelloError::Truncated));
    assert_eq!(accept_hello(MSG_HELLO, &p[..1]), Err(HelloError::WrongVersion(0)));
    assert_eq!(accept_hello(MSG_HELLO, &[]), Err(HelloError::WrongVersion(0)));
    p[1] = 1;
    assert_eq!(accept_hello(MSG_HELLO, &p), Err(HelloError::WrongVersion(0x100 + VERSION)));
}

#[test]
fn the_first_version_is_understood() {
    let mut p = vec![0u8; 18];
    p[..2].copy_from_slice(&FIRST_VERSION.to_le_bytes());
    p[2] = 9;
    let h = accept_hello(MSG_HELLO, &p).unwrap();
    assert_eq!((h.version, h.width), (1, 9));
    assert_eq!(mode_of(&h), Ok(Mode::Screen));
    assert_eq!(audio_plan(false, &h), AudioPlan::Computer);
    assert_eq!(accept_hello(MSG_HELLO, &p[..17]), Err(HelloError::Truncated));
    assert_eq!(accept_hello(MSG_HELLO, &p[..2]), Err(HelloError::Truncated));
    p[0] = 3;
    assert_eq!(accept_hello(MSG_HELLO, &p), Err(HelloError::WrongVersion(3)));
    p[0] = 0;
    assert_eq!(accept_hello(MSG_HELLO, &p), Err(HelloError::WrongVersion(0)));
}

#[test]
fn failed_greetings_have_words() {
    assert_eq!(HelloError::WrongType(0xab).message(), "expected HELLO, got message type 0xab");
    assert_eq!(
        HelloError::WrongVersion(3).message(),
        format!("protocol version mismatch: tablet 3 vs server {VERSION} — update the app or the server")
    );
    assert_eq!(HelloError::Truncated.message(), "truncated message");
    assert_eq!(HelloError::UnknownMode(200).message(), "unknown mode 200");
}

#[test]
fn modes_and_sound_are_what_the_tablet_asks_for() {
    let mut h = hello();
    assert_eq!(mode_of(&h), Ok(Mode::Screen));
    assert_eq!(audio_plan(false, &h), AudioPlan::Computer);
    h.mode = MODE_TOUCHPAD;
    h.audio = 1;
    assert_eq!(mode_of(&h), Ok(Mode::Touchpad));
    assert_eq!(audio_plan(false, &h), AudioPlan::Tablet);
    assert_eq!(audio_plan(true, &h), AudioPlan::Computer);
    h.mode = 7;
    h.audio = 2;
    assert_eq!(mode_of(&h), Err(HelloError::UnknownMode(7)));
    assert_eq!(audio_plan(false, &h), AudioPlan::Both);
    h.audio = 9;
    assert_eq!(audio_plan(false, &h), AudioPlan::Both);
    assert_eq!(connected_status("10.0.0.2", MODE_TOUCHPAD), "Connected: 10.0.0.2 — Touchpad");
    assert_eq!(connected_status("tablet", MODE_SCREEN), "Connected: tablet — Second screen");
}

fn picture(keyframe: bool, n: u8) -> Outgoing {
    Outgoing::Video(EncodedFrame { pts_ns: n as u64, keyframe, data: vec![n] })
}

#[test]
fn pictures_start_with_a_keyframe() {
    let mut t = Transmit::new();
    assert_eq!(t.encode(picture(false, 1)), None);
    assert_eq!(
        t.encode(Outgoing::Audio(AudioChunk { pts_ns: 3, data: vec![4, 5] })),
        Some(audio_chunk(3, &[4, 5]))
    );
    assert_eq!(t.encode(Outgoing::Raw(vec![1, 2, 3])), Some(vec![1, 2, 3]));
    assert_eq!(t.encode(picture(false, 2)), None);
    assert_eq!((t.frames, t.bytes), (0, 15 + 3));
    assert_eq!(t.encode(picture(true, 3)), Some(video_frame(3, true, &[3])));
    assert_eq!(t.encode(picture(false, 4)), Some(video_frame(4, false, &[4])));
    assert_eq!((t.frames, t.bytes), (2, 18 + 30));
    assert_eq!(t.report(4), None);
    assert_eq!(t.report(5), Some(Traffic { frames: 2, bytes: 48 }));
    assert_eq!(t.report(6), Some(Traffic { frames: 0, bytes: 0 }));
    assert!(t.encode(picture(false, 5)).is_some());
    t.bytes = u64::MAX;
    t.frames = u64::MAX;
    t.encode(picture(false, 5));
    assert_eq!((t.frames, t.bytes), (0, 14));
}

const SCREEN: Devices = Devices { screen: true, touch: true, touchpad: false };
const PAD: Devices = Devices { screen: false, touch: false, touchpad: true };
const PEN_ONLY: Devices = Devices { screen: true, touch: false, touchpad: false };

#[test]
fn messages_go_where_they_belong() {
    let none = [0u8, 0];
    assert!(matches!(dispatch(MSG_PEN, &none, SCREEN), Ok(Action::Pen(v)) if v.is_empty()));
    assert!(matches!(dispatch(MSG_PEN, &[1, 0], SCREEN), Err(_)));
    // Without a second screen pen input is not even looked at.
    assert!(matches!(dispatch(MSG_PEN, &[1, 0], PAD), Ok(Action::Ignore)));
    let mut one = vec![1u8, 0];
    one.extend_from_slice(&[7; 28]);
    assert!(matches!(dispatch(MSG_TOUCH, &one, SCREEN), Ok(Action::Touch(v)) if v[0].id == 7));
    assert!(matches!(dispatch(MSG_TOUCH, &one, PAD), Ok(Action::Pad(v)) if v.len() == 1));
    assert!(matches!(dispatch(MSG_TOUCH, &one, PEN_ONLY), Ok(Action::Ignore)));
    assert!(matches!(dispatch(MSG_TOUCH, &[1, 0], PEN_ONLY), Err(_)));
    assert!(
        matches!(dispatch(MSG_PING, &[8, 9], PAD), Ok(Action::Reply(f)) if f == frame(MSG_PONG, &[8, 9]))
    );
    assert!(matches!(dispatch(MSG_KEYFRAME_REQUEST, &[], SCREEN), Ok(Action::Keyframe)));
    assert!(matches!(dispatch(MSG_KEYFRAME_REQUEST, &[], PAD), Ok(Action::Ignore)));
    assert!(matches!(dispatch(0x99, &[1, 2, 3], PAD), Ok(Action::Unknown { ty: 0x99, len: 3 })));
}

#[test]
fn input_may_arrive_in_pieces() {
    let mut bytes = frame(MSG_PING, &[1]);
    bytes.extend(frame(MSG_KEYFRAME_REQUEST, &[]));
    bytes.extend(frame(0x55, &[1, 2]));
    for cut in 0..bytes.len() {
        let mut inbox = Inbox::new();
        let mut got = receive(&mut inbox, &bytes[..cut], SCREEN);
        assert_eq!(got.end, None);
        let more = receive(&mut inbox, &bytes[cut..], SCREEN);
        assert_eq!(more.end, None);
        got.actions.extend(more.actions);
        assert_eq!(got.actions.len(), 3);
        assert!(matches!(&got.actions[0], Action::Reply(f) if *f == frame(MSG_PONG, &[1])));
        assert!(matches!(got.actions[1], Action::Keyframe));
        assert!(matches!(got.actions[2], Action::Unknown { ty: 0x55, len: 2 }));
    }
}

#[test]
fn bad_input_ends_the_session() {
    let mut inbox = Inbox::new();
    let mut bytes = frame(MSG_PING, &[1]);
    bytes.extend(frame(MSG_TOUCH, &[1, 0]));
    bytes.extend(frame(MSG_PING, &[2]));
    let got = receive(&mut inbox, &bytes, PAD);
    assert_eq!(got.end, Some(End::Truncated));
    assert_eq!(got.actions.len(), 1);
    let mut inbox = Inbox::new();
    let mut bytes = frame(MSG_PING, &[1]);
    bytes.extend_from_slice(&[MSG_PING, 1, 0, 0x10, 0]);
    let got = receive(&mut inbox, &bytes, PAD);
    assert_eq!(got.end, Some(End::Oversized(0x10_0001)));
    assert_eq!(got.actions.len(), 1);
}

#[test]
fn sessions_end_well_or_badly() {
    assert_eq!(after_read(Reading::Bytes(0)), Some(End::Closed));
    assert_eq!(after_read(Reading::Bytes(1)), None);
    assert_eq!(after_read(Reading::NotYet), None);
    assert_eq!(after_read(Reading::Failed), Some(End::Io));
    assert_eq!(session_result(End::Closed), Ok(()));
    assert_eq!(session_result(End::Io), Ok(()));
    assert_eq!(
        session_result(End::OutputRemoved),
        Err("KWin removed the virtual output".to_string())
    );
    assert_eq!(
        session_result(End::Oversized(1048577)),
        Err("oversized frame (1048577 bytes)".to_string())
    );
    assert_eq!(session_result(End::Truncated), Err("truncated message".to_string()));
}

#[test]
fn codecs_are_chosen() {
    let mut h = hello();
    assert_eq!(choose_codec(&h, Codec::Av1), Codec::Av1);
    assert_eq!(choose_codec(&h, Codec::Hevc), Codec::H264);
    h.preferred_codec = 3;
    assert_eq!(choose_codec(&h, Codec::H264), Codec::Av1);
    h.preferred_codec = 2;
    assert_eq!(choose_codec(&h, Codec::Av1), Codec::Av1);
    h.codecs = 0;
    assert_eq!(choose_codec(&h, Codec::Av1), Codec::H264);
    h.codecs = 2;
    h.preferred_codec = 99;
    assert_eq!(choose_codec(&h, Codec::Hevc), Codec::Hevc);
}

#[test]
fn screens_are_planned() {
    let plan = plan_screen(&hello(), &options()).ok().unwrap();
    assert_eq!((plan.width, plan.height, plan.refresh), (2960, 1848, 120));
    assert_eq!(plan.codec, Codec::H264);
    assert_eq!(plan.pointer, Pointer::Embedded);
    assert_eq!(
        plan.stream_config(),
        vec![0x81, 7, 0, 0, 0, 1, 0x90, 0x0b, 0x38, 0x07, 120, 0]
    );
    let wide = ScreenOptions {
        codec: Codec::Av1,
        width: Some(65601),
        height: Some(65),
        refresh: Some(1000),
        no_cursor: true,
    };
    let plan = plan_screen(&hello(), &wide).ok().unwrap();
    assert_eq!((plan.width, plan.height, plan.refresh), (65600, 64, 240));
    assert_eq!(plan.pointer, Pointer::Hidden);
    assert_eq!(plan.stream_config(), vec![0x81, 7, 0, 0, 0, 3, 64, 0, 64, 0, 240, 0]);
    let mut slow = options();
    slow.refresh = Some(1);
    assert_eq!(plan_screen(&hello(), &slow).ok().unwrap().refresh, 30);
}

#[test]
fn implausible_screens_are_refused() {
    let mut o = options();
    o.width = Some(63);
    assert_eq!(
        plan_screen(&hello(), &o).err().as_deref(),
        Some("implausible display size 62x1848")
    );
    o.width = Some(-3);
    o.height = Some(i32::MIN);
    assert_eq!(
        plan_screen(&hello(), &o).err().as_deref(),
        Some("implausible display size -4x-2147483648")
    );
    let mut h = hello();
    h.height = 0;
    assert_eq!(
        plan_screen(&h, &options()).err().as_deref(),
        Some("implausible display size 2960x0")
    );
}
