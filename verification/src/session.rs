//! The course of a tablet's session: what its first messages mean, what it is sent, what its input
//! leads to, and how it ends.
use crate::audio::{sound, AudioChunk};
use crate::bytes::{u16_at, u32_at, u64_at};
use crate::framing::{reads_may_be_cut_anywhere, split, Frame, Inbox};
use crate::protocol::{
    audio_chunk, audio_chunk_bytes, batch_complete, frame, framed, hello_at, parse_hello,
    parse_pen_batch, parse_touch_batch, pen_batch, stream_config, stream_config_bytes,
    stream_config_reads_back, touch_batch, video_frame, video_frame_bytes, Hello, PenEvent,
    TouchEvent, Truncated, AUDIO_NONE, AUDIO_TABLET, FIRST_HELLO_LEN, FIRST_VERSION, FRAME_MAX,
    HELLO_LEN, MODE_SCREEN, MODE_TOUCHPAD, MSG_DISCOVER, MSG_HELLO, MSG_KEYFRAME_REQUEST, MSG_PEN,
    MSG_PING, MSG_PONG, MSG_TOUCH, PEN_EVENT_LEN, TOUCH_EVENT_LEN, VERSION,
};
use crate::text::{
    decimal, decimal_int, decimal_int_reads_back, decimal_reads_back, ends_in, hex_byte, parts_set,
    push_decimal, push_decimal_i32, push_hex, sets,
};
use crate::video::{codec_of, picture, wire_of, Codec, EncodedFrame};
use crate::wayland::Pointer;
use vstd::prelude::*;

verus! {

/// The session that the tray shows: its connection, while there is one, and its status.
pub struct SessionControl<S> {
    pub sock: Option<S>,
    pub status: String,
}

impl<S> View for SessionControl<S> {
    type V = (Option<S>, Seq<char>);

    open spec fn view(&self) -> (Option<S>, Seq<char>) {
        (self.sock, self.status@)
    }
}

/// What changes in what the tray shows.
pub enum Change<S> {
    Connected { sock: S, status: Seq<char> },
    Status { status: Seq<char> },
    Cleared { status: Seq<char> },
    Disconnected,
}

/// The connection and the status after a change.
pub open spec fn control_after<S>(c: (Option<S>, Seq<char>), change: Change<S>) -> (
    Option<S>,
    Seq<char>,
) {
    match change {
        Change::Connected { sock, status } => (Some(sock), status),
        Change::Status { status } => (c.0, status),
        Change::Cleared { status } => (None, status),
        Change::Disconnected => (None, c.1),
    }
}

/// There is a connection from the moment when a tablet is connected until the session is over or the
/// connection is given up, and it is the one of that tablet. The status is what was said last.
pub proof fn the_tray_shows_the_session<S>(
    c: (Option<S>, Seq<char>),
    sock: S,
    status: Seq<char>,
    later: Seq<char>,
)
    ensures
        ({
            let on = control_after(c, Change::Connected { sock, status });
            let told = control_after(on, Change::Status { status: later });
            let over = control_after(told, Change::Cleared { status });
            let given_up = control_after(told, Change::Disconnected);
            &&& on.0 == Some(sock) && on.1 == status
            &&& told.0 == Some(sock) && told.1 == later
            &&& over.0 is None && over.1 == status
            &&& given_up.0 is None && given_up.1 == later
        }),
        control_after(c, Change::Status { status }).0 == c.0,
        control_after(c, Change::Disconnected).1 == c.1,
{
}

impl<S> SessionControl<S> {
    /// No session and nothing to say.
    pub fn new() -> (r: Self)
        ensures
            r@ == (None::<S>, Seq::<char>::empty()),
    {
        SessionControl { sock: None, status: String::new() }
    }

    /// A tablet is connected.
    pub fn connected(&mut self, sock: S, status: String)
        ensures
            final(self)@ == control_after(old(self)@, Change::Connected { sock, status: status@ }),
    {
        self.sock = Some(sock);
        self.status = status;
    }

    pub fn set_status(&mut self, status: String)
        ensures
            final(self)@ == control_after(old(self)@, Change::Status { status: status@ }),
    {
        self.status = status;
    }

    /// The session is over.
    pub fn cleared(&mut self, status: String)
        ensures
            final(self)@ == control_after(old(self)@, Change::Cleared { status: status@ }),
    {
        self.sock = None;
        self.status = status;
    }

    /// Gives the connection up to be shut down.
    pub fn disconnect(&mut self) -> (r: Option<S>)
        ensures
            r == old(self)@.0,
            final(self)@ == control_after(old(self)@, Change::Disconnected),
            final(self).status == old(self).status,
    {
        self.sock.take()
    }

    pub fn is_connected(&self) -> (r: bool)
        ensures
            r == (self@.0 is Some),
    {
        self.sock.is_some()
    }

    pub fn status(&self) -> (r: String)
        ensures
            r@ == self@.1,
    {
        self.status.clone()
    }
}

/// What a connection turns out to be by its first byte.
#[derive(Clone, Copy, Debug, PartialEq, Eq, Structural)]
pub enum Opening {
    /// It is over already.
    Closed,
    /// It opens an encrypted session.
    Tls,
    /// Someone asks in plain text who is there.
    Plain,
}

/// What a connection is that starts so.
pub open spec fn opening_by(first: Option<u8>) -> Opening {
    match first {
        None => Opening::Closed,
        Some(b) => if b == 0x16 {
            Opening::Tls
        } else {
            Opening::Plain
        },
    }
}

/// A connection that never says anything is closed, one that starts with a handshake record is
/// encrypted, and every other one is in plain text.
pub proof fn connections_are_told_apart(first: Option<u8>)
    ensures
        first is None <==> opening_by(first) == Opening::Closed,
        first == Some(22u8) <==> opening_by(first) == Opening::Tls,
        opening_by(first) == Opening::Plain <==> (first matches Some(b) && b != 22),
{
}

/// Tells a connection by its first byte, if it has one. An encrypted one starts with a handshake
/// record.
pub fn opening(first: Option<u8>) -> (r: Opening)
    ensures
        r == opening_by(first),
{
    match first {
        None => Opening::Closed,
        Some(b) => if b == 0x16 {
            Opening::Tls
        } else {
            Opening::Plain
        },
    }
}

/// The answer to a message in plain text.
pub open spec fn probe_answer(ty: u8, hostname: Seq<char>) -> Option<Seq<u8>> {
    if ty == MSG_DISCOVER {
        Some(framed(MSG_DISCOVER, vstd::utf8::encode_utf8(hostname)))
    } else {
        None
    }
}

/// Only the question who is there is answered in plain text, and the peer reads the computer's name
/// from the answer.
pub proof fn probes_learn_the_hostname(ty: u8, hostname: Seq<char>)
    requires
        vstd::utf8::encode_utf8(hostname).len() < 0x1_0000_0000,
    ensures
        probe_answer(ty, hostname) is Some <==> ty == 6,
        probe_answer(ty, hostname) matches Some(f) ==> {
            &&& f[0] == 6
            &&& u32_at(f, 1) == f.len() - 5
            &&& vstd::utf8::decode_utf8(f.skip(5)) == hostname
        },
{
    crate::protocol::frames_say_what_they_hold(MSG_DISCOVER, vstd::utf8::encode_utf8(hostname));
    vstd::utf8::encode_utf8_decode_utf8(hostname);
}

/// The answer to a message in plain text. Only the question who is there gets one.
pub fn probe_reply(ty: u8, hostname: &str) -> (r: Option<Vec<u8>>)
    ensures
        match r {
            Some(f) => probe_answer(ty, hostname@) == Some(f@),
            None => probe_answer(ty, hostname@) is None,
        },
{
    if ty == MSG_DISCOVER {
        Some(frame(MSG_DISCOVER, hostname.as_bytes()))
    } else {
        None
    }
}

/// The protocol version that a greeting names; none at all counts as zero.
pub open spec fn version_named(payload: Seq<u8>) -> u16 {
    if payload.len() >= 2 {
        u16_at(payload, 0)
    } else {
        0
    }
}

/// Why a session does not begin.
#[derive(Clone, Copy, Debug, PartialEq, Eq, Structural)]
pub enum HelloError {
    /// The tablet said something else first.
    WrongType(u8),
    /// The tablet speaks a version of the protocol that the server does not know.
    WrongVersion(u16),
    /// The greeting is too short.
    Truncated,
    /// The tablet wants to be used as something unheard of.
    UnknownMode(u8),
}

impl HelloError {
    /// What the error is called in a log.
    pub open spec fn text(self) -> Seq<char> {
        match self {
            HelloError::WrongType(ty) => "expected HELLO, got message type 0x"@ + hex_byte(ty),
            HelloError::WrongVersion(v) => "protocol version mismatch: tablet "@ + decimal(v as nat)
                + " vs server "@ + decimal(VERSION as nat) + " — update the app or the server"@,
            HelloError::Truncated => "truncated message"@,
            HelloError::UnknownMode(mode) => "unknown mode "@ + decimal(mode as nat),
        }
    }

    /// The error in words.
    pub fn message(&self) -> (r: String)
        ensures
            r@ == self.text(),
    {
        match self {
            HelloError::WrongType(ty) => {
                let mut s = "expected HELLO, got message type 0x".to_owned();
                push_hex(&mut s, *ty);
                s
            },
            HelloError::WrongVersion(v) => {
                let mut s = "protocol version mismatch: tablet ".to_owned();
                push_decimal(&mut s, *v as u64);
                s.append(" vs server ");
                push_decimal(&mut s, VERSION as u64);
                s.append(" — update the app or the server");
                s
            },
            HelloError::Truncated => "truncated message".to_owned(),
            HelloError::UnknownMode(mode) => {
                let mut s = "unknown mode ".to_owned();
                push_decimal(&mut s, *mode as u64);
                s
            },
        }
    }
}

/// The bytes of a greeting in some version of the protocol, if it is one that the server knows.
pub open spec fn hello_len(version: u16) -> Option<int> {
    if version == FIRST_VERSION {
        Some(FIRST_HELLO_LEN as int)
    } else if version == VERSION {
        Some(HELLO_LEN as int)
    } else {
        None
    }
}

/// Whether a payload is a greeting in a version of the protocol that the server knows.
pub open spec fn is_greeting(payload: Seq<u8>) -> bool {
    hello_len(version_named(payload)) matches Some(len) && payload.len() >= len
}

/// Each refusal names its cause: the type of the message, the version of the tablet, or the mode.
pub proof fn refusals_name_their_cause(ty: u8, version: u16, mode: u8)
    ensures
        exists|front: Seq<char>|
            HelloError::WrongType(ty).text() == #[trigger] (front + hex_byte(ty)),
        sets(HelloError::WrongVersion(version).text(), "tablet "@, version as int, " vs server "@),
        sets(HelloError::WrongVersion(version).text(), " vs server "@, 2, " "@),
        ends_in(HelloError::UnknownMode(mode).text(), "mode "@, mode as int),
{
    assert(HelloError::WrongType(ty).text() == "expected HELLO, got message type 0x"@ + hex_byte(
        ty,
    ));
    decimal_reads_back(version as nat);
    decimal_reads_back(VERSION as nat);
    decimal_reads_back(mode as nat);
    reveal_strlit("protocol version mismatch: tablet ");
    reveal_strlit("protocol version mismatch: ");
    reveal_strlit("tablet ");
    reveal_strlit(" — update the app or the server");
    reveal_strlit("— update the app or the server");
    reveal_strlit(" ");
    reveal_strlit("unknown mode ");
    reveal_strlit("unknown ");
    reveal_strlit("mode ");
    let t = HelloError::WrongVersion(version).text();
    let v = decimal(version as nat);
    let own = decimal(VERSION as nat);
    let start = "protocol version mismatch: "@;
    let rest = "— update the app or the server"@;
    assert("protocol version mismatch: tablet "@ =~= start + "tablet "@);
    assert(" — update the app or the server"@ =~= " "@ + rest);
    parts_set(start, "tablet "@, v, version as int, " vs server "@, own + " "@ + rest);
    assert(start + "tablet "@ + v + " vs server "@ + (own + " "@ + rest) =~= t);
    parts_set(start + "tablet "@ + v, " vs server "@, own, 2, " "@, rest);
    assert((start + "tablet "@ + v) + " vs server "@ + own + " "@ + rest =~= t);
    let m = decimal(mode as nat);
    assert("unknown mode "@ =~= "unknown "@ + "mode "@);
    assert(HelloError::UnknownMode(mode).text() == ("unknown "@ + "mode "@) + m);
}

/// What the first message of a paired tablet means.
pub open spec fn greeting(ty: u8, payload: Seq<u8>) -> Result<Hello, HelloError> {
    if ty != MSG_HELLO {
        Err(HelloError::WrongType(ty))
    } else if hello_len(version_named(payload)) is None {
        Err(HelloError::WrongVersion(version_named(payload)))
    } else if !is_greeting(payload) {
        Err(HelloError::Truncated)
    } else {
        Ok(hello_at(payload))
    }
}

/// Reads the first message of a paired tablet.
pub fn accept_hello(ty: u8, payload: &[u8]) -> (r: Result<Hello, HelloError>)
    ensures
        r == greeting(ty, payload@),
{
    if ty != MSG_HELLO {
        return Err(HelloError::WrongType(ty));
    }
    let version: u16 = if payload.len() >= 2 {
        payload[0] as u16 + 0x100 * payload[1] as u16
    } else {
        0
    };
    if version != FIRST_VERSION && version != VERSION {
        return Err(HelloError::WrongVersion(version));
    }
    if version == VERSION && payload.len() < HELLO_LEN {
        return Err(HelloError::Truncated);
    }
    match parse_hello(payload) {
        Ok(hello) => Ok(hello),
        Err(_) => Err(HelloError::Truncated),
    }
}

/// The status of a session.
pub open spec fn connected_text(peer: Seq<char>, mode: u8) -> Seq<char> {
    "Connected: "@ + peer + " — "@ + (if mode == MODE_TOUCHPAD {
        "Touchpad"@
    } else {
        "Second screen"@
    })
}

/// The status names the peer, and ends in what the tablet is used as.
pub proof fn the_status_names_the_peer(peer: Seq<char>, mode: u8)
    ensures
        exists|front: Seq<char>, back: Seq<char>|
            connected_text(peer, mode) == #[trigger] ((front + peer) + back) && (if mode == 1 {
                back == " — "@ + "Touchpad"@
            } else {
                back == " — "@ + "Second screen"@
            }),
{
    let label = if mode == 1 {
        "Touchpad"@
    } else {
        "Second screen"@
    };
    assert(connected_text(peer, mode) =~= ("Connected: "@ + peer) + (" — "@ + label));
}

/// The status of a session with this peer in this mode.
pub fn connected_status(peer: &str, mode: u8) -> (r: String)
    ensures
        r@ == connected_text(peer@, mode),
{
    let mut s = "Connected: ".to_owned();
    s.append(peer);
    s.append(" — ");
    if mode == MODE_TOUCHPAD {
        s.append("Touchpad");
    } else {
        s.append("Second screen");
    }
    s
}

/// What the tablet is used as.
#[derive(Clone, Copy, Debug, PartialEq, Eq, Structural)]
pub enum Mode {
    Screen,
    Touchpad,
}

/// What a mode means.
pub open spec fn mode_meant(mode: u8) -> Result<Mode, HelloError> {
    if mode == MODE_SCREEN {
        Ok(Mode::Screen)
    } else if mode == MODE_TOUCHPAD {
        Ok(Mode::Touchpad)
    } else {
        Err(HelloError::UnknownMode(mode))
    }
}

/// There are two modes, and every other is refused by its number.
pub proof fn there_are_two_modes(mode: u8)
    ensures
        mode_meant(mode) == Ok::<Mode, HelloError>(Mode::Screen) <==> mode == 0,
        mode_meant(mode) == Ok::<Mode, HelloError>(Mode::Touchpad) <==> mode == 1,
        mode_meant(mode) matches Err(e) ==> mode > 1 && e == HelloError::UnknownMode(mode),
{
}

/// What the tablet wants to be used as.
pub fn mode_of(hello: &Hello) -> (r: Result<Mode, HelloError>)
    ensures
        r == mode_meant(hello.mode),
{
    if hello.mode == MODE_SCREEN {
        Ok(Mode::Screen)
    } else if hello.mode == MODE_TOUCHPAD {
        Ok(Mode::Touchpad)
    } else {
        Err(HelloError::UnknownMode(hello.mode))
    }
}

/// Where the sound is to be heard.
#[derive(Clone, Copy, Debug, PartialEq, Eq, Structural)]
pub enum AudioPlan {
    /// It stays as it is.
    Computer,
    /// Only at the tablet.
    Tablet,
    Both,
}

/// Where the sound is to be heard, by what the tablet asks for.
pub open spec fn audio_planned(no_audio: bool, audio: u8) -> AudioPlan {
    if no_audio || audio == AUDIO_NONE {
        AudioPlan::Computer
    } else if audio == AUDIO_TABLET {
        AudioPlan::Tablet
    } else {
        AudioPlan::Both
    }
}

/// The sound leaves the computer only where the tablet asks for it and the computer's user does not
/// forbid it, and the computer falls silent only where the tablet asks for that.
pub proof fn sound_goes_where_it_is_wanted(no_audio: bool, audio: u8)
    ensures
        audio_planned(no_audio, audio) == AudioPlan::Computer <==> no_audio || audio == 0,
        audio_planned(no_audio, audio) == AudioPlan::Tablet <==> !no_audio && audio == 1,
        audio_planned(no_audio, audio) == AudioPlan::Both <==> !no_audio && audio >= 2,
{
}

/// Where the sound is to be heard. The user of the computer may rule the tablet out.
pub fn audio_plan(no_audio: bool, hello: &Hello) -> (r: AudioPlan)
    ensures
        r == audio_planned(no_audio, hello.audio),
{
    if no_audio || hello.audio == AUDIO_NONE {
        AudioPlan::Computer
    } else if hello.audio == AUDIO_TABLET {
        AudioPlan::Tablet
    } else {
        AudioPlan::Both
    }
}

/// Something that goes to the tablet.
pub enum Outgoing {
    Video(EncodedFrame),
    Audio(AudioChunk),
    /// A message that is framed already.
    Raw(Vec<u8>),
}

/// What goes to the tablet.
pub enum Message {
    Video { pts_ns: u64, keyframe: bool, data: Seq<u8> },
    Audio { pts_ns: u64, data: Seq<u8> },
    Raw { bytes: Seq<u8> },
}

impl View for Outgoing {
    type V = Message;

    open spec fn view(&self) -> Message {
        match self {
            Outgoing::Video(f) => Message::Video {
                pts_ns: f.pts_ns,
                keyframe: f.keyframe,
                data: f.data@,
            },
            Outgoing::Audio(a) => Message::Audio { pts_ns: a.pts_ns, data: a.data@ },
            Outgoing::Raw(v) => Message::Raw { bytes: v@ },
        }
    }
}

/// The bytes of a message.
pub open spec fn sent_as(m: Message) -> Seq<u8> {
    match m {
        Message::Video { pts_ns, keyframe, data } => video_frame_bytes(pts_ns, keyframe, data),
        Message::Audio { pts_ns, data } => audio_chunk_bytes(pts_ns, data),
        Message::Raw { bytes } => bytes,
    }
}

/// Whether a message is a picture that can be shown without an earlier one.
pub open spec fn is_keyframe(m: Message) -> bool {
    m matches Message::Video { pts_ns, keyframe, data } && keyframe
}

/// Whether a message is a picture that needs an earlier one.
pub open spec fn is_delta(m: Message) -> bool {
    m matches Message::Video { pts_ns, keyframe, data } && !keyframe
}

/// The messages of a row that are sent; `started` says whether a keyframe was sent before. Pictures
/// that need an earlier one are left out until then.
pub open spec fn transmitted(started: bool, row: Seq<Message>) -> Seq<Message>
    decreases row.len(),
{
    if row.len() == 0 {
        Seq::empty()
    } else if is_delta(row[0]) && !started {
        transmitted(started, row.skip(1))
    } else {
        seq![row[0]] + transmitted(started || is_keyframe(row[0]), row.skip(1))
    }
}

/// What is sent, and how much of it.
pub struct Transmit {
    /// Whether a keyframe was sent.
    pub sent_keyframe: bool,
    /// Pictures since the last report.
    pub frames: u64,
    /// Bytes since the last report.
    pub bytes: u64,
}

/// What was sent in the time between two reports.
#[derive(Clone, Copy, Debug, PartialEq, Eq, Structural)]
pub struct Traffic {
    pub frames: u64,
    pub bytes: u64,
}

/// The counts after a message.
pub open spec fn counted(t: Transmit, m: Message) -> Transmit {
    if is_delta(m) && !t.sent_keyframe {
        t
    } else {
        Transmit {
            sent_keyframe: t.sent_keyframe || is_keyframe(m),
            frames: if m is Video {
                ((t.frames + 1) % 0x1_0000_0000_0000_0000) as u64
            } else {
                t.frames
            },
            bytes: ((t.bytes + sent_as(m).len()) % 0x1_0000_0000_0000_0000) as u64,
        }
    }
}

/// The counts after a row of messages.
pub open spec fn counted_all(t: Transmit, row: Seq<Message>) -> Transmit
    decreases row.len(),
{
    if row.len() == 0 {
        t
    } else {
        counted_all(counted(t, row[0]), row.skip(1))
    }
}

/// What is reported after so many seconds, and the counts that go on from there.
pub open spec fn reported(t: Transmit, elapsed_secs: u64) -> (Option<Traffic>, Transmit) {
    if elapsed_secs < 5 {
        (None, t)
    } else {
        (
            Some(Traffic { frames: t.frames, bytes: t.bytes }),
            Transmit { sent_keyframe: t.sent_keyframe, frames: 0, bytes: 0 },
        )
    }
}

/// How many of the messages are pictures.
pub open spec fn pictures(row: Seq<Message>) -> nat
    decreases row.len(),
{
    if row.len() == 0 {
        0
    } else {
        (if row[0] is Video {
            1nat
        } else {
            0
        }) + pictures(row.skip(1))
    }
}

/// How many bytes the messages have.
pub open spec fn weight(row: Seq<Message>) -> nat
    decreases row.len(),
{
    if row.len() == 0 {
        0
    } else {
        sent_as(row[0]).len() + weight(row.skip(1))
    }
}

/// What is counted is what is sent: after any row of messages, the pictures and the bytes have grown
/// by those that went out, and by nothing else. The counts start over when they are full.
pub proof fn the_counts_are_of_what_was_sent(t: Transmit, row: Seq<Message>)
    ensures
        ({
            let out = transmitted(t.sent_keyframe, row);
            let after = counted_all(t, row);
            &&& after.frames == (t.frames + pictures(out)) % 0x1_0000_0000_0000_0000
            &&& after.bytes == (t.bytes + weight(out)) % 0x1_0000_0000_0000_0000
            &&& after.sent_keyframe <==> t.sent_keyframe || exists|i: int|
                0 <= i < row.len() && is_keyframe(#[trigger] row[i])
        }),
    decreases row.len(),
{
    if row.len() > 0 {
        let m = row[0];
        let rest = row.skip(1);
        let next = counted(t, m);
        let out = transmitted(t.sent_keyframe, row);
        let tail = transmitted(next.sent_keyframe, rest);
        the_counts_are_of_what_was_sent(next, rest);
        if is_delta(m) && !t.sent_keyframe {
            assert(out == tail);
        } else {
            assert(out == seq![m] + tail);
            assert(out[0] == m);
            assert(out.skip(1) =~= tail);
        }
        assert(forall|i: int| 0 <= i < rest.len() ==> rest[i] == row[i + 1]);
        if exists|i: int| 0 <= i < row.len() && is_keyframe(#[trigger] row[i]) {
            let i = choose|i: int| 0 <= i < row.len() && is_keyframe(#[trigger] row[i]);
            if i > 0 {
                assert(rest[i - 1] == row[i]);
            }
        }
        if exists|i: int| 0 <= i < rest.len() && is_keyframe(#[trigger] rest[i]) {
            let i = choose|i: int| 0 <= i < rest.len() && is_keyframe(#[trigger] rest[i]);
            assert(row[i + 1] == rest[i]);
        }
    }
}

/// A report takes the counts as they are and leaves nothing of them: what is reported and what is
/// left add up to what there was. It comes after five seconds and not before.
pub proof fn reports_take_everything_once(t: Transmit, elapsed_secs: u64)
    ensures
        ({
            let (r, left) = reported(t, elapsed_secs);
            &&& r is Some <==> elapsed_secs >= 5
            &&& left.sent_keyframe == t.sent_keyframe
            &&& r matches Some(told) ==> told.frames + left.frames == t.frames && told.bytes
                + left.bytes == t.bytes && left.frames == 0 && left.bytes == 0
            &&& r is None ==> left == t
        }),
{
}

/// The tablet reads from a picture when it is shown, whether it is a keyframe and its data; from a
/// piece of sound when it is heard and its data; and a message that is framed already goes out as it
/// is.
pub proof fn messages_read_back(pts_ns: u64, keyframe: bool, data: Seq<u8>)
    requires
        9 + data.len() < 0x1_0000_0000,
    ensures
        ({
            let v = sent_as(Message::Video { pts_ns, keyframe, data });
            &&& v[0] == 0x82
            &&& u32_at(v, 1) == 9 + data.len()
            &&& u64_at(v, 5) == pts_ns
            &&& v[13] == 0 || v[13] == 1
            &&& keyframe <==> v[13] % 2 == 1
            &&& v.skip(14) == data
        }),
        ({
            let a = sent_as(Message::Audio { pts_ns, data });
            &&& a[0] == 0x85
            &&& u32_at(a, 1) == 8 + data.len()
            &&& u64_at(a, 5) == pts_ns
            &&& a.skip(13) == data
        }),
        sent_as(Message::Raw { bytes: data }) == data,
{
    crate::protocol::video_frame_reads_back(pts_ns, keyframe, data);
    crate::protocol::audio_chunk_reads_back(pts_ns, data);
}

/// What the encoder and the sound server hand over is what the tablet reads: the time, or none at
/// all, the data, and of a picture whether it needs an earlier one.
pub proof fn what_was_captured_reaches_the_tablet(
    delta_unit: bool,
    pts: Option<u64>,
    data: Seq<u8>,
)
    requires
        9 + data.len() < 0x1_0000_0000,
    ensures
        ({
            let (pts_ns, keyframe, d) = picture(delta_unit, pts, data);
            let m = Message::Video { pts_ns, keyframe, data: d };
            let v = sent_as(m);
            &&& is_delta(m) <==> delta_unit
            &&& is_keyframe(m) <==> !delta_unit
            &&& pts matches Some(t) ==> u64_at(v, 5) == t
            &&& pts is None ==> u64_at(v, 5) == 0
            &&& v[13] % 2 == 1 <==> !delta_unit
            &&& v.skip(14) == data
        }),
        ({
            let (pts_ns, d) = sound(pts, data);
            let a = sent_as(Message::Audio { pts_ns, data: d });
            &&& pts matches Some(t) ==> u64_at(a, 5) == t
            &&& pts is None ==> u64_at(a, 5) == 0
            &&& a.skip(13) == data
        }),
{
    let t: u64 = match pts {
        Some(t) => t,
        None => 0,
    };
    messages_read_back(t, !delta_unit, data);
}

/// What goes to the tablet is what was handed over for it.
pub proof fn messages_carry_what_was_handed_over(o: Outgoing)
    ensures
        match o {
            Outgoing::Video(f) => o@ == (Message::Video {
                pts_ns: f.pts_ns,
                keyframe: f.keyframe,
                data: f.data@,
            }),
            Outgoing::Audio(a) => o@ == (Message::Audio { pts_ns: a.pts_ns, data: a.data@ }),
            Outgoing::Raw(v) => o@ == (Message::Raw { bytes: v@ }),
        },
{
}

impl Transmit {
    /// Nothing was sent yet.
    pub fn new() -> (r: Self)
        ensures
            r == (Transmit { sent_keyframe: false, frames: 0, bytes: 0 }),
    {
        Transmit { sent_keyframe: false, frames: 0, bytes: 0 }
    }

    /// The bytes to send for a message, if it is sent at all. The counts start over when they are
    /// full.
    pub fn encode(&mut self, msg: Outgoing) -> (r: Option<Vec<u8>>)
        ensures
            *final(self) == counted(*old(self), msg@),
            match r {
                Some(v) => !(is_delta(msg@) && !old(self).sent_keyframe) && v@ == sent_as(msg@)
                    && final(self).bytes == (old(self).bytes + v@.len()) % 0x1_0000_0000_0000_0000,
                None => is_delta(msg@) && !old(self).sent_keyframe && *final(self) == *old(self),
            },
            final(self).sent_keyframe == (old(self).sent_keyframe || is_keyframe(msg@)),
            transmitted(old(self).sent_keyframe, seq![msg@]) == (if r is Some {
                seq![msg@]
            } else {
                Seq::empty()
            }),
            r is Some ==> final(self).frames == (if msg@ is Video {
                (old(self).frames + 1) % 0x1_0000_0000_0000_0000
            } else {
                old(self).frames as int
            }),
    {
        proof {
            reveal_with_fuel(transmitted, 2);
            assert(seq![msg@].skip(1) =~= Seq::empty());
            assert(seq![msg@] + Seq::empty() =~= seq![msg@]);
        }
        let buf = match msg {
            Outgoing::Video(f) => {
                if !self.sent_keyframe {
                    if !f.keyframe {
                        return None;
                    }
                    self.sent_keyframe = true;
                }
                self.frames = self.frames.wrapping_add(1);
                video_frame(f.pts_ns, f.keyframe, f.data.as_slice())
            },
            Outgoing::Audio(a) => audio_chunk(a.pts_ns, a.data.as_slice()),
            Outgoing::Raw(v) => v,
        };
        self.bytes = self.bytes.wrapping_add(buf.len() as u64);
        Some(buf)
    }

    /// What was sent since the last report, when that is five seconds ago or more.
    pub fn report(&mut self, elapsed_secs: u64) -> (r: Option<Traffic>)
        ensures
            final(self).sent_keyframe == old(self).sent_keyframe,
            (r, *final(self)) == reported(*old(self), elapsed_secs),
            match r {
                Some(t) => elapsed_secs >= 5 && t.frames == old(self).frames && t.bytes == old(
                    self,
                ).bytes && final(self).frames == 0 && final(self).bytes == 0,
                None => elapsed_secs < 5 && *final(self) == *old(self),
            },
    {
        if elapsed_secs < 5 {
            return None;
        }
        let t = Traffic { frames: self.frames, bytes: self.bytes };
        self.frames = 0;
        self.bytes = 0;
        Some(t)
    }
}

/// The first picture that the tablet gets is a keyframe: before every picture that needs an earlier
/// one, a keyframe was sent.
pub proof fn pictures_start_with_a_keyframe(row: Seq<Message>, i: int)
    requires
        0 <= i < transmitted(false, row).len(),
        is_delta(transmitted(false, row)[i]),
    ensures
        exists|j: int| 0 <= j < i && is_keyframe(#[trigger] transmitted(false, row)[j]),
    decreases row.len(),
{
    let out = transmitted(false, row);
    let tail = transmitted(false, row.skip(1));
    if is_delta(row[0]) {
        pictures_start_with_a_keyframe(row.skip(1), i);
    } else if is_keyframe(row[0]) {
        assert(is_keyframe(out[0]));
    } else {
        assert(out[i] == tail[i - 1]);
        pictures_start_with_a_keyframe(row.skip(1), i - 1);
        let j = choose|j: int| 0 <= j < i - 1 && is_keyframe(#[trigger] tail[j]);
        assert(out[j + 1] == tail[j]);
    }
}

/// Once a keyframe was sent, everything is.
pub proof fn everything_follows_a_keyframe(row: Seq<Message>)
    ensures
        transmitted(true, row) == row,
    decreases row.len(),
{
    if row.len() > 0 {
        everything_follows_a_keyframe(row.skip(1));
        assert(seq![row[0]] + row.skip(1) =~= row);
    } else {
        assert(row =~= Seq::empty());
    }
}

/// Nothing but pictures is ever left out.
pub proof fn only_pictures_are_left_out(row: Seq<Message>, i: int)
    requires
        0 <= i < row.len(),
        !is_delta(row[i]),
    ensures
        transmitted(false, row).contains(row[i]),
    decreases row.len(),
{
    let out = transmitted(false, row);
    if i == 0 {
        assert(out[0] == row[0]);
    } else {
        let m = row[i];
        let rest = row.skip(1);
        assert(rest[i - 1] == m);
        let started = is_keyframe(row[0]);
        let tail = transmitted(started, rest);
        if started {
            everything_follows_a_keyframe(rest);
        } else {
            only_pictures_are_left_out(rest, i - 1);
        }
        assert(tail.contains(m));
        let j = choose|j: int| 0 <= j < tail.len() && tail[j] == m;
        if is_delta(row[0]) {
            assert(out[j] == m);
        } else {
            assert(out[j + 1] == m);
        }
    }
}

/// What a message of the tablet leads to.
pub enum Action {
    Ignore,
    /// The pen did something.
    Pen(Vec<PenEvent>),
    /// Fingers on the second screen did something.
    Touch(Vec<TouchEvent>),
    /// Fingers on the touchpad did something.
    Pad(Vec<TouchEvent>),
    /// A frame goes back.
    Reply(Vec<u8>),
    /// The encoder has to start afresh.
    Keyframe,
    /// Nobody knows this type of message.
    Unknown { ty: u8, len: usize },
}

/// What a message of the tablet means.
pub enum Meaning {
    Ignore,
    Pen { samples: Seq<PenEvent> },
    Touch { events: Seq<TouchEvent> },
    Pad { events: Seq<TouchEvent> },
    Reply { bytes: Seq<u8> },
    Keyframe,
    Unknown { ty: u8, len: nat },
}

impl View for Action {
    type V = Meaning;

    open spec fn view(&self) -> Meaning {
        match self {
            Action::Ignore => Meaning::Ignore,
            Action::Pen(v) => Meaning::Pen { samples: v@ },
            Action::Touch(v) => Meaning::Touch { events: v@ },
            Action::Pad(v) => Meaning::Pad { events: v@ },
            Action::Reply(v) => Meaning::Reply { bytes: v@ },
            Action::Keyframe => Meaning::Keyframe,
            Action::Unknown { ty, len } => Meaning::Unknown { ty: *ty, len: *len as nat },
        }
    }
}

/// The devices of a session.
#[derive(Clone, Copy, Debug, PartialEq, Eq, Structural)]
pub struct Devices {
    /// There is a second screen with a pen.
    pub screen: bool,
    /// The second screen takes fingers too.
    pub touch: bool,
    /// There is a touchpad.
    pub touchpad: bool,
}

/// What a message of the tablet means, or nothing where it is too short. Pen input without a second
/// screen is not even looked at; finger input goes to the touchpad before it goes to the screen.
pub open spec fn meaning(ty: u8, payload: Seq<u8>, devices: Devices) -> Option<Meaning> {
    if ty == MSG_PEN {
        if !devices.screen {
            Some(Meaning::Ignore)
        } else if batch_complete(payload, PEN_EVENT_LEN as int) {
            Some(Meaning::Pen { samples: pen_batch(payload) })
        } else {
            None
        }
    } else if ty == MSG_TOUCH {
        if !batch_complete(payload, TOUCH_EVENT_LEN as int) {
            None
        } else if devices.touchpad {
            Some(Meaning::Pad { events: touch_batch(payload) })
        } else if devices.screen && devices.touch {
            Some(Meaning::Touch { events: touch_batch(payload) })
        } else {
            Some(Meaning::Ignore)
        }
    } else if ty == MSG_PING {
        Some(Meaning::Reply { bytes: framed(MSG_PONG, payload) })
    } else if ty == MSG_KEYFRAME_REQUEST {
        if devices.screen {
            Some(Meaning::Keyframe)
        } else {
            Some(Meaning::Ignore)
        }
    } else {
        Some(Meaning::Unknown { ty, len: payload.len() })
    }
}

/// Decides what a message of the tablet leads to.
pub fn dispatch(ty: u8, payload: &[u8], devices: Devices) -> (r: Result<Action, Truncated>)
    ensures
        match r {
            Ok(action) => meaning(ty, payload@, devices) == Some(action@),
            Err(_) => meaning(ty, payload@, devices) is None,
        },
{
    if ty == MSG_PEN {
        if !devices.screen {
            return Ok(Action::Ignore);
        }
        match parse_pen_batch(payload) {
            Ok(v) => Ok(Action::Pen(v)),
            Err(e) => Err(e),
        }
    } else if ty == MSG_TOUCH {
        match parse_touch_batch(payload) {
            Ok(v) => if devices.touchpad {
                Ok(Action::Pad(v))
            } else if devices.screen && devices.touch {
                Ok(Action::Touch(v))
            } else {
                Ok(Action::Ignore)
            },
            Err(e) => Err(e),
        }
    } else if ty == MSG_PING {
        Ok(Action::Reply(frame(MSG_PONG, payload)))
    } else if ty == MSG_KEYFRAME_REQUEST {
        if devices.screen {
            Ok(Action::Keyframe)
        } else {
            Ok(Action::Ignore)
        }
    } else {
        Ok(Action::Unknown { ty, len: payload.len() })
    }
}

/// What a row of frames means, up to the first that is too short.
pub open spec fn meanings(frames: Seq<(u8, Seq<u8>)>, devices: Devices) -> Seq<Meaning>
    decreases frames.len(),
{
    if frames.len() == 0 || meaning(frames[0].0, frames[0].1, devices) is None {
        Seq::empty()
    } else {
        seq![meaning(frames[0].0, frames[0].1, devices)->0] + meanings(frames.skip(1), devices)
    }
}

/// Whether every frame of a row is long enough.
pub open spec fn all_understood(frames: Seq<(u8, Seq<u8>)>, devices: Devices) -> bool {
    forall|i: int|
        0 <= i < frames.len() ==> meaning((#[trigger] frames[i]).0, frames[i].1, devices) is Some
}

/// What each action means.
pub open spec fn actions_mean(v: Seq<Action>) -> Seq<Meaning> {
    v.map_values(|a: Action| a@)
}

/// What the tablet's input leads to, and whether it ends the session.
pub struct Received {
    pub actions: Vec<Action>,
    pub end: Option<End>,
}

/// The end that a buffer of input means: a frame that is too short, or one that is too large behind
/// frames that are not.
pub open spec fn end_of(buf: Seq<u8>, devices: Devices) -> Option<End> {
    let s = split(buf, FRAME_MAX as int);
    if !all_understood(s.frames, devices) {
        Some(End::Truncated)
    } else {
        match s.oversized {
            Some(len) => Some(End::Oversized(len as usize)),
            None => None,
        }
    }
}

/// Takes the complete frames out of what the tablet has sent and decides what they lead to, in
/// order.
pub fn receive(inbox: &mut Inbox, data: &[u8], devices: Devices) -> (r: Received)
    ensures
        actions_mean(r.actions@) == meanings(
            split(old(inbox)@ + data@, FRAME_MAX as int).frames,
            devices,
        ),
        r.end == end_of(old(inbox)@ + data@, devices),
        final(inbox)@ == split(old(inbox)@ + data@, FRAME_MAX as int).rest,
{
    inbox.receive(data);
    let ghost s = split(inbox@, FRAME_MAX as int);
    let drained = inbox.take_frames(FRAME_MAX);
    let frames = drained.frames;
    let mut actions: Vec<Action> = Vec::new();
    let mut i: usize = 0;
    let total: usize = frames.len();
    proof {
        assert(s.frames.skip(0) =~= s.frames);
        assert(actions_mean(actions@) + meanings(s.frames, devices) =~= meanings(
            s.frames,
            devices,
        ));
    }
    while i < total
        invariant
            total == frames@.len(),
            i <= total,
            s.frames == frames@.map_values(|f: Frame| f@),
            s == split(old(inbox)@ + data@, FRAME_MAX as int),
            final(inbox)@ == s.rest,
            actions_mean(actions@) + meanings(s.frames.skip(i as int), devices) == meanings(
                s.frames,
                devices,
            ),
            forall|k: int|
                0 <= k < i ==> meaning((#[trigger] s.frames[k]).0, s.frames[k].1, devices) is Some,
        decreases total - i,
    {
        assert(s.frames[i as int] == frames@[i as int]@);
        assert(s.frames.skip(i as int)[0] == s.frames[i as int]);
        let ghost before = actions@;
        match dispatch(frames[i].ty, frames[i].payload.as_slice(), devices) {
            Ok(action) => {
                actions.push(action);
                proof {
                    assert(actions_mean(actions@) =~= actions_mean(before).push(action@));
                    assert(s.frames.skip(i as int).skip(1) =~= s.frames.skip(i + 1));
                    assert(actions_mean(before) + (seq![action@] + meanings(
                        s.frames.skip(i + 1),
                        devices,
                    )) =~= actions_mean(actions@) + meanings(s.frames.skip(i + 1), devices));
                }
            },
            Err(_) => {
                assert(actions_mean(actions@) + Seq::<Meaning>::empty() =~= actions_mean(actions@));
                return Received { actions, end: Some(End::Truncated) };
            },
        }
        i = i + 1;
    }
    proof {
        assert(s.frames.skip(total as int) =~= Seq::empty());
        assert(actions_mean(actions@) + Seq::<Meaning>::empty() =~= actions_mean(actions@));
    }
    let end = match drained.oversized {
        Some(len) => Some(End::Oversized(len)),
        None => None,
    };
    Received { actions, end }
}

proof fn lemma_meanings_in_parts(
    a: Seq<(u8, Seq<u8>)>,
    b: Seq<(u8, Seq<u8>)>,
    devices: Devices,
)
    requires
        all_understood(a, devices),
    ensures
        meanings(a + b, devices) == meanings(a, devices) + meanings(b, devices),
    decreases a.len(),
{
    if a.len() == 0 {
        assert(a + b =~= b);
        assert(Seq::<Meaning>::empty() + meanings(b, devices) =~= meanings(b, devices));
    } else {
        let rest = a.skip(1);
        assert(forall|i: int| 0 <= i < rest.len() ==> rest[i] == a[i + 1]);
        lemma_meanings_in_parts(rest, b, devices);
        assert((a + b).skip(1) =~= rest + b);
        assert((a + b)[0] == a[0]);
        assert(meaning(a[0].0, a[0].1, devices) is Some);
        assert(seq![meaning(a[0].0, a[0].1, devices)->0] + (meanings(rest, devices) + meanings(
            b,
            devices,
        )) =~= seq![meaning(a[0].0, a[0].1, devices)->0] + meanings(rest, devices) + meanings(
            b,
            devices,
        ));
    }
}

/// Where the network cuts the tablet's input makes no difference: what arrives in two parts leads to
/// the same actions, in the same order, and to the same end as what arrives in one.
pub proof fn input_may_be_cut_anywhere(first: Seq<u8>, second: Seq<u8>, devices: Devices)
    requires
        end_of(first, devices) is None,
    ensures
        ({
            let a = split(first, FRAME_MAX as int);
            let b = split(a.rest + second, FRAME_MAX as int);
            let whole = split(first + second, FRAME_MAX as int);
            &&& meanings(whole.frames, devices) == meanings(a.frames, devices) + meanings(
                b.frames,
                devices,
            )
            &&& end_of(first + second, devices) == end_of(a.rest + second, devices)
            &&& whole.rest == b.rest
        }),
{
    let a = split(first, FRAME_MAX as int);
    let b = split(a.rest + second, FRAME_MAX as int);
    reads_may_be_cut_anywhere(first, second, FRAME_MAX as int);
    lemma_meanings_in_parts(a.frames, b.frames, devices);
    let all = a.frames + b.frames;
    if all_understood(b.frames, devices) {
        assert forall|i: int| 0 <= i < all.len() implies meaning(
            (#[trigger] all[i]).0,
            all[i].1,
            devices,
        ) is Some by {
            if i < a.frames.len() {
                assert(all[i] == a.frames[i]);
            } else {
                assert(all[i] == b.frames[i - a.frames.len()]);
            }
        }
    } else {
        let k = choose|k: int|
            0 <= k < b.frames.len() && meaning(
                (#[trigger] b.frames[k]).0,
                b.frames[k].1,
                devices,
            ) is None;
        assert(all[a.frames.len() + k] == b.frames[k]);
    }
}

/// What is done is what was meant: an action carries the samples, the reply or the message that its
/// meaning names.
pub proof fn actions_carry_their_meaning(a: Action)
    ensures
        match a {
            Action::Pen(v) => a@ == (Meaning::Pen { samples: v@ }),
            Action::Touch(v) => a@ == (Meaning::Touch { events: v@ }),
            Action::Pad(v) => a@ == (Meaning::Pad { events: v@ }),
            Action::Reply(v) => a@ == (Meaning::Reply { bytes: v@ }),
            Action::Keyframe => a@ == Meaning::Keyframe,
            Action::Ignore => a@ == Meaning::Ignore,
            Action::Unknown { ty, len } => a@ == (Meaning::Unknown { ty, len: len as nat }),
        },
{
}

/// Every message of a row that is long enough is answered in its place, with its own meaning.
pub proof fn every_message_has_its_action(
    frames: Seq<(u8, Seq<u8>)>,
    devices: Devices,
    i: int,
)
    requires
        0 <= i < frames.len(),
        forall|k: int|
            0 <= k <= i ==> meaning((#[trigger] frames[k]).0, frames[k].1, devices) is Some,
    ensures
        i < meanings(frames, devices).len(),
        meaning(frames[i].0, frames[i].1, devices) == Some(meanings(frames, devices)[i]),
    decreases frames.len(),
{
    assert(meaning(frames[0].0, frames[0].1, devices) is Some);
    if i > 0 {
        let rest = frames.skip(1);
        assert(forall|k: int| 0 <= k < rest.len() ==> rest[k] == frames[k + 1]);
        every_message_has_its_action(rest, devices, i - 1);
        assert(meanings(frames, devices)[i] == meanings(rest, devices)[i - 1]);
    }
}

/// There are no more actions than messages, and a message that is too short leads to none, nor does
/// any that follows it.
pub proof fn nothing_follows_a_short_message(
    frames: Seq<(u8, Seq<u8>)>,
    devices: Devices,
    i: int,
)
    requires
        0 <= i < frames.len(),
        meaning(frames[i].0, frames[i].1, devices) is None,
    ensures
        meanings(frames, devices).len() <= i,
    decreases frames.len(),
{
    if i > 0 && meaning(frames[0].0, frames[0].1, devices) is Some {
        let rest = frames.skip(1);
        assert(rest[i - 1] == frames[i]);
        nothing_follows_a_short_message(rest, devices, i - 1);
    }
}

/// Input ends the session only where a message is too short for what it announces or a frame is
/// larger than the limit; a message that is too short comes first.
pub proof fn only_bad_input_ends_a_session(buf: Seq<u8>, devices: Devices)
    ensures
        ({
            let s = split(buf, FRAME_MAX as int);
            let bad = exists|i: int|
                0 <= i < s.frames.len() && meaning(
                    (#[trigger] s.frames[i]).0,
                    s.frames[i].1,
                    devices,
                ) is None;
            &&& end_of(buf, devices) == Some(End::Truncated) <==> bad
            &&& end_of(buf, devices) is None <==> !bad && s.oversized is None
            &&& !bad ==> (s.oversized matches Some(len) ==> end_of(buf, devices) == Some(
                End::Oversized(len as usize),
            ))
        }),
{
}

/// A ping is answered with what it carried, whatever devices there are.
pub proof fn ping_is_echoed(payload: Seq<u8>, devices: Devices)
    ensures
        meaning(MSG_PING, payload, devices) == Some(
            Meaning::Reply { bytes: framed(MSG_PONG, payload) },
        ),
{
}

/// How a session came to its end.
#[derive(Clone, Copy, Debug, PartialEq, Eq, Structural)]
pub enum End {
    /// The tablet hung up.
    Closed,
    /// Reading or writing failed.
    Io,
    /// The compositor took the second screen away.
    OutputRemoved,
    /// The tablet announced a frame that is too large.
    Oversized(usize),
    /// The tablet sent a message that is too short.
    Truncated,
}

/// What came of a try to read from the tablet.
#[derive(Clone, Copy, Debug, PartialEq, Eq, Structural)]
pub enum Reading {
    /// So many bytes.
    Bytes(usize),
    /// Nothing yet.
    NotYet,
    Failed,
}

/// The end that a try to read means, if any.
pub open spec fn end_by_reading(reading: Reading) -> Option<End> {
    match reading {
        Reading::Bytes(n) => if n == 0 {
            Some(End::Closed)
        } else {
            None
        },
        Reading::NotYet => None,
        Reading::Failed => Some(End::Io),
    }
}

/// A session goes on while there is input or none yet, ends in peace when the tablet hangs up, and
/// otherwise only when reading fails.
pub proof fn reading_ends_the_session(n: usize)
    ensures
        n > 0 ==> end_by_reading(Reading::Bytes(n)) is None,
        end_by_reading(Reading::Bytes(0)) == Some(End::Closed),
        end_by_reading(Reading::NotYet) is None,
        end_by_reading(Reading::Failed) == Some(End::Io),
{
}

/// The end that a try to read means, if any. No bytes mean that the tablet hung up.
pub fn after_read(reading: Reading) -> (r: Option<End>)
    ensures
        r == end_by_reading(reading),
{
    match reading {
        Reading::Bytes(n) => if n == 0 {
            Some(End::Closed)
        } else {
            None
        },
        Reading::NotYet => None,
        Reading::Failed => Some(End::Io),
    }
}

/// What the failure is called that a session came to, if it is one.
pub open spec fn failure_text(end: End) -> Option<Seq<char>> {
    match end {
        End::Closed => None,
        End::Io => None,
        End::OutputRemoved => Some("KWin removed the virtual output"@),
        End::Oversized(len) => Some("oversized frame ("@ + decimal(len as nat) + " bytes)"@),
        End::Truncated => Some("truncated message"@),
    }
}

/// A tablet that hangs up or gets lost is no failure; everything else is, and a frame that is too
/// large is reported with its size.
pub proof fn failures_are_reported(end: End)
    ensures
        failure_text(end) is None <==> end == End::Closed || end == End::Io,
        end matches End::Oversized(len) ==> sets(
            failure_text(end)->0,
            "oversized frame ("@,
            len as int,
            " bytes)"@,
        ),
{
    if let End::Oversized(len) = end {
        decimal_reads_back(len as nat);
        let v = decimal(len as nat);
        let none = Seq::<char>::empty();
        parts_set(none, "oversized frame ("@, v, len as int, " bytes)"@, none);
        assert(none + "oversized frame ("@ + v + " bytes)"@ + none =~= failure_text(end)->0);
    }
}

/// Whether a session that came to this end counts as a failure, and as which, in words.
pub fn session_result(end: End) -> (r: Result<(), String>)
    ensures
        match r {
            Ok(_) => failure_text(end) is None,
            Err(why) => failure_text(end) == Some(why@),
        },
{
    match end {
        End::Closed => Ok(()),
        End::Io => Ok(()),
        End::OutputRemoved => Err("KWin removed the virtual output".to_owned()),
        End::Oversized(len) => {
            let mut s = "oversized frame (".to_owned();
            push_decimal(&mut s, len as u64);
            s.append(" bytes)");
            Err(s)
        },
        End::Truncated => Err("truncated message".to_owned()),
    }
}

/// Whether the tablet can decode a codec, by the bits that it sent.
pub open spec fn supports(codecs: u8, codec: Codec) -> bool {
    match codec {
        Codec::H264 => codecs % 2 == 1,
        Codec::Hevc => codecs / 2 % 2 == 1,
        Codec::Av1 => codecs / 4 % 2 == 1,
    }
}

/// The codec of a session: what the tablet prefers if it prefers anything, else what the computer's
/// user chose, if the tablet can decode it; else what the user chose; else the one that every tablet
/// decodes.
pub open spec fn codec_chosen(codecs: u8, preferred: u8, configured: Codec) -> Codec {
    let wanted = match codec_of(preferred) {
        Some(c) => c,
        None => configured,
    };
    if supports(codecs, wanted) {
        wanted
    } else if supports(codecs, configured) {
        configured
    } else {
        Codec::H264
    }
}

/// Whether the tablet can decode a codec.
fn supported(codecs: u8, codec: Codec) -> (r: bool)
    ensures
        r == supports(codecs, codec),
{
    let bit: u8 = codec.wire() - 1;
    assert((codecs & (1u8 << 0u8)) != 0 <==> codecs % 2 == 1) by (bit_vector);
    assert((codecs & (1u8 << 1u8)) != 0 <==> codecs / 2 % 2 == 1) by (bit_vector);
    assert((codecs & (1u8 << 2u8)) != 0 <==> codecs / 4 % 2 == 1) by (bit_vector);
    codecs & (1u8 << bit) != 0
}

/// Chooses the codec of a session.
pub fn choose_codec(hello: &Hello, configured: Codec) -> (r: Codec)
    ensures
        r == codec_chosen(hello.codecs, hello.preferred_codec, configured),
{
    let wanted = match Codec::from_wire(hello.preferred_codec) {
        Some(c) => c,
        None => configured,
    };
    if supported(hello.codecs, wanted) {
        wanted
    } else if supported(hello.codecs, configured) {
        configured
    } else {
        Codec::H264
    }
}

/// A tablet that decodes anything at all that was asked for is never sent what it cannot decode.
pub proof fn chosen_codec_is_supported(codecs: u8, preferred: u8, configured: Codec)
    requires
        supports(codecs, Codec::H264) || supports(codecs, configured) || (codec_of(
            preferred,
        ) matches Some(c) && supports(codecs, c)),
    ensures
        supports(codecs, codec_chosen(codecs, preferred, configured)),
{
}

/// What the computer's user asked for.
pub struct ScreenOptions {
    pub codec: Codec,
    pub width: Option<i32>,
    pub height: Option<i32>,
    pub refresh: Option<u32>,
    pub no_cursor: bool,
}

/// How the second screen is set up.
pub struct ScreenPlan {
    pub codec: Codec,
    pub width: i32,
    pub height: i32,
    pub refresh: u32,
    pub pointer: Pointer,
}

/// The largest even number that is not above `n`: encoders take no odd sizes.
pub open spec fn even(n: int) -> int {
    n - n % 2
}

/// One side of the second screen: what the user asked for, or else what the tablet reports.
pub open spec fn side(asked: Option<i32>, reported: u16) -> int {
    even(
        match asked {
            Some(n) => n as int,
            None => reported as int,
        },
    )
}

/// The refresh rate of the second screen: what the user asked for, or else what the tablet reports,
/// within what is sensible.
pub open spec fn rate(asked: Option<u32>, reported: u16) -> int {
    let n = match asked {
        Some(n) => n as int,
        None => reported as int,
    };
    if n < 30 {
        30
    } else if n > 240 {
        240
    } else {
        n
    }
}

/// Whatever was asked for or reported, a side is even and no more than one pixel short, and the rate
/// is one that a monitor can have.
pub proof fn plans_suit_encoders(
    asked: Option<i32>,
    reported: u16,
    asked_rate: Option<u32>,
    reported_rate: u16,
)
    ensures
        side(asked, reported) % 2 == 0,
        asked matches Some(n) ==> n - 1 <= side(asked, reported) <= n,
        asked is None ==> reported - 1 <= side(asked, reported) <= reported,
        30 <= rate(asked_rate, reported_rate) <= 240,
        asked_rate matches Some(n) ==> (30 <= n <= 240 ==> rate(asked_rate, reported_rate) == n),
{
}

/// Makes one side even.
fn even_side(asked: Option<i32>, reported: u16) -> (r: i32)
    ensures
        r == side(asked, reported),
{
    let n: i32 = match asked {
        Some(n) => n,
        None => reported as i32,
    };
    let r: i32 = n & !1i32;
    assert(n & !1i32 <= n && n - (n & !1i32) <= 1) by (bit_vector);
    assert((n & !1i32) == 2 * ((n & !1i32) >> 1)) by (bit_vector);
    r
}

/// The second screen of a tablet, or why it gets none.
pub open spec fn planned(hello: Hello, options: ScreenOptions) -> Result<ScreenPlan, Seq<char>> {
    let width = side(options.width, hello.width);
    let height = side(options.height, hello.height);
    if width < 64 || height < 64 {
        Err("implausible display size "@ + decimal_int(width) + "x"@ + decimal_int(height))
    } else {
        Ok(
            ScreenPlan {
                codec: codec_chosen(hello.codecs, hello.preferred_codec, options.codec),
                width: width as i32,
                height: height as i32,
                refresh: rate(options.refresh, hello.refresh) as u32,
                pointer: if options.no_cursor {
                    Pointer::Hidden
                } else {
                    Pointer::Embedded
                },
            },
        )
    }
}

/// A second screen is made where both sides have 64 pixels or more. It is as wide and as high as the
/// user asks for, or else as the tablet reports, but for one pixel that makes a side even; its rate
/// is the nearest one from 30 to 240; and the pointer is drawn unless the user does not want it. A
/// refusal names both sides.
pub proof fn screens_suit_the_tablet(hello: Hello, options: ScreenOptions)
    ensures
        ({
            let w = match options.width {
                Some(n) => n as int,
                None => hello.width as int,
            };
            let h = match options.height {
                Some(n) => n as int,
                None => hello.height as int,
            };
            let hz = match options.refresh {
                Some(n) => n as int,
                None => hello.refresh as int,
            };
            &&& planned(hello, options) is Ok <==> w >= 64 && h >= 64
            &&& planned(hello, options) matches Ok(plan) ==> {
                &&& w - 1 <= plan.width <= w && plan.width % 2 == 0
                &&& h - 1 <= plan.height <= h && plan.height % 2 == 0
                &&& 30 <= plan.refresh <= 240
                &&& 30 <= hz <= 240 ==> plan.refresh == hz
                &&& hz < 30 ==> plan.refresh == 30
                &&& hz > 240 ==> plan.refresh == 240
                &&& plan.pointer == Pointer::Hidden <==> options.no_cursor
                &&& plan.pointer == Pointer::Embedded <==> !options.no_cursor
            }
            &&& planned(hello, options) matches Err(why) ==> sets(why, "size "@, w - w % 2, "x"@)
                && ends_in(why, "x"@, h - h % 2)
        }),
{
    let width = side(options.width, hello.width);
    let height = side(options.height, hello.height);
    if width < 64 || height < 64 {
        let why = planned(hello, options)->Err_0;
        decimal_int_reads_back(width);
        decimal_int_reads_back(height);
        reveal_strlit("implausible display size ");
        reveal_strlit("implausible display ");
        reveal_strlit("size ");
        let front = "implausible display "@;
        assert("implausible display size "@ =~= front + "size "@);
        let a = decimal_int(width);
        let b = decimal_int(height);
        parts_set(front, "size "@, a, width, "x"@, b);
        assert(front + "size "@ + a + "x"@ + b =~= why);
        assert(why == ((front + "size "@ + a) + "x"@) + b);
    }
}

/// The codec of a second screen is the one that the tablet prefers, where it decodes that; else the
/// user's, where the tablet decodes that; else the one that every tablet decodes.
pub proof fn codecs_are_chosen_in_order(hello: Hello, options: ScreenOptions)
    ensures
        planned(hello, options) matches Ok(plan) ==> {
            let liked = hello.preferred_codec;
            let known = 1 <= liked <= 3;
            let decodes = |c: Codec| supports(hello.codecs, c);
            &&& liked == 1 && decodes(Codec::H264) ==> plan.codec == Codec::H264
            &&& liked == 2 && decodes(Codec::Hevc) ==> plan.codec == Codec::Hevc
            &&& liked == 3 && decodes(Codec::Av1) ==> plan.codec == Codec::Av1
            &&& !known && decodes(options.codec) ==> plan.codec == options.codec
            &&& liked == 1 && !decodes(Codec::H264) && decodes(options.codec) ==> plan.codec
                == options.codec
            &&& liked == 2 && !decodes(Codec::Hevc) && decodes(options.codec) ==> plan.codec
                == options.codec
            &&& liked == 3 && !decodes(Codec::Av1) && decodes(options.codec) ==> plan.codec
                == options.codec
            &&& !decodes(plan.codec) ==> plan.codec == Codec::H264
        },
{
}

/// A tablet names the codecs that it decodes by one bit each.
pub proof fn codecs_have_a_bit_each(codecs: u8)
    ensures
        supports(codecs, Codec::H264) <==> codecs & 1 != 0,
        supports(codecs, Codec::Hevc) <==> codecs & 2 != 0,
        supports(codecs, Codec::Av1) <==> codecs & 4 != 0,
{
    assert(codecs & 1 != 0 <==> codecs % 2 == 1) by (bit_vector);
    assert(codecs & 2 != 0 <==> codecs / 2 % 2 == 1) by (bit_vector);
    assert(codecs & 4 != 0 <==> codecs / 4 % 2 == 1) by (bit_vector);
}

/// Plans the second screen of a tablet.
pub fn plan_screen(hello: &Hello, options: &ScreenOptions) -> (r: Result<ScreenPlan, String>)
    ensures
        match r {
            Ok(plan) => planned(*hello, *options) == Ok::<ScreenPlan, Seq<char>>(plan),
            Err(why) => planned(*hello, *options) == Err::<ScreenPlan, Seq<char>>(why@),
        },
{
    let codec = choose_codec(hello, options.codec);
    let width: i32 = even_side(options.width, hello.width);
    let height: i32 = even_side(options.height, hello.height);
    if width < 64 || height < 64 {
        let mut why = "implausible display size ".to_owned();
        push_decimal_i32(&mut why, width);
        why.append("x");
        push_decimal_i32(&mut why, height);
        return Err(why);
    }
    let asked: u32 = match options.refresh {
        Some(n) => n,
        None => hello.refresh as u32,
    };
    let refresh: u32 = if asked < 30 {
        30
    } else if asked > 240 {
        240
    } else {
        asked
    };
    let pointer = if options.no_cursor {
        Pointer::Hidden
    } else {
        Pointer::Embedded
    };
    Ok(ScreenPlan { codec, width, height, refresh, pointer })
}

/// The lowest two bytes of a number.
fn low_u16(n: i32) -> (r: u16)
    requires
        n >= 0,
    ensures
        r == n % 0x1_0000,
{
    let u: u32 = n as u32;
    assert(u as u16 == u % 0x1_0000) by (bit_vector);
    u as u16
}

/// The message that announces the stream of a second screen.
pub open spec fn announcement(plan: ScreenPlan) -> Seq<u8> {
    stream_config_bytes(
        wire_of(plan.codec),
        (plan.width % 0x1_0000) as u16,
        (plan.height % 0x1_0000) as u16,
        plan.refresh as u16,
    )
}

/// The tablet is told the codec, the size and the rate of the second screen that was planned for it.
pub proof fn the_tablet_is_told_the_plan(plan: ScreenPlan)
    requires
        0 <= plan.width < 0x1_0000,
        0 <= plan.height < 0x1_0000,
        plan.refresh < 0x1_0000,
    ensures
        ({
            let s = announcement(plan);
            &&& s.len() == 12
            &&& s[0] == 0x81
            &&& plan.codec == Codec::H264 <==> s[5] == 1
            &&& plan.codec == Codec::Hevc <==> s[5] == 2
            &&& plan.codec == Codec::Av1 <==> s[5] == 3
            &&& u16_at(s, 6) == plan.width
            &&& u16_at(s, 8) == plan.height
            &&& u16_at(s, 10) == plan.refresh
        }),
{
    stream_config_reads_back(
        wire_of(plan.codec),
        (plan.width % 0x1_0000) as u16,
        (plan.height % 0x1_0000) as u16,
        plan.refresh as u16,
    );
}

impl ScreenPlan {
    /// The message that announces the stream. Sizes go out as their lowest two bytes.
    pub fn stream_config(&self) -> (r: Vec<u8>)
        requires
            self.width >= 0,
            self.height >= 0,
            self.refresh < 0x1_0000,
        ensures
            r@ == announcement(*self),
    {
        stream_config(
            self.codec.wire(),
            low_u16(self.width),
            low_u16(self.height),
            self.refresh as u16,
        )
    }
}

} // verus!
