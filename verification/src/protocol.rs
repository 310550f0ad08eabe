//! The wire protocol spoken with the tablet app. All integers are little-endian.
//!
//! A frame is `u8 type, u32 payload_len, payload`. Floating-point fields travel as
//! IEEE-754 single precision and are kept here as their 32 raw bits.
use vstd::prelude::*;

use crate::bytes::{len_field, push_bytes, push_u16, push_u32, push_u64};
use crate::bytes::{u16_at, u16_le, u32_at, u32_le, u64_at, u64_le};
use crate::bytes::{u16_round_trip, u32_round_trip, u64_round_trip};

verus! {

/// The version of the protocol that the server speaks.
pub const VERSION: u16 = 2;
/// The first version, whose greeting ends before the mode and the sound. It is understood too.
pub const FIRST_VERSION: u16 = 1;

// tablet -> server
pub const MSG_HELLO: u8 = 0x01;
pub const MSG_PEN: u8 = 0x02;
pub const MSG_TOUCH: u8 = 0x03;
pub const MSG_PING: u8 = 0x04;
pub const MSG_KEYFRAME_REQUEST: u8 = 0x05;
pub const MSG_DISCOVER: u8 = 0x06;
pub const MSG_AUTH_RESPONSE: u8 = 0x07;

// server -> tablet
pub const MSG_STREAM_CONFIG: u8 = 0x81;
pub const MSG_VIDEO: u8 = 0x82;
pub const MSG_AUDIO_CONFIG: u8 = 0x83;
pub const MSG_PONG: u8 = 0x84;
pub const MSG_AUDIO: u8 = 0x85;
pub const MSG_AUTH_CHALLENGE: u8 = 0x86;
pub const MSG_AUTH_OK: u8 = 0x87;
pub const MSG_AUTH_FAIL: u8 = 0x88;

pub const MODE_SCREEN: u8 = 0;
pub const MODE_TOUCHPAD: u8 = 1;

pub const AUDIO_NONE: u8 = 0;
pub const AUDIO_TABLET: u8 = 1;
pub const AUDIO_BOTH: u8 = 2;

pub const AUDIO_FORMAT_S16LE: u8 = 1;

pub const CODEC_H264: u8 = 1;
pub const CODEC_HEVC: u8 = 2;
pub const CODEC_AV1: u8 = 3;

pub const VIDEO_FLAG_KEYFRAME: u8 = 1;

pub const PEN_HOVER_ENTER: u8 = 0;
pub const PEN_HOVER_MOVE: u8 = 1;
pub const PEN_HOVER_EXIT: u8 = 2;
pub const PEN_DOWN: u8 = 3;
pub const PEN_MOVE: u8 = 4;
pub const PEN_UP: u8 = 5;
pub const PEN_CANCEL: u8 = 6;

pub const TOOL_PEN: u8 = 1;
pub const TOOL_ERASER: u8 = 2;

pub const BTN_PRIMARY: u8 = 1;
pub const BTN_SECONDARY: u8 = 2;

pub const TOUCH_DOWN: u8 = 0;
pub const TOUCH_MOVE: u8 = 1;
pub const TOUCH_UP: u8 = 2;
pub const TOUCH_CANCEL: u8 = 3;

/// Bytes in front of every payload: the type and the payload length.
pub const FRAME_HEADER: usize = 5;
/// Largest payload accepted in a session.
pub const FRAME_MAX: usize = 0x10_0000;
/// Largest payload accepted while a tablet is still being authenticated.
pub const HANDSHAKE_FRAME_MAX: usize = 0x1_0000;

/// What the tablet says of itself when it connects.
#[derive(Clone, Copy, Debug, PartialEq, Eq, Structural)]
pub struct Hello {
    pub version: u16,
    pub width: u16,
    pub height: u16,
    pub refresh: u16,
    pub codecs: u8,
    pub preferred_codec: u8,
    /// Raw bits of the width in millimetres.
    pub width_mm: u32,
    /// Raw bits of the height in millimetres.
    pub height_mm: u32,
    /// `MODE_SCREEN` or `MODE_TOUCHPAD`.
    pub mode: u8,
    /// `AUDIO_NONE`, `AUDIO_TABLET` or `AUDIO_BOTH`.
    pub audio: u8,
}

/// One stylus sample; the six measured quantities are raw float bits.
#[derive(Clone, Copy, Debug, PartialEq, Eq, Structural)]
pub struct PenEvent {
    pub t_ns: u64,
    pub action: u8,
    pub tool: u8,
    pub buttons: u8,
    pub x: u32,
    pub y: u32,
    pub pressure: u32,
    pub tilt_x: u32,
    pub tilt_y: u32,
    pub distance: u32,
}

/// One finger sample; the four measured quantities are raw float bits.
#[derive(Clone, Copy, Debug, PartialEq, Eq, Structural)]
pub struct TouchEvent {
    pub t_ns: u64,
    pub action: u8,
    pub id: u8,
    pub x: u32,
    pub y: u32,
    pub pressure: u32,
    pub major: u32,
}

/// A message ended before all of its fields had been read.
#[derive(Clone, Copy, Debug, PartialEq, Eq, Structural)]
pub struct Truncated;

/// A cursor over the payload of one message.
pub struct Reader<'a> {
    buf: &'a [u8],
    pos: usize,
}

impl<'a> Reader<'a> {
    #[verifier::type_invariant]
    spec fn in_bounds(self) -> bool {
        self.pos <= self.buf@.len()
    }

    /// The bytes that have not been read yet.
    pub closed spec fn rest(&self) -> Seq<u8> {
        self.buf@.skip(self.pos as int)
    }

    pub fn new(buf: &'a [u8]) -> (r: Self)
        ensures
            r.rest() == buf@,
    {
        let r = Self { buf, pos: 0 };
        assert(r.rest() =~= buf@);
        r
    }

    /// Where the next `n` bytes start, if so many are left.
    fn take(&mut self, n: usize) -> (r: Result<&'a [u8], Truncated>)
        ensures
            match r {
                Ok(s) => {
                    &&& n <= old(self).rest().len()
                    &&& s@ == old(self).rest().take(n as int)
                    &&& final(self).rest() == old(self).rest().skip(n as int)
                },
                Err(_) => {
                    &&& n > old(self).rest().len()
                    &&& final(self).rest() == old(self).rest()
                },
            },
    {
        proof {
            use_type_invariant(&*self);
        }
        if n > self.buf.len() - self.pos {
            return Err(Truncated);
        }
        let s = vstd::slice::slice_subrange(self.buf, self.pos, self.pos + n);
        self.pos = self.pos + n;
        assert(s@ =~= old(self).rest().take(n as int));
        assert(self.rest() =~= old(self).rest().skip(n as int));
        Ok(s)
    }

    pub fn u8(&mut self) -> (r: Result<u8, Truncated>)
        ensures
            match r {
                Ok(x) => {
                    &&& old(self).rest().len() >= 1
                    &&& x == old(self).rest()[0]
                    &&& final(self).rest() == old(self).rest().skip(1)
                },
                Err(_) => old(self).rest().len() < 1 && final(self).rest() == old(self).rest(),
            },
    {
        match self.take(1) {
            Ok(s) => Ok(s[0]),
            Err(e) => Err(e),
        }
    }

    pub fn u16(&mut self) -> (r: Result<u16, Truncated>)
        ensures
            match r {
                Ok(x) => {
                    &&& old(self).rest().len() >= 2
                    &&& x == u16_at(old(self).rest(), 0)
                    &&& final(self).rest() == old(self).rest().skip(2)
                },
                Err(_) => old(self).rest().len() < 2 && final(self).rest() == old(self).rest(),
            },
    {
        match self.take(2) {
            Ok(s) => Ok(s[0] as u16 + 0x100 * s[1] as u16),
            Err(e) => Err(e),
        }
    }

    pub fn u64(&mut self) -> (r: Result<u64, Truncated>)
        ensures
            match r {
                Ok(x) => {
                    &&& old(self).rest().len() >= 8
                    &&& x == u64_at(old(self).rest(), 0)
                    &&& final(self).rest() == old(self).rest().skip(8)
                },
                Err(_) => old(self).rest().len() < 8 && final(self).rest() == old(self).rest(),
            },
    {
        match self.take(8) {
            Ok(s) => Ok(read_u32(s, 0) as u64 + 0x1_0000_0000 * read_u32(s, 4) as u64),
            Err(e) => Err(e),
        }
    }

    /// The raw bits of a single-precision float.
    pub fn f32_bits(&mut self) -> (r: Result<u32, Truncated>)
        ensures
            match r {
                Ok(x) => {
                    &&& old(self).rest().len() >= 4
                    &&& x == u32_at(old(self).rest(), 0)
                    &&& final(self).rest() == old(self).rest().skip(4)
                },
                Err(_) => old(self).rest().len() < 4 && final(self).rest() == old(self).rest(),
            },
    {
        match self.take(4) {
            Ok(s) => Ok(read_u32(s, 0)),
            Err(e) => Err(e),
        }
    }
}

/// The number whose four little-endian bytes start at `at`.
pub fn read_u32(s: &[u8], at: usize) -> (r: u32)
    requires
        at + 4 <= s@.len(),
    ensures
        r == u32_at(s@, at as int),
{
    s[at] as u32 + 0x100 * s[at + 1] as u32 + 0x1_0000 * s[at + 2] as u32 + 0x100_0000 * s[at
        + 3] as u32
}

/// Bytes of a greeting with all its fields; whatever follows is ignored.
pub const HELLO_LEN: usize = 20;
/// Bytes of a greeting in the first version, which says nothing of the mode and the sound.
pub const FIRST_HELLO_LEN: usize = 18;
/// Bytes of one stylus sample.
pub const PEN_EVENT_LEN: usize = 36;
/// Bytes of one finger sample.
pub const TOUCH_EVENT_LEN: usize = 28;

/// The greeting that the first bytes of `p` spell. One that does not say what the tablet is used as
/// means a second screen, and one that says nothing of the sound leaves it at the computer.
pub open spec fn hello_at(p: Seq<u8>) -> Hello {
    Hello {
        version: u16_at(p, 0),
        width: u16_at(p, 2),
        height: u16_at(p, 4),
        refresh: u16_at(p, 6),
        codecs: p[8],
        preferred_codec: p[9],
        width_mm: u32_at(p, 10),
        height_mm: u32_at(p, 14),
        mode: if p.len() > 18 {
            p[18]
        } else {
            MODE_SCREEN
        },
        audio: if p.len() > 19 {
            p[19]
        } else {
            AUDIO_NONE
        },
    }
}

/// The stylus sample that starts at `at`.
pub open spec fn pen_event_at(p: Seq<u8>, at: int) -> PenEvent {
    PenEvent {
        t_ns: u64_at(p, at),
        action: p[at + 8],
        tool: p[at + 9],
        buttons: p[at + 10],
        x: u32_at(p, at + 12),
        y: u32_at(p, at + 16),
        pressure: u32_at(p, at + 20),
        tilt_x: u32_at(p, at + 24),
        tilt_y: u32_at(p, at + 28),
        distance: u32_at(p, at + 32),
    }
}

/// The finger sample that starts at `at`.
pub open spec fn touch_event_at(p: Seq<u8>, at: int) -> TouchEvent {
    TouchEvent {
        t_ns: u64_at(p, at),
        action: p[at + 8],
        id: p[at + 9],
        x: u32_at(p, at + 12),
        y: u32_at(p, at + 16),
        pressure: u32_at(p, at + 20),
        major: u32_at(p, at + 24),
    }
}

/// Whether `p` holds a count and as many samples of `each` bytes as it says.
pub open spec fn batch_complete(p: Seq<u8>, each: int) -> bool {
    p.len() >= 2 && p.len() >= 2 + each * u16_at(p, 0)
}

/// The stylus samples of a complete batch.
pub open spec fn pen_batch(p: Seq<u8>) -> Seq<PenEvent> {
    Seq::new(u16_at(p, 0) as nat, |i: int| pen_event_at(p, 2 + PEN_EVENT_LEN * i))
}

/// The finger samples of a complete batch.
pub open spec fn touch_batch(p: Seq<u8>) -> Seq<TouchEvent> {
    Seq::new(u16_at(p, 0) as nat, |i: int| touch_event_at(p, 2 + TOUCH_EVENT_LEN * i))
}

/// Reads the tablet's greeting.
pub fn parse_hello(p: &[u8]) -> (r: Result<Hello, Truncated>)
    ensures
        r == (if p@.len() >= FIRST_HELLO_LEN {
            Ok::<Hello, Truncated>(hello_at(p@))
        } else {
            Err(Truncated)
        }),
{
    let mut r = Reader::new(p);
    let version = r.u16()?;
    let width = r.u16()?;
    let height = r.u16()?;
    let refresh = r.u16()?;
    let codecs = r.u8()?;
    let preferred_codec = r.u8()?;
    let width_mm = r.f32_bits()?;
    let height_mm = r.f32_bits()?;
    let mode: u8 = match r.u8() {
        Ok(mode) => mode,
        Err(_) => MODE_SCREEN,
    };
    let audio: u8 = match r.u8() {
        Ok(audio) => audio,
        Err(_) => AUDIO_NONE,
    };
    Ok(
        Hello {
            version,
            width,
            height,
            refresh,
            codecs,
            preferred_codec,
            width_mm,
            height_mm,
            mode,
            audio,
        },
    )
}

fn parse_pen_event(r: &mut Reader) -> (res: Result<PenEvent, Truncated>)
    ensures
        match res {
            Ok(e) => {
                &&& old(r).rest().len() >= PEN_EVENT_LEN
                &&& e == pen_event_at(old(r).rest(), 0)
                &&& final(r).rest() =~= old(r).rest().skip(PEN_EVENT_LEN as int)
            },
            Err(_) => old(r).rest().len() < PEN_EVENT_LEN,
        },
{
    let t_ns = r.u64()?;
    let action = r.u8()?;
    let tool = r.u8()?;
    let buttons = r.u8()?;
    let _pad = r.u8()?;
    let x = r.f32_bits()?;
    let y = r.f32_bits()?;
    let pressure = r.f32_bits()?;
    let tilt_x = r.f32_bits()?;
    let tilt_y = r.f32_bits()?;
    let distance = r.f32_bits()?;
    Ok(PenEvent { t_ns, action, tool, buttons, x, y, pressure, tilt_x, tilt_y, distance })
}

fn parse_touch_event(r: &mut Reader) -> (res: Result<TouchEvent, Truncated>)
    ensures
        match res {
            Ok(e) => {
                &&& old(r).rest().len() >= TOUCH_EVENT_LEN
                &&& e == touch_event_at(old(r).rest(), 0)
                &&& final(r).rest() =~= old(r).rest().skip(TOUCH_EVENT_LEN as int)
            },
            Err(_) => old(r).rest().len() < TOUCH_EVENT_LEN,
        },
{
    let t_ns = r.u64()?;
    let action = r.u8()?;
    let id = r.u8()?;
    let _pad = r.u16()?;
    let x = r.f32_bits()?;
    let y = r.f32_bits()?;
    let pressure = r.f32_bits()?;
    let major = r.f32_bits()?;
    Ok(TouchEvent { t_ns, action, id, x, y, pressure, major })
}

/// Reads a batch of stylus samples.
pub fn parse_pen_batch(p: &[u8]) -> (r: Result<Vec<PenEvent>, Truncated>)
    ensures
        match r {
            Ok(v) => batch_complete(p@, PEN_EVENT_LEN as int) && v@ == pen_batch(p@),
            Err(_) => !batch_complete(p@, PEN_EVENT_LEN as int),
        },
{
    let mut r = Reader::new(p);
    let n: usize = r.u16()? as usize;
    let mut v: Vec<PenEvent> = Vec::with_capacity(n);
    let mut i: usize = 0;
    while i < n
        invariant
            i <= n,
            p@.len() >= 2,
            n == u16_at(p@, 0),
            2 + PEN_EVENT_LEN * i <= p@.len(),
            r.rest() == p@.skip(2 + PEN_EVENT_LEN * i),
            v@ == pen_batch(p@).take(i as int),
        decreases n - i,
    {
        let ghost before = r.rest();
        match parse_pen_event(&mut r) {
            Ok(e) => {
                assert(e == pen_event_at(p@, 2 + PEN_EVENT_LEN * i));
                v.push(e);
                i = i + 1;
                assert(r.rest() =~= p@.skip(2 + PEN_EVENT_LEN * i));
                assert(v@ =~= pen_batch(p@).take(i as int));
            },
            Err(e) => {
                return Err(e);
            },
        }
    }
    assert(v@ =~= pen_batch(p@));
    Ok(v)
}

/// Reads a batch of finger samples.
pub fn parse_touch_batch(p: &[u8]) -> (r: Result<Vec<TouchEvent>, Truncated>)
    ensures
        match r {
            Ok(v) => batch_complete(p@, TOUCH_EVENT_LEN as int) && v@ == touch_batch(p@),
            Err(_) => !batch_complete(p@, TOUCH_EVENT_LEN as int),
        },
{
    let mut r = Reader::new(p);
    let n: usize = r.u16()? as usize;
    let mut v: Vec<TouchEvent> = Vec::with_capacity(n);
    let mut i: usize = 0;
    while i < n
        invariant
            i <= n,
            p@.len() >= 2,
            n == u16_at(p@, 0),
            2 + TOUCH_EVENT_LEN * i <= p@.len(),
            r.rest() == p@.skip(2 + TOUCH_EVENT_LEN * i),
            v@ == touch_batch(p@).take(i as int),
        decreases n - i,
    {
        match parse_touch_event(&mut r) {
            Ok(e) => {
                assert(e == touch_event_at(p@, 2 + TOUCH_EVENT_LEN * i));
                v.push(e);
                i = i + 1;
                assert(r.rest() =~= p@.skip(2 + TOUCH_EVENT_LEN * i));
                assert(v@ =~= touch_batch(p@).take(i as int));
            },
            Err(e) => {
                return Err(e);
            },
        }
    }
    assert(v@ =~= touch_batch(p@));
    Ok(v)
}

/// A payload behind its type and its length.
pub open spec fn framed(ty: u8, payload: Seq<u8>) -> Seq<u8> {
    seq![ty] + u32_le((payload.len() % 0x1_0000_0000) as u32) + payload
}

/// The message that announces the video stream.
pub open spec fn stream_config_bytes(codec: u8, width: u16, height: u16, fps: u16) -> Seq<u8> {
    framed(MSG_STREAM_CONFIG, seq![codec] + u16_le(width) + u16_le(height) + u16_le(fps))
}

/// The message that announces the sound.
pub open spec fn audio_config_bytes(format: u8, rate: u32, channels: u8) -> Seq<u8> {
    framed(MSG_AUDIO_CONFIG, seq![format] + u32_le(rate) + seq![channels])
}

/// The message with a piece of sound.
pub open spec fn audio_chunk_bytes(pts_ns: u64, data: Seq<u8>) -> Seq<u8> {
    framed(MSG_AUDIO, u64_le(pts_ns) + data)
}

/// The message with an encoded picture.
pub open spec fn video_frame_bytes(pts_ns: u64, keyframe: bool, data: Seq<u8>) -> Seq<u8> {
    framed(
        MSG_VIDEO,
        u64_le(pts_ns) + seq![if keyframe { VIDEO_FLAG_KEYFRAME } else { 0u8 }] + data,
    )
}

/// A header, a head and a tail in a row are a frame when the header counts both.
proof fn lemma_framed_parts(ty: u8, len: u32, head: Seq<u8>, tail: Seq<u8>)
    requires
        len == (head + tail).len() % 0x1_0000_0000,
    ensures
        Seq::<u8>::empty().push(ty) + u32_le(len) + head + tail == framed(ty, head + tail),
        seq![ty] + u32_le(len) + head + tail == framed(ty, head + tail),
{
    assert(Seq::<u8>::empty().push(ty) =~= seq![ty]);
    assert(seq![ty] + u32_le(len) + head + tail =~= seq![ty] + u32_le(len) + (head + tail));
}

/// Builds a framed message.
pub fn frame(ty: u8, payload: &[u8]) -> (v: Vec<u8>)
    ensures
        v@ == framed(ty, payload@),
{
    let mut v: Vec<u8> = Vec::new();
    v.push(ty);
    push_u32(&mut v, len_field(0, payload.len()));
    push_bytes(&mut v, payload);
    assert(v@ =~= framed(ty, payload@));
    v
}

/// Announces the video stream that follows.
pub fn stream_config(codec: u8, width: u16, height: u16, fps: u16) -> (v: Vec<u8>)
    ensures
        v@ == stream_config_bytes(codec, width, height, fps),
{
    let mut p: Vec<u8> = Vec::with_capacity(7);
    p.push(codec);
    push_u16(&mut p, width);
    push_u16(&mut p, height);
    push_u16(&mut p, fps);
    assert(p@ =~= seq![codec] + u16_le(width) + u16_le(height) + u16_le(fps));
    frame(MSG_STREAM_CONFIG, p.as_slice())
}

/// Announces the audio stream that follows.
pub fn audio_config(format: u8, rate: u32, channels: u8) -> (v: Vec<u8>)
    ensures
        v@ == audio_config_bytes(format, rate, channels),
{
    let mut p: Vec<u8> = Vec::with_capacity(6);
    p.push(format);
    push_u32(&mut p, rate);
    p.push(channels);
    assert(p@ =~= seq![format] + u32_le(rate) + seq![channels]);
    frame(MSG_AUDIO_CONFIG, p.as_slice())
}

/// Frames one chunk of audio samples.
pub fn audio_chunk(pts_ns: u64, data: &[u8]) -> (v: Vec<u8>)
    ensures
        v@ == audio_chunk_bytes(pts_ns, data@),
{
    let len = len_field(8, data.len());
    let mut v: Vec<u8> = Vec::new();
    v.push(MSG_AUDIO);
    push_u32(&mut v, len);
    push_u64(&mut v, pts_ns);
    push_bytes(&mut v, data);
    proof {
        let stamp = u64_le(pts_ns);
        assert(stamp.len() == 8);
        assert(len == (stamp + data@).len() % 0x1_0000_0000);
        lemma_framed_parts(MSG_AUDIO, len, stamp, data@);
    }
    v
}

/// Frames one encoded picture.
pub fn video_frame(pts_ns: u64, keyframe: bool, data: &[u8]) -> (v: Vec<u8>)
    ensures
        v@ == video_frame_bytes(pts_ns, keyframe, data@),
{
    let flags: u8 = if keyframe {
        VIDEO_FLAG_KEYFRAME
    } else {
        0
    };
    let len = len_field(9, data.len());
    let mut v: Vec<u8> = Vec::new();
    v.push(MSG_VIDEO);
    push_u32(&mut v, len);
    push_u64(&mut v, pts_ns);
    v.push(flags);
    push_bytes(&mut v, data);
    proof {
        let stamp = u64_le(pts_ns);
        let head = stamp + seq![flags];
        assert(head.len() == 9);
        assert(len == (head + data@).len() % 0x1_0000_0000);
        lemma_framed_parts(MSG_VIDEO, len, head, data@);
        assert(v@ == (seq![MSG_VIDEO] + u32_le(len) + stamp).push(flags) + data@);
        assert((seq![MSG_VIDEO] + u32_le(len) + stamp).push(flags) =~= seq![MSG_VIDEO] + u32_le(len)
            + head);
    }
    v
}

/// The numbers of the protocol.
pub proof fn numbers_of_the_protocol()
    ensures
        VERSION == 2 && FIRST_VERSION == 1,
        MSG_HELLO == 1 && MSG_PEN == 2 && MSG_TOUCH == 3 && MSG_PING == 4,
        MSG_KEYFRAME_REQUEST == 5 && MSG_DISCOVER == 6 && MSG_AUTH_RESPONSE == 7,
        MSG_STREAM_CONFIG == 0x81 && MSG_VIDEO == 0x82 && MSG_AUDIO_CONFIG == 0x83,
        MSG_PONG == 0x84 && MSG_AUDIO == 0x85 && MSG_AUTH_CHALLENGE == 0x86,
        MSG_AUTH_OK == 0x87 && MSG_AUTH_FAIL == 0x88,
        MODE_SCREEN == 0 && MODE_TOUCHPAD == 1,
        AUDIO_NONE == 0 && AUDIO_TABLET == 1 && AUDIO_BOTH == 2 && AUDIO_FORMAT_S16LE == 1,
        CODEC_H264 == 1 && CODEC_HEVC == 2 && CODEC_AV1 == 3 && VIDEO_FLAG_KEYFRAME == 1,
        PEN_HOVER_ENTER == 0 && PEN_HOVER_MOVE == 1 && PEN_HOVER_EXIT == 2 && PEN_DOWN == 3,
        PEN_MOVE == 4 && PEN_UP == 5 && PEN_CANCEL == 6,
        TOOL_PEN == 1 && TOOL_ERASER == 2 && BTN_PRIMARY == 1 && BTN_SECONDARY == 2,
        TOUCH_DOWN == 0 && TOUCH_MOVE == 1 && TOUCH_UP == 2 && TOUCH_CANCEL == 3,
        FRAME_HEADER == 5 && FRAME_MAX == 0x10_0000 && HANDSHAKE_FRAME_MAX == 0x1_0000,
        HELLO_LEN == 20 && FIRST_HELLO_LEN == 18 && PEN_EVENT_LEN == 36 && TOUCH_EVENT_LEN == 28,
{
}

/// A frame says what it holds: its type, how long its payload is, and the payload.
pub proof fn frames_say_what_they_hold(ty: u8, payload: Seq<u8>)
    requires
        payload.len() < 0x1_0000_0000,
    ensures
        framed(ty, payload).len() == 5 + payload.len(),
        framed(ty, payload)[0] == ty,
        u32_at(framed(ty, payload), 1) == payload.len(),
        framed(ty, payload).skip(5) == payload,
{
    let n = payload.len() as u32;
    let s = framed(ty, payload);
    u32_round_trip(n);
    let field = u32_le(n);
    assert(s[1] == field[0] && s[2] == field[1] && s[3] == field[2] && s[4] == field[3]);
    assert(s.skip(5) =~= payload);
}

/// A number that stands in a row of bytes is read there.
proof fn lemma_u64_inside(s: Seq<u8>, at: int, x: u64)
    requires
        0 <= at,
        at + 8 <= s.len(),
        s.subrange(at, at + 8) == u64_le(x),
    ensures
        u64_at(s, at) == x,
{
    let t = s.subrange(at, at + 8);
    u64_round_trip(x);
    assert(forall|k: int| 0 <= k < 8 ==> t[k] == s[at + k]);
    assert(u32_at(t, 0) == u32_at(s, at));
    assert(u32_at(t, 4) == u32_at(s, at + 4));
}

/// The tablet reads the announcement of the stream: the codec, the width, the height and the rate.
pub proof fn stream_config_reads_back(codec: u8, width: u16, height: u16, fps: u16)
    ensures
        ({
            let s = stream_config_bytes(codec, width, height, fps);
            &&& s.len() == 12
            &&& s[0] == 0x81
            &&& u32_at(s, 1) == 7
            &&& s[5] == codec
            &&& u16_at(s, 6) == width
            &&& u16_at(s, 8) == height
            &&& u16_at(s, 10) == fps
        }),
{
    let p = seq![codec] + u16_le(width) + u16_le(height) + u16_le(fps);
    let s = stream_config_bytes(codec, width, height, fps);
    frames_say_what_they_hold(MSG_STREAM_CONFIG, p);
    u16_round_trip(width);
    u16_round_trip(height);
    u16_round_trip(fps);
    assert(forall|k: int| 0 <= k < 7 ==> s.skip(5)[k] == s[5 + k]);
    assert(p[1] == u16_le(width)[0] && p[2] == u16_le(width)[1]);
    assert(p[3] == u16_le(height)[0] && p[4] == u16_le(height)[1]);
    assert(p[5] == u16_le(fps)[0] && p[6] == u16_le(fps)[1]);
}

/// The tablet reads the announcement of the sound: the format, the rate and the channels.
pub proof fn audio_config_reads_back(format: u8, rate: u32, channels: u8)
    ensures
        ({
            let s = audio_config_bytes(format, rate, channels);
            &&& s.len() == 11
            &&& s[0] == 0x83
            &&& u32_at(s, 1) == 6
            &&& s[5] == format
            &&& u32_at(s, 6) == rate
            &&& s[10] == channels
        }),
{
    let p = seq![format] + u32_le(rate) + seq![channels];
    let s = audio_config_bytes(format, rate, channels);
    frames_say_what_they_hold(MSG_AUDIO_CONFIG, p);
    u32_round_trip(rate);
    let field = u32_le(rate);
    assert(forall|k: int| 0 <= k < 6 ==> s.skip(5)[k] == s[5 + k]);
    assert(p[1] == field[0] && p[2] == field[1] && p[3] == field[2] && p[4] == field[3]);
}

/// The tablet reads a piece of sound: when it is to be heard, and the samples.
pub proof fn audio_chunk_reads_back(pts_ns: u64, data: Seq<u8>)
    requires
        8 + data.len() < 0x1_0000_0000,
    ensures
        ({
            let s = audio_chunk_bytes(pts_ns, data);
            &&& s[0] == 0x85
            &&& u32_at(s, 1) == 8 + data.len()
            &&& u64_at(s, 5) == pts_ns
            &&& s.skip(13) == data
        }),
{
    let p = u64_le(pts_ns) + data;
    let s = audio_chunk_bytes(pts_ns, data);
    u64_round_trip(pts_ns);
    frames_say_what_they_hold(MSG_AUDIO, p);
    assert(s.skip(5) == p);
    assert(s.subrange(5, 13) =~= p.take(8));
    assert(p.take(8) =~= u64_le(pts_ns));
    lemma_u64_inside(s, 5, pts_ns);
    assert(s.skip(13) =~= p.skip(8));
    assert(p.skip(8) =~= data);
}

/// The tablet reads a picture: when it is to be shown, whether it can be shown without an earlier one,
/// and the picture itself.
pub proof fn video_frame_reads_back(pts_ns: u64, keyframe: bool, data: Seq<u8>)
    requires
        9 + data.len() < 0x1_0000_0000,
    ensures
        ({
            let s = video_frame_bytes(pts_ns, keyframe, data);
            &&& s[0] == 0x82
            &&& u32_at(s, 1) == 9 + data.len()
            &&& u64_at(s, 5) == pts_ns
            &&& s[13] == 0 || s[13] == 1
            &&& keyframe <==> s[13] % 2 == 1
            &&& s.skip(14) == data
        }),
{
    let flag: u8 = if keyframe {
        VIDEO_FLAG_KEYFRAME
    } else {
        0u8
    };
    let p = u64_le(pts_ns) + seq![flag] + data;
    let s = video_frame_bytes(pts_ns, keyframe, data);
    u64_round_trip(pts_ns);
    frames_say_what_they_hold(MSG_VIDEO, p);
    assert(s.skip(5) == p);
    assert(s.subrange(5, 13) =~= p.take(8));
    assert(p.take(8) =~= u64_le(pts_ns));
    lemma_u64_inside(s, 5, pts_ns);
    assert(s[13] == s.skip(5)[8]);
    assert(s.skip(14) =~= p.skip(9));
    assert(p.skip(9) =~= data);
}

} // verus!
