//! Cutting the byte stream of a connection back into frames.
use vstd::prelude::*;

use crate::bytes::{copy_range, push_bytes};
use crate::bytes::{u32_at, u32_le, u32_round_trip};
use crate::protocol::{framed, read_u32, FRAME_HEADER};

verus! {

/// One frame: its type and its payload.
#[derive(Debug)]
pub struct Frame {
    pub ty: u8,
    pub payload: Vec<u8>,
}

impl View for Frame {
    type V = (u8, Seq<u8>);

    open spec fn view(&self) -> (u8, Seq<u8>) {
        (self.ty, self.payload@)
    }
}

/// What a stretch of the stream holds.
#[verifier::ext_equal]
pub struct Split {
    /// The complete frames, in order.
    pub frames: Seq<(u8, Seq<u8>)>,
    /// The bytes behind the last complete frame.
    pub rest: Seq<u8>,
    /// The announced payload length of a frame that is too large to accept.
    pub oversized: Option<int>,
}

/// The frames that `buf` starts with, up to the first one that is incomplete or announces a
/// payload of more than `limit` bytes.
pub open spec fn split(buf: Seq<u8>, limit: int) -> Split
    decreases buf.len(),
{
    if buf.len() < FRAME_HEADER {
        Split { frames: seq![], rest: buf, oversized: None }
    } else {
        let len = u32_at(buf, 1) as int;
        if len > limit {
            Split { frames: seq![], rest: buf, oversized: Some(len) }
        } else if buf.len() < FRAME_HEADER + len {
            Split { frames: seq![], rest: buf, oversized: None }
        } else {
            let tail = split(buf.skip(FRAME_HEADER + len), limit);
            Split {
                frames: seq![(buf[0], buf.subrange(FRAME_HEADER as int, FRAME_HEADER + len))]
                    + tail.frames,
                rest: tail.rest,
                oversized: tail.oversized,
            }
        }
    }
}

/// The payload length that a header announces, if it is within the limit.
pub open spec fn announced(header: Seq<u8>, limit: usize) -> Result<usize, usize> {
    if u32_at(header, 1) <= limit {
        Ok::<usize, usize>(u32_at(header, 1) as usize)
    } else {
        Err::<usize, usize>(u32_at(header, 1) as usize)
    }
}

/// The payload length that a frame header announces, unless it is over the limit.
pub fn payload_len(header: &[u8; 5], limit: usize) -> (r: Result<usize, usize>)
    ensures
        r == announced(header@, limit),
{
    let len: usize = read_u32(header.as_slice(), 1) as usize;
    if len > limit {
        Err(len)
    } else {
        Ok(len)
    }
}

/// Received bytes that have not been handed on as frames yet.
pub struct Inbox {
    buf: Vec<u8>,
}

impl View for Inbox {
    type V = Seq<u8>;

    closed spec fn view(&self) -> Seq<u8> {
        self.buf@
    }
}

/// The frames taken out of an inbox, and whether an oversized one stopped it.
#[derive(Debug)]
pub struct Drained {
    pub frames: Vec<Frame>,
    pub oversized: Option<usize>,
}

impl Inbox {
    pub fn new() -> (r: Self)
        ensures
            r@ == Seq::<u8>::empty(),
    {
        Inbox { buf: Vec::new() }
    }

    /// Adds freshly read bytes.
    pub fn receive(&mut self, data: &[u8])
        ensures
            final(self)@ == old(self)@ + data@,
    {
        push_bytes(&mut self.buf, data);
    }

    /// Takes out every complete frame.
    pub fn take_frames(&mut self, limit: usize) -> (r: Drained)
        ensures
            r.frames@.map_values(|f: Frame| f@) == split(old(self)@, limit as int).frames,
            final(self)@ == split(old(self)@, limit as int).rest,
            match r.oversized {
                Some(len) => split(old(self)@, limit as int).oversized == Some(len as int),
                None => split(old(self)@, limit as int).oversized is None,
            },
    {
        let mut frames: Vec<Frame> = Vec::new();
        let mut oversized: Option<usize> = None;
        let mut pos: usize = 0;
        let mut done = false;
        let ghost whole = split(self@, limit as int);
        let n: usize = self.buf.len();
        assert(self@.skip(0) =~= self@);
        assert(frames@.map_values(|f: Frame| f@) + whole.frames =~= whole.frames);
        while !done
            invariant
                n == self.buf@.len(),
                pos <= n,
                *self == *old(self),
                whole == split(self@, limit as int),
                ({
                    let left = split(self@.skip(pos as int), limit as int);
                    &&& frames@.map_values(|f: Frame| f@) + left.frames == whole.frames
                    &&& left.rest == whole.rest
                    &&& left.oversized == whole.oversized
                    &&& done ==> left.frames.len() == 0 && left.rest == self@.skip(pos as int)
                    &&& done ==> match oversized {
                        Some(len) => left.oversized == Some(len as int),
                        None => left.oversized is None,
                    }
                    &&& !done ==> oversized is None
                }),
            decreases n - pos, (if done { 0int } else { 1int }),
        {
            let ghost here = self@.skip(pos as int);
            if n - pos < FRAME_HEADER {
                done = true;
            } else {
                let len: usize = read_u32(self.buf.as_slice(), pos + 1) as usize;
                assert(len == u32_at(here, 1));
                if len > limit {
                    oversized = Some(len);
                    done = true;
                } else if n - pos - FRAME_HEADER < len {
                    done = true;
                } else {
                    let payload = copy_range(
                        self.buf.as_slice(),
                        pos + FRAME_HEADER,
                        pos + FRAME_HEADER + len,
                    );
                    let f = Frame { ty: self.buf[pos], payload };
                    let ghost earlier = frames@.map_values(|f: Frame| f@);
                    let ghost left = split(here, limit as int);
                    frames.push(f);
                    proof {
                        assert(f.payload@ =~= here.subrange(
                            FRAME_HEADER as int,
                            FRAME_HEADER + len,
                        ));
                        assert(here.skip(FRAME_HEADER + len) =~= self@.skip(
                            pos + FRAME_HEADER + len,
                        ));
                        let tail = split(here.skip(FRAME_HEADER + len), limit as int);
                        assert(left.frames == seq![f@] + tail.frames);
                        assert(frames@.map_values(|f: Frame| f@) =~= earlier + seq![f@]);
                        assert(earlier + seq![f@] + tail.frames =~= earlier + left.frames);
                    }
                    pos = pos + FRAME_HEADER + len;
                }
            }
        }
        assert(frames@.map_values(|f: Frame| f@) =~= whole.frames);
        let rest = copy_range(self.buf.as_slice(), pos, n);
        assert(rest@ =~= self@.skip(pos as int));
        self.buf = rest;
        Drained { frames, oversized }
    }
}

/// A frame in front of the stream is the first to come out, with the payload that went in.
pub proof fn frame_comes_first(ty: u8, payload: Seq<u8>, rest: Seq<u8>, limit: int)
    requires
        payload.len() <= limit,
        payload.len() < 0x1_0000_0000,
    ensures
        split(framed(ty, payload) + rest, limit) == (Split {
            frames: seq![(ty, payload)] + split(rest, limit).frames,
            rest: split(rest, limit).rest,
            oversized: split(rest, limit).oversized,
        }),
{
    let field = u32_le(payload.len() as u32);
    u32_round_trip(payload.len() as u32);
    let buf = framed(ty, payload) + rest;
    assert(buf =~= seq![ty] + field + payload + rest);
    assert(u32_at(buf, 1) == u32_at(field, 0));
    assert(buf.subrange(FRAME_HEADER as int, FRAME_HEADER + payload.len()) =~= payload);
    assert(buf.skip(FRAME_HEADER + payload.len()) =~= rest);
}

/// The bytes of several frames in a row.
pub open spec fn framed_all(messages: Seq<(u8, Seq<u8>)>) -> Seq<u8>
    decreases messages.len(),
{
    if messages.len() == 0 {
        seq![]
    } else {
        framed(messages[0].0, messages[0].1) + framed_all(messages.skip(1))
    }
}

/// Frames sent in a row come out as they went in, and nothing is left over.
pub proof fn frames_round_trip(messages: Seq<(u8, Seq<u8>)>, limit: int)
    requires
        forall|i: int|
            0 <= i < messages.len() ==> (#[trigger] messages[i]).1.len() <= limit
                && messages[i].1.len() < 0x1_0000_0000,
    ensures
        split(framed_all(messages), limit) == (Split {
            frames: messages,
            rest: seq![],
            oversized: None,
        }),
    decreases messages.len(),
{
    if messages.len() == 0 {
        assert(messages =~= seq![]);
    } else {
        let tail = messages.skip(1);
        assert forall|i: int| 0 <= i < tail.len() implies (#[trigger] tail[i]).1.len() <= limit
            && tail[i].1.len() < 0x1_0000_0000 by {
            assert(tail[i] == messages[i + 1]);
        }
        frames_round_trip(tail, limit);
        frame_comes_first(messages[0].0, messages[0].1, framed_all(tail), limit);
        assert(seq![messages[0]] + tail =~= messages);
    }
}

/// The frames do not depend on how the stream was cut into reads: taking the frames out of the
/// first part and carrying its rest over gives what the whole would have given.
pub proof fn reads_may_be_cut_anywhere(first: Seq<u8>, second: Seq<u8>, limit: int)
    requires
        split(first, limit).oversized is None,
    ensures
        ({
            let a = split(first, limit);
            let b = split(a.rest + second, limit);
            split(first + second, limit) == (Split {
                frames: a.frames + b.frames,
                rest: b.rest,
                oversized: b.oversized,
            })
        }),
    decreases first.len(),
{
    let a = split(first, limit);
    let b = split(a.rest + second, limit);
    let whole = first + second;
    if first.len() < FRAME_HEADER {
        assert(a.frames + b.frames =~= b.frames);
    } else {
        let len = u32_at(first, 1) as int;
        assert(u32_at(whole, 1) == u32_at(first, 1));
        if first.len() < FRAME_HEADER + len {
            assert(a.frames + b.frames =~= b.frames);
        } else {
            let tail = first.skip(FRAME_HEADER + len);
            reads_may_be_cut_anywhere(tail, second, limit);
            assert(whole.skip(FRAME_HEADER + len) =~= tail + second);
            assert(whole.subrange(FRAME_HEADER as int, FRAME_HEADER + len) =~= first.subrange(
                FRAME_HEADER as int,
                FRAME_HEADER + len,
            ));
            let head = seq![(first[0], first.subrange(FRAME_HEADER as int, FRAME_HEADER + len))];
            let t = split(tail, limit);
            assert(a.frames == head + t.frames);
            assert(head + (t.frames + b.frames) =~= a.frames + b.frames);
        }
    }
}

/// Once an oversized frame has shown up, later bytes change nothing of what came before it.
pub proof fn oversized_frame_is_final(first: Seq<u8>, second: Seq<u8>, limit: int)
    requires
        split(first, limit).oversized is Some,
    ensures
        split(first + second, limit).frames == split(first, limit).frames,
        split(first + second, limit).oversized == split(first, limit).oversized,
    decreases first.len(),
{
    let whole = first + second;
    if first.len() >= FRAME_HEADER {
        let len = u32_at(first, 1) as int;
        assert(u32_at(whole, 1) == u32_at(first, 1));
        if len <= limit && first.len() >= FRAME_HEADER + len {
            let tail = first.skip(FRAME_HEADER + len);
            oversized_frame_is_final(tail, second, limit);
            assert(whole.skip(FRAME_HEADER + len) =~= tail + second);
            assert(whole.subrange(FRAME_HEADER as int, FRAME_HEADER + len) =~= first.subrange(
                FRAME_HEADER as int,
                FRAME_HEADER + len,
            ));
        }
    }
}

/// The header of a frame announces how long its payload is, and is refused exactly where that is over
/// the limit.
pub proof fn headers_announce_the_payload(ty: u8, payload: Seq<u8>, limit: usize)
    requires
        payload.len() < 0x1_0000_0000,
    ensures
        match announced(framed(ty, payload).take(5), limit) {
            Ok(len) => len == payload.len() && payload.len() <= limit,
            Err(len) => len == payload.len() && payload.len() > limit,
        },
{
    crate::protocol::frames_say_what_they_hold(ty, payload);
    let s = framed(ty, payload);
    let h = s.take(5);
    assert(forall|k: int| 0 <= k < 5 ==> h[k] == s[k]);
}

} // verus!
