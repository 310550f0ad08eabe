//! How the virtual output's picture is captured and encoded.
use crate::protocol::{CODEC_AV1, CODEC_H264, CODEC_HEVC};
use crate::text::{
    decimal, decimal_reads_back, notes, nothing_to_replace, occurs, occurs_at, parts_occur, parts_set,
    push_decimal, replace, replaced, replacing_goes_from_left_to_right, sets,
};
use vstd::prelude::*;

verus! {

/// How long a pipeline may take to run, in milliseconds.
pub const START_TIMEOUT_MS: u64 = 8000;

/// A video codec.
#[derive(Clone, Copy, Debug, PartialEq, Eq, Structural)]
pub enum Codec {
    H264,
    Hevc,
    Av1,
}

/// The number that stands for a codec on the wire.
pub open spec fn wire_of(codec: Codec) -> u8 {
    match codec {
        Codec::H264 => CODEC_H264,
        Codec::Hevc => CODEC_HEVC,
        Codec::Av1 => CODEC_AV1,
    }
}

/// The codec that a number on the wire stands for.
pub open spec fn codec_of(v: u8) -> Option<Codec> {
    if v == CODEC_H264 {
        Some(Codec::H264)
    } else if v == CODEC_HEVC {
        Some(Codec::Hevc)
    } else if v == CODEC_AV1 {
        Some(Codec::Av1)
    } else {
        None
    }
}

impl Codec {
    /// The number that stands for this codec on the wire.
    pub fn wire(self) -> (r: u8)
        ensures
            r == wire_of(self),
            1 <= r <= 3,
    {
        match self {
            Codec::H264 => CODEC_H264,
            Codec::Hevc => CODEC_HEVC,
            Codec::Av1 => CODEC_AV1,
        }
    }

    /// The codec that a number on the wire stands for.
    pub fn from_wire(v: u8) -> (r: Option<Self>)
        ensures
            r == codec_of(v),
    {
        if v == CODEC_H264 {
            Some(Codec::H264)
        } else if v == CODEC_HEVC {
            Some(Codec::Hevc)
        } else if v == CODEC_AV1 {
            Some(Codec::Av1)
        } else {
            None
        }
    }
}

/// A codec survives the wire, and a number that stands for a codec comes back as that number.
pub proof fn codecs_survive_the_wire(codec: Codec, v: u8)
    ensures
        codec_of(wire_of(codec)) == Some(codec),
        codec_of(v) is Some <==> 1 <= v <= 3,
        wire_of(Codec::H264) == 1 && wire_of(Codec::Hevc) == 2 && wire_of(Codec::Av1) == 3,
        codec_of(v) matches Some(c) ==> wire_of(c) == v,
{
}

/// How the picture gets into the form that the encoder takes.
#[derive(Clone, Copy, Debug, PartialEq, Eq, Structural)]
pub enum Convert {
    /// On the graphics card if that works, else on the processor.
    Auto,
    Va,
    Cpu,
}

/// One encoded picture.
pub struct EncodedFrame {
    pub pts_ns: u64,
    pub keyframe: bool,
    pub data: Vec<u8>,
}

/// A picture that the pipeline hands over: when it is to be shown, whether it stands alone, and its
/// data.
pub open spec fn picture(delta_unit: bool, pts: Option<u64>, data: Seq<u8>) -> (
    u64,
    bool,
    Seq<u8>,
) {
    (
        match pts {
            Some(p) => p,
            None => 0,
        },
        !delta_unit,
        data,
    )
}

/// An encoded picture from what the pipeline hands over: whether it builds on an earlier one, and
/// when it is to be shown, if that is known.
pub fn encoded_frame(delta_unit: bool, pts: Option<u64>, data: Vec<u8>) -> (r: EncodedFrame)
    ensures
        (r.pts_ns, r.keyframe, r.data@) == picture(delta_unit, pts, data@),
{
    let pts_ns: u64 = match pts {
        Some(p) => p,
        None => 0,
    };
    EncodedFrame { pts_ns, keyframe: !delta_unit, data }
}

/// What the encoder is asked to do.
pub struct Settings {
    pub codec: Codec,
    pub bitrate_kbps: u32,
    pub fps: u32,
    pub convert: Convert,
    /// A whole pipeline to use instead. `{node}` in it stands for the captured node.
    pub pipeline_override: Option<String>,
}

/// The distance between keyframes: two seconds.
pub open spec fn gop(fps: u32) -> int {
    if fps == 0 {
        2
    } else {
        fps * 2
    }
}

/// The encoder's settings.
pub open spec fn encoder_options(bitrate_kbps: u32, fps: u32) -> Seq<char> {
    "rate-control=cbr bitrate="@ + decimal(bitrate_kbps as nat) + " target-usage=6 key-int-max="@
        + decimal(gop(fps) as nat) + " b-frames=0 ref-frames=1"@
}

/// The encoding part of the pipeline.
pub open spec fn encoder_text(codec: Codec, bitrate_kbps: u32, fps: u32) -> Seq<char> {
    let options = encoder_options(bitrate_kbps, fps);
    match codec {
        Codec::H264 => "vah264enc "@ + options
            + " ! h264parse config-interval=-1 ! video/x-h264,stream-format=byte-stream,alignment=au,profile=main"@,
        Codec::Hevc => "vah265enc "@ + options
            + " ! h265parse config-interval=-1 ! video/x-h265,stream-format=byte-stream,alignment=au"@,
        Codec::Av1 => "vaav1enc "@ + options
            + " ! av1parse ! video/x-av1,stream-format=obu-stream,alignment=tu"@,
    }
}

/// The conversion part of the pipeline.
pub open spec fn convert_text(convert: Convert) -> Seq<char> {
    if convert == Convert::Va {
        "vapostproc ! video/x-raw(memory:VAMemory),format=NV12"@
    } else {
        "videoconvert n-threads=4 ! video/x-raw,format=NV12"@
    }
}

/// The pipeline that captures a node, as text.
pub open spec fn pipeline_text(node: u32, s: Settings, convert: Convert) -> Seq<char> {
    match s.pipeline_override {
        Some(p) => replaced(p@, "{node}"@, decimal(node as nat)),
        None => "pipewiresrc path="@ + decimal(node as nat)
            + " do-timestamp=true keepalive-time=1000 ! queue max-size-buffers=3 leaky=downstream"@
            + " ! "@ + convert_text(convert) + " ! "@ + encoder_text(s.codec, s.bitrate_kbps, s.fps)
            + " ! appsink name=sink sync=false max-buffers=2 drop=true"@,
    }
}

/// The encoding part of the pipeline.
pub fn encoder_chain(codec: Codec, s: &Settings) -> (r: String)
    requires
        gop(s.fps) <= u32::MAX,
    ensures
        r@ == encoder_text(codec, s.bitrate_kbps, s.fps),
{
    let fps: u32 = if s.fps == 0 {
        1
    } else {
        s.fps
    };
    let keyframes: u32 = fps * 2;
    let mut r = match codec {
        Codec::H264 => "vah264enc ".to_owned(),
        Codec::Hevc => "vah265enc ".to_owned(),
        Codec::Av1 => "vaav1enc ".to_owned(),
    };
    let ghost head = r@;
    r.append("rate-control=cbr bitrate=");
    push_decimal(&mut r, s.bitrate_kbps as u64);
    r.append(" target-usage=6 key-int-max=");
    push_decimal(&mut r, keyframes as u64);
    r.append(" b-frames=0 ref-frames=1");
    assert(r@ =~= head + encoder_options(s.bitrate_kbps, s.fps));
    match codec {
        Codec::H264 => r.append(
            " ! h264parse config-interval=-1 ! video/x-h264,stream-format=byte-stream,alignment=au,profile=main",
        ),
        Codec::Hevc => r.append(
            " ! h265parse config-interval=-1 ! video/x-h265,stream-format=byte-stream,alignment=au",
        ),
        Codec::Av1 => r.append(
            " ! av1parse ! video/x-av1,stream-format=obu-stream,alignment=tu",
        ),
    }
    r
}

/// The encoder of every codec is told the bitrate that was asked for, and to send a keyframe every
/// two seconds: after twice as many pictures as there are in a second, or after two where nothing is
/// known of that.
pub proof fn the_encoder_is_told_what_was_asked(codec: Codec, bitrate_kbps: u32, fps: u32)
    ensures
        ({
            let text = encoder_text(codec, bitrate_kbps, fps);
            let pictures = if fps == 0 {
                1int
            } else {
                fps as int
            };
            &&& sets(
                text,
                "rate-control=cbr bitrate="@,
                bitrate_kbps as int,
                " target-usage=6 key-int-max="@,
            )
            &&& sets(
                text,
                " target-usage=6 key-int-max="@,
                2 * pictures,
                " b-frames=0 ref-frames=1"@,
            )
        }),
{
    let text = encoder_text(codec, bitrate_kbps, fps);
    let head = match codec {
        Codec::H264 => "vah264enc "@,
        Codec::Hevc => "vah265enc "@,
        Codec::Av1 => "vaav1enc "@,
    };
    let tail = match codec {
        Codec::H264 =>
            " ! h264parse config-interval=-1 ! video/x-h264,stream-format=byte-stream,alignment=au,profile=main"@,
        Codec::Hevc =>
            " ! h265parse config-interval=-1 ! video/x-h265,stream-format=byte-stream,alignment=au"@,
        Codec::Av1 => " ! av1parse ! video/x-av1,stream-format=obu-stream,alignment=tu"@,
    };
    let rate = decimal(bitrate_kbps as nat);
    let distance = decimal(gop(fps) as nat);
    decimal_reads_back(bitrate_kbps as nat);
    decimal_reads_back(gop(fps) as nat);
    let key = "rate-control=cbr bitrate="@;
    let key2 = " target-usage=6 key-int-max="@;
    let last = " b-frames=0 ref-frames=1"@;
    parts_set(head, key, rate, bitrate_kbps as int, key2, distance + last + tail);
    assert(head + key + rate + key2 + (distance + last + tail) =~= text);
    parts_set(head + key + rate, key2, distance, gop(fps), last, tail);
    assert((head + key + rate) + key2 + distance + last + tail =~= text);
}

/// Every codec has its own encoder in front, and behind it the parser that gives the tablet a stream
/// of that codec.
pub proof fn every_codec_has_its_encoder(bitrate_kbps: u32, fps: u32)
    ensures
        "vah264enc "@.is_prefix_of(encoder_text(Codec::H264, bitrate_kbps, fps)),
        " ! h264parse config-interval=-1 ! video/x-h264,stream-format=byte-stream,alignment=au,profile=main"@.is_suffix_of(
            encoder_text(Codec::H264, bitrate_kbps, fps)),
        "vah265enc "@.is_prefix_of(encoder_text(Codec::Hevc, bitrate_kbps, fps)),
        " ! h265parse config-interval=-1 ! video/x-h265,stream-format=byte-stream,alignment=au"@.is_suffix_of(
            encoder_text(Codec::Hevc, bitrate_kbps, fps)),
        "vaav1enc "@.is_prefix_of(encoder_text(Codec::Av1, bitrate_kbps, fps)),
        " ! av1parse ! video/x-av1,stream-format=obu-stream,alignment=tu"@.is_suffix_of(
            encoder_text(Codec::Av1, bitrate_kbps, fps)),
{
}

/// A pipeline captures the node that it was asked for, converts the picture on the graphics card or
/// on the processor as it was asked to, and encodes it with the codec, the bitrate and the rate of
/// its settings.
pub proof fn the_pipeline_does_what_was_asked(node: u32, s: Settings, convert: Convert)
    requires
        s.pipeline_override is None,
    ensures
        ({
            let text = pipeline_text(node, s, convert);
            &&& sets(text, "pipewiresrc path="@, node as int, " do-timestamp=true keepalive-time=1000 ! queue max-size-buffers=3 leaky=downstream"@)
            &&& "pipewiresrc path="@.is_prefix_of(text)
            &&& convert == Convert::Va ==> occurs(
                text,
                "vapostproc ! video/x-raw(memory:VAMemory),format=NV12"@,
            )
            &&& convert != Convert::Va ==> occurs(
                text,
                "videoconvert n-threads=4 ! video/x-raw,format=NV12"@,
            )
            &&& (" ! "@ + encoder_text(s.codec, s.bitrate_kbps, s.fps)
                + " ! appsink name=sink sync=false max-buffers=2 drop=true"@).is_suffix_of(text)
        }),
{
    let text = pipeline_text(node, s, convert);
    let v = decimal(node as nat);
    decimal_reads_back(node as nat);
    let key = "pipewiresrc path="@;
    let next =
        " do-timestamp=true keepalive-time=1000 ! queue max-size-buffers=3 leaky=downstream"@;
    let c = convert_text(convert);
    let end = " ! "@ + encoder_text(s.codec, s.bitrate_kbps, s.fps)
        + " ! appsink name=sink sync=false max-buffers=2 drop=true"@;
    let none = Seq::<char>::empty();
    parts_set(none, key, v, node as int, next, " ! "@ + c + end);
    assert(none + key + v + next + (" ! "@ + c + end) =~= text);
    parts_occur(key + v + next + " ! "@, c, end);
    assert((key + v + next + " ! "@) + c + end =~= text);
    assert(end =~= text.subrange(text.len() - end.len(), text.len() as int));
}

/// A pipeline of the user's own is used as it is, but that each `{node}`, from left to right, is
/// replaced by the number of the captured node. No other setting counts then.
pub proof fn own_pipelines_are_used(
    node: u32,
    s: Settings,
    convert: Convert,
    before: Seq<char>,
    after: Seq<char>,
)
    requires
        s.pipeline_override is Some,
    ensures
        !occurs(s.pipeline_override->0@, "{node}"@) ==> pipeline_text(node, s, convert)
            == s.pipeline_override->0@,
        s.pipeline_override->0@ == before + "{node}"@ + after && (forall|i: int|
            0 <= i < before.len() ==> !#[trigger] occurs_at(
                before + "{node}"@ + after,
                "{node}"@,
                i,
            )) ==> exists|v: Seq<char>|
            notes(v, node as int) && pipeline_text(node, s, convert) == #[trigger] (before + v)
                + replaced(after, "{node}"@, v),
{
    let p = s.pipeline_override->0@;
    let v = decimal(node as nat);
    decimal_reads_back(node as nat);
    reveal_strlit("{node}");
    if !occurs(p, "{node}"@) {
        nothing_to_replace(p, "{node}"@, v);
    }
    if p == before + "{node}"@ + after && (forall|i: int|
        0 <= i < before.len() ==> !#[trigger] occurs_at(before + "{node}"@ + after, "{node}"@, i)) {
        replacing_goes_from_left_to_right(before, "{node}"@, after, v);
    }
}

/// The pipeline that captures a node, as text.
pub fn pipeline_desc(node: u32, s: &Settings, convert: Convert) -> (r: String)
    requires
        s.pipeline_override is None ==> gop(s.fps) <= u32::MAX,
    ensures
        r@ == pipeline_text(node, *s, convert),
{
    let mut number = String::new();
    push_decimal(&mut number, node as u64);
    assert(number@ =~= decimal(node as nat));
    if let Some(p) = &s.pipeline_override {
        proof {
            reveal_strlit("{node}");
        }
        return replace(p.as_str(), "{node}", number.as_str());
    }
    let mut r = "pipewiresrc path=".to_owned();
    r.append(number.as_str());
    r.append(" do-timestamp=true keepalive-time=1000 ! queue max-size-buffers=3 leaky=downstream");
    r.append(" ! ");
    if convert == Convert::Va {
        r.append("vapostproc ! video/x-raw(memory:VAMemory),format=NV12");
    } else {
        r.append("videoconvert n-threads=4 ! video/x-raw,format=NV12");
    }
    r.append(" ! ");
    r.append(encoder_chain(s.codec, s).as_str());
    r.append(" ! appsink name=sink sync=false max-buffers=2 drop=true");
    r
}

/// The conversions to try, in order, until a pipeline runs.
pub open spec fn attempt_row(convert: Convert) -> Seq<Convert> {
    if convert == Convert::Auto {
        seq![Convert::Va, Convert::Cpu]
    } else {
        seq![convert]
    }
}

/// The conversions to try, in order, until a pipeline runs.
pub fn attempts(convert: Convert) -> (r: Vec<Convert>)
    ensures
        r@ == attempt_row(convert),
{
    let mut r: Vec<Convert> = Vec::new();
    if convert == Convert::Auto {
        r.push(Convert::Va);
        r.push(Convert::Cpu);
    } else {
        r.push(convert);
    }
    assert(r@ =~= attempt_row(convert));
    r
}

/// What follows when so many conversions have been tried.
#[derive(Clone, Copy, Debug, PartialEq, Eq, Structural)]
pub enum NextAttempt {
    /// The pipeline that was tried last runs: nothing else is tried.
    Keep,
    /// Try a pipeline with this conversion.
    Try(Convert),
    /// There is nothing left to try.
    GiveUp,
}

/// What follows when `tried` conversions have been tried, the last of which started or did not.
pub open spec fn attempt_after(convert: Convert, tried: int, started: bool) -> NextAttempt {
    if started {
        NextAttempt::Keep
    } else if tried < attempt_row(convert).len() {
        NextAttempt::Try(attempt_row(convert)[tried])
    } else {
        NextAttempt::GiveUp
    }
}

/// A pipeline that started is kept, and else the next conversion of the row is tried until there is
/// none. The automatic conversion has two, any other has itself.
pub proof fn conversions_are_tried_in_order(convert: Convert, tried: int)
    requires
        0 <= tried,
    ensures
        attempt_after(convert, tried, true) == NextAttempt::Keep,
        convert == Convert::Auto ==> attempt_after(convert, tried, false) == (if tried == 0 {
            NextAttempt::Try(Convert::Va)
        } else if tried == 1 {
            NextAttempt::Try(Convert::Cpu)
        } else {
            NextAttempt::GiveUp
        }),
        convert != Convert::Auto ==> attempt_after(convert, tried, false) == (if tried == 0 {
            NextAttempt::Try(convert)
        } else {
            NextAttempt::GiveUp
        }),
{
}

/// Decides what follows when `tried` conversions have been tried, the last of which started or did
/// not. Before the first one nothing has started.
pub fn after_attempt(convert: Convert, tried: usize, started: bool) -> (r: NextAttempt)
    ensures
        r == attempt_after(convert, tried as int, started),
{
    if started {
        return NextAttempt::Keep;
    }
    let row = attempts(convert);
    if tried < row.len() {
        NextAttempt::Try(row[tried])
    } else {
        NextAttempt::GiveUp
    }
}

/// What comes of an attempt: the pipeline, another attempt, or the error.
pub enum Settled<P, E> {
    Running(P),
    Try(Convert),
    Failed(E),
}

/// What comes of the attempt that makes the number of attempts `tried`. A pipeline that started is
/// kept; an error counts only where nothing is left to try.
pub open spec fn settled<P, E>(convert: Convert, tried: int, outcome: Result<P, E>) -> Settled<
    P,
    E,
> {
    match outcome {
        Ok(pipeline) => Settled::Running(pipeline),
        Err(e) => match attempt_after(convert, tried, false) {
            NextAttempt::Try(c) => Settled::Try(c),
            _ => Settled::Failed(e),
        },
    }
}

/// Decides what comes of the attempt that makes the number of attempts `tried`.
pub fn settle<P, E>(convert: Convert, tried: usize, outcome: Result<P, E>) -> (r: Settled<P, E>)
    ensures
        r == settled(convert, tried as int, outcome),
{
    match outcome {
        Ok(pipeline) => Settled::Running(pipeline),
        Err(e) => match after_attempt(convert, tried, false) {
            NextAttempt::Try(c) => Settled::Try(c),
            _ => Settled::Failed(e),
        },
    }
}

/// What starting an encoder comes to, where `outcome` says what comes of each conversion, once the
/// first `tried` conversions have failed.
pub open spec fn start_outcome<P, E>(
    convert: Convert,
    outcome: spec_fn(Convert) -> Result<P, E>,
    tried: int,
) -> Result<P, E>
    decreases attempt_row(convert).len() - tried,
{
    let this = outcome(attempt_row(convert)[tried]);
    match settled(convert, tried + 1, this) {
        Settled::Running(pipeline) => Ok(pipeline),
        Settled::Try(_) => start_outcome(convert, outcome, tried + 1),
        Settled::Failed(e) => Err(e),
    }
}

/// The conversions that are tried on the way there.
pub open spec fn conversions_tried<P, E>(
    convert: Convert,
    outcome: spec_fn(Convert) -> Result<P, E>,
    tried: int,
) -> Seq<Convert>
    decreases attempt_row(convert).len() - tried,
{
    let c = attempt_row(convert)[tried];
    match settled(convert, tried + 1, outcome(c)) {
        Settled::Try(_) => seq![c] + conversions_tried(convert, outcome, tried + 1),
        _ => seq![c],
    }
}

/// The automatic conversion runs on the graphics card if that starts, and then nothing else is tried;
/// else it runs on the processor, and where that fails too, that error is the one reported. A
/// conversion that was chosen is tried alone.
pub proof fn first_pipeline_to_start_is_kept<P, E>(
    convert: Convert,
    outcome: spec_fn(Convert) -> Result<P, E>,
)
    ensures
        convert == Convert::Auto && outcome(Convert::Va) is Ok ==> {
            &&& start_outcome(convert, outcome, 0) == outcome(Convert::Va)
            &&& conversions_tried(convert, outcome, 0) == seq![Convert::Va]
        },
        convert == Convert::Auto && outcome(Convert::Va) is Err ==> {
            &&& start_outcome(convert, outcome, 0) == outcome(Convert::Cpu)
            &&& conversions_tried(convert, outcome, 0) == seq![Convert::Va, Convert::Cpu]
        },
        convert != Convert::Auto ==> {
            &&& start_outcome(convert, outcome, 0) == outcome(convert)
            &&& conversions_tried(convert, outcome, 0) == seq![convert]
        },
{
    reveal_with_fuel(start_outcome, 2);
    reveal_with_fuel(conversions_tried, 2);
    assert(seq![Convert::Va] + seq![Convert::Cpu] =~= seq![Convert::Va, Convert::Cpu]);
}

/// How far a pipeline has come on its way to running.
pub enum StateChange {
    Success,
    /// Still on its way.
    Pending,
    /// It will not get there; why, in words.
    Failure(String),
}

/// An error that a pipeline reported, with what helps to find its cause.
pub struct BusError {
    pub error: String,
    pub debug: String,
}

/// What to do with a pipeline that was told to run.
pub enum Startup {
    /// It runs.
    Running,
    /// Ask again.
    Wait,
    /// Stop it; why, in words.
    Failed(String),
}

/// What a pipeline has come to that was told to run `elapsed_ms` ago: whether it runs already, or why
/// it never will.
pub open spec fn came_to(
    bus_error: Option<BusError>,
    state: StateChange,
    elapsed_ms: u64,
) -> Result<bool, Seq<char>> {
    match bus_error {
        Some(e) => Err(e.error@ + " ("@ + e.debug@ + ")"@),
        None => match state {
            StateChange::Success => Ok(true),
            StateChange::Pending => if elapsed_ms < START_TIMEOUT_MS {
                Ok(false)
            } else {
                Err("pipeline did not reach PLAYING in time"@)
            },
            StateChange::Failure(e) => Err("state change failed: "@ + e@),
        },
    }
}

/// A pipeline runs when it says so and nothing was reported, is waited for as long as it is on its
/// way and eight seconds have not passed, and fails in every other case. The reason names what was
/// reported, with what helps to find its cause, or what became of the change of state.
pub proof fn pipelines_get_eight_seconds(
    bus_error: Option<BusError>,
    state: StateChange,
    elapsed_ms: u64,
)
    ensures
        came_to(bus_error, state, elapsed_ms) == Ok::<bool, Seq<char>>(true) <==> bus_error is None
            && state is Success,
        came_to(bus_error, state, elapsed_ms) == Ok::<bool, Seq<char>>(false) <==> bus_error is None
            && state is Pending && elapsed_ms < 8000,
        bus_error matches Some(e) ==> (came_to(bus_error, state, elapsed_ms) matches Err(why)
            && e.error@.is_prefix_of(why) && occurs(why.skip(e.error@.len() as int), e.debug@)),
        bus_error is None ==> (state matches StateChange::Failure(e) ==> (came_to(
            bus_error,
            state,
            elapsed_ms,
        ) matches Err(why) && e@.is_suffix_of(why))),
{
    if let Some(e) = bus_error {
        let why = e.error@ + " ("@ + e.debug@ + ")"@;
        assert(why.skip(e.error@.len() as int) =~= " ("@ + e.debug@ + ")"@);
        parts_occur(" ("@, e.debug@, ")"@);
        assert(e.error@ =~= why.subrange(0, e.error@.len() as int));
    }
}

/// What became of a pipeline that was told to run `elapsed_ms` ago. A reported error counts first,
/// whatever state the pipeline is in.
pub fn startup(bus_error: Option<BusError>, state: StateChange, elapsed_ms: u64) -> (r: Startup)
    ensures
        match r {
            Startup::Running => came_to(bus_error, state, elapsed_ms) == Ok::<bool, Seq<char>>(true),
            Startup::Wait => came_to(bus_error, state, elapsed_ms) == Ok::<bool, Seq<char>>(false),
            Startup::Failed(why) => came_to(bus_error, state, elapsed_ms) == Err::<bool, Seq<char>>(
                why@,
            ),
        },
{
    if let Some(e) = bus_error {
        let mut why = e.error.clone();
        why.append(" (");
        why.append(e.debug.as_str());
        why.append(")");
        return Startup::Failed(why);
    }
    match state {
        StateChange::Success => Startup::Running,
        StateChange::Pending => {
            if elapsed_ms < START_TIMEOUT_MS {
                Startup::Wait
            } else {
                Startup::Failed("pipeline did not reach PLAYING in time".to_owned())
            }
        },
        StateChange::Failure(e) => {
            let mut why = "state change failed: ".to_owned();
            why.append(e.as_str());
            Startup::Failed(why)
        },
    }
}

} // verus!
