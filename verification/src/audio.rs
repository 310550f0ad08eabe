//! Where the computer's sound goes while a tablet is connected.
//!
//! Either a sink of its own becomes the default output, so that the computer falls silent and only
//! the tablet plays, or the sink that is the default anyway is captured, so that both play. The sound
//! server is asked through `pactl`; what to ask next, and what its answers mean, is decided here.
use crate::text::{
    chars_of, contains, decimal, decimal_reads_back, is_space, occurs, parts_occur, parts_set,
    push_decimal, sets, skip_spaces, space, texts, trim, trim_start, trimmed,
    trimming_cuts_only_space,
};
use vstd::prelude::*;

verus! {

pub const RATE: u32 = 48000;

pub const CHANNELS: u8 = 2;

/// A piece of captured sound.
pub struct AudioChunk {
    pub pts_ns: u64,
    pub data: Vec<u8>,
}

/// A piece of sound that the pipeline hands over: when it is to be heard, and its data.
pub open spec fn sound(pts: Option<u64>, data: Seq<u8>) -> (u64, Seq<u8>) {
    (
        match pts {
            Some(p) => p,
            None => 0,
        },
        data,
    )
}

/// A piece of sound from what the pipeline hands over, and when it is to be heard, if that is known.
pub fn captured_chunk(pts: Option<u64>, data: Vec<u8>) -> (r: AudioChunk)
    ensures
        (r.pts_ns, r.data@) == sound(pts, data@),
{
    let pts_ns: u64 = match pts {
        Some(p) => p,
        None => 0,
    };
    AudioChunk { pts_ns, data }
}

/// The name of the sink that only the tablet plays.
pub open spec fn sink_name() -> Seq<char> {
    "tabscreen"@
}

/// How a module that holds that sink is recognised in a list.
pub open spec fn sink_argument() -> Seq<char> {
    "sink_name="@ + sink_name()
}

/// The words with a space between each two.
pub open spec fn joined(words: Seq<Seq<char>>) -> Seq<char>
    decreases words.len(),
{
    if words.len() == 0 {
        Seq::empty()
    } else if words.len() == 1 {
        words[0]
    } else {
        joined(words.drop_last()) + " "@ + words.last()
    }
}

/// Joins words by spaces.
fn join(words: &Vec<String>) -> (r: String)
    ensures
        r@ == joined(texts(words@)),
{
    let mut r = String::new();
    let mut i: usize = 0;
    let total: usize = words.len();
    assert(r@ =~= joined(texts(words@).take(0)));
    while i < total
        invariant
            total == words@.len(),
            i <= total,
            r@ == joined(texts(words@).take(i as int)),
        decreases total - i,
    {
        let ghost before = r@;
        if i > 0 {
            r.append(" ");
        }
        r.append(words[i].as_str());
        proof {
            let next = texts(words@).take(i + 1);
            assert(next.drop_last() =~= texts(words@).take(i as int));
            assert(next.last() == words@[i as int]@);
            assert(r@ =~= joined(next));
        }
        i = i + 1;
    }
    assert(texts(words@).take(total as int) =~= texts(words@));
    r
}

/// What `pactl` answered, in characters.
pub open spec fn reply_text(r: Result<String, String>) -> Result<Seq<char>, Seq<char>> {
    match r {
        Ok(out) => Ok(out@),
        Err(why) => Err(why@),
    }
}

/// What a run of `pactl` with these arguments answered.
pub open spec fn answer(
    args: Seq<Seq<char>>,
    success: bool,
    stdout: Seq<char>,
    stderr: Seq<char>,
) -> Result<Seq<char>, Seq<char>> {
    if success {
        Ok(trimmed(stdout))
    } else {
        Err("pactl "@ + joined(args) + ": "@ + trimmed(stderr))
    }
}

proof fn lemma_trimmed_occurs(s: Seq<char>)
    ensures
        occurs(s, trimmed(s)),
{
    trimming_cuts_only_space(s);
    let (front, back) = choose|front: Seq<char>, back: Seq<char>|
        crate::text::is_blank(front) && crate::text::is_blank(back) && s == #[trigger] ((front
            + trimmed(s)) + back);
    parts_occur(front, trimmed(s), back);
}

/// A run that went well is answered by what it printed, whatever it complained of; one that did not
/// by its complaint, behind the call that was made. Space around either is left out.
pub proof fn answers_are_what_was_printed(
    args: Seq<Seq<char>>,
    success: bool,
    stdout: Seq<char>,
    stderr: Seq<char>,
)
    ensures
        success <==> answer(args, success, stdout, stderr) is Ok,
        answer(args, success, stdout, stderr) matches Ok(out) ==> out == trimmed(stdout) && occurs(
            stdout,
            out,
        ),
        answer(args, success, stdout, stderr) matches Err(why) ==> trimmed(stderr).is_suffix_of(why)
            && occurs(stderr, trimmed(stderr)) && occurs(why, joined(args)),
{
    lemma_trimmed_occurs(stdout);
    lemma_trimmed_occurs(stderr);
    parts_occur("pactl "@, joined(args), ": "@ + trimmed(stderr));
    assert("pactl "@ + joined(args) + (": "@ + trimmed(stderr)) =~= "pactl "@ + joined(args) + ": "@
        + trimmed(stderr));
}

/// A call with one more argument is the call, a space and the argument.
pub proof fn arguments_are_joined_by_spaces(words: Seq<Seq<char>>, word: Seq<char>)
    ensures
        joined(seq![word]) == word,
        words.len() > 0 ==> joined(words.push(word)) == joined(words) + " "@ + word,
{
    assert(words.push(word).drop_last() =~= words);
}

/// What a run of `pactl` answered: what it printed, or why it failed, in words.
pub fn pactl(args: &Vec<String>, success: bool, stdout: &str, stderr: &str) -> (r: Result<
    String,
    String,
>)
    ensures
        reply_text(r) == answer(texts(args@), success, stdout@, stderr@),
{
    if success {
        return Ok(trim(stdout));
    }
    let mut why = "pactl ".to_owned();
    why.append(join(args).as_str());
    why.append(": ");
    why.append(trim(stderr).as_str());
    Err(why)
}

/// Where the line that holds position `i` ends.
pub open spec fn line_end(s: Seq<char>, i: int) -> int
    decreases s.len() - i,
{
    if i < 0 || i >= s.len() || s[i] == '\n' {
        i
    } else {
        line_end(s, i + 1)
    }
}

/// Where the word that starts at `i` ends.
pub open spec fn word_end(s: Seq<char>, i: int) -> int
    decreases s.len() - i,
{
    if i < 0 || i >= s.len() || is_space(s[i]) {
        i
    } else {
        word_end(s, i + 1)
    }
}

/// The first word of a line.
pub open spec fn first_word(line: Seq<char>) -> Seq<char> {
    let t = trim_start(line);
    t.take(word_end(t, 0))
}

/// The module that a line names, if it is one that holds the tablet's sink.
pub open spec fn stale_module(line: Seq<char>) -> Seq<Seq<char>> {
    if occurs(line, sink_argument()) && first_word(line).len() > 0 {
        seq![first_word(line)]
    } else {
        Seq::empty()
    }
}

/// The modules that hold the tablet's sink, in the lines of a list from position `i` on.
pub open spec fn stale_modules(list: Seq<char>, i: int) -> Seq<Seq<char>>
    decreases list.len() - i,
{
    if i < 0 || i > list.len() {
        Seq::empty()
    } else {
        let e = line_end(list, i);
        if e >= list.len() || e < i {
            stale_module(list.subrange(i, list.len() as int))
        } else {
            stale_module(list.subrange(i, e)) + stale_modules(list, e + 1)
        }
    }
}

/// Reads the module that a line names.
fn find_stale(line: &str) -> (r: Option<String>)
    ensures
        stale_module(line@) == (match r {
            Some(id) => seq![id@],
            None => Seq::empty(),
        }),
{
    let mut needle = "sink_name=".to_owned();
    needle.append("tabscreen");
    if !contains(line, needle.as_str()) {
        return None;
    }
    let c = chars_of(line);
    let total: usize = c.len();
    assert(c@.subrange(0, total as int) =~= line@);
    let start = skip_spaces(&c, 0, total);
    let ghost t = c@.subrange(start as int, total as int);
    let mut end: usize = start;
    while end < total && !space(c[end])
        invariant
            start <= end <= total == c@.len(),
            t == c@.subrange(start as int, total as int),
            word_end(t, 0) == word_end(t, end - start),
        decreases total - end,
    {
        assert(t[end - start] == c@[end as int]);
        end = end + 1;
    }
    assert(end < total ==> t[end - start] == c@[end as int]);
    assert(word_end(t, 0) == end - start);
    assert(first_word(line@) =~= line@.subrange(start as int, end as int));
    if end == start {
        return None;
    }
    Some(line.substring_char(start, end).to_owned())
}

/// The modules in a list that hold the tablet's sink: left behind by a session that did not end
/// properly. A carriage return before the end of a line counts as space.
pub fn stale(list: &str) -> (r: Vec<String>)
    ensures
        texts(r@) == stale_modules(list@, 0),
{
    let c = chars_of(list);
    let total: usize = c.len();
    let mut r: Vec<String> = Vec::new();
    let mut i: usize = 0;
    let mut done = false;
    assert(texts(r@) + stale_modules(list@, 0) =~= stale_modules(list@, 0));
    while !done
        invariant
            c@ == list@,
            total == c@.len(),
            i <= total,
            !done ==> texts(r@) + stale_modules(list@, i as int) == stale_modules(list@, 0),
            done ==> texts(r@) == stale_modules(list@, 0),
        decreases total - i, (if done { 0int } else { 1int }),
    {
        let mut e: usize = i;
        while e < total && c[e] != '\n'
            invariant
                i <= e <= total,
                c@ == list@,
                total == c@.len(),
                line_end(list@, i as int) == line_end(list@, e as int),
            decreases total - e,
        {
            e = e + 1;
        }
        let ghost before = r@;
        match find_stale(list.substring_char(i, e)) {
            Some(id) => {
                r.push(id);
                assert(texts(r@) =~= texts(before) + seq![id@]);
            },
            None => {
                assert(texts(r@) =~= texts(before) + Seq::empty());
            },
        }
        proof {
            let here = stale_module(list@.subrange(i as int, e as int));
            assert(texts(r@) =~= texts(before) + here);
            if e < total {
                assert(texts(before) + (here + stale_modules(list@, e + 1)) =~= texts(r@)
                    + stale_modules(list@, e + 1));
            }
        }
        if e < total {
            i = e + 1;
        } else {
            done = true;
        }
    }
    r
}

/// The characters of a string that may be missing.
pub open spec fn opt_text(s: Option<String>) -> Option<Seq<char>> {
    match s {
        Some(t) => Some(t@),
        None => None,
    }
}

/// The routing of a session's sound.
pub struct Route {
    /// The sink whose sound goes to the tablet.
    pub target: Seq<char>,
    /// The module that was loaded for it.
    pub module_id: Option<Seq<char>>,
    /// The sink that was the default output before.
    pub previous_default: Option<Seq<char>>,
}

/// The routing of a session's sound, with what it takes to undo it.
pub struct AudioRoute {
    target: String,
    module_id: Option<String>,
    previous_default: Option<String>,
}

impl View for AudioRoute {
    type V = Route;

    closed spec fn view(&self) -> Route {
        Route {
            target: self.target@,
            module_id: opt_text(self.module_id),
            previous_default: opt_text(self.previous_default),
        }
    }
}

/// How far the move of the sound to the tablet has come.
pub enum Stage {
    AskDefault,
    AskModules { previous: Option<Seq<char>> },
    Unload { previous: Option<Seq<char>>, stale: Seq<Seq<char>>, next: nat },
    Load { previous: Option<Seq<char>> },
    MakeDefault { previous: Option<Seq<char>>, module_id: Seq<char> },
    Ready { route: Route },
    Failed { why: Seq<char> },
}

/// How far the move of the sound to the tablet has come.
pub enum Routing {
    /// Which sink is the default output?
    AskDefault,
    /// Which modules are loaded?
    AskModules { previous: Option<String> },
    /// Unloads what an earlier session left behind, one after the other.
    Unload { previous: Option<String>, stale: Vec<String>, next: usize },
    /// Loads a module with the tablet's sink.
    Load { previous: Option<String> },
    /// Makes that sink the default output.
    MakeDefault { previous: Option<String>, module_id: String },
    Ready { route: AudioRoute },
    /// Why the sound stays where it was, in words.
    Failed { why: String },
}

impl View for Routing {
    type V = Stage;

    open spec fn view(&self) -> Stage {
        match self {
            Routing::AskDefault => Stage::AskDefault,
            Routing::AskModules { previous } => Stage::AskModules { previous: opt_text(*previous) },
            Routing::Unload { previous, stale, next } => Stage::Unload {
                previous: opt_text(*previous),
                stale: texts(stale@),
                next: *next as nat,
            },
            Routing::Load { previous } => Stage::Load { previous: opt_text(*previous) },
            Routing::MakeDefault { previous, module_id } => Stage::MakeDefault {
                previous: opt_text(*previous),
                module_id: module_id@,
            },
            Routing::Ready { route } => Stage::Ready { route: route@ },
            Routing::Failed { why } => Stage::Failed { why: why@ },
        }
    }
}

/// Unloads what is left of `stale` from `next` on; then the new module is loaded.
pub open spec fn unload_from(
    previous: Option<Seq<char>>,
    stale: Seq<Seq<char>>,
    next: nat,
) -> Stage {
    if next < stale.len() {
        Stage::Unload { previous, stale, next }
    } else {
        Stage::Load { previous }
    }
}

/// What a reply leads to. A failure to name the default sink, to list the modules or to unload one
/// does not stop the move.
pub open spec fn stage_after(stage: Stage, reply: Result<Seq<char>, Seq<char>>) -> Stage {
    match stage {
        Stage::AskDefault => Stage::AskModules {
            previous: match reply {
                Ok(sink) => Some(sink),
                Err(_) => None,
            },
        },
        Stage::AskModules { previous } => match reply {
            Ok(list) => unload_from(previous, stale_modules(list, 0), 0),
            Err(_) => Stage::Load { previous },
        },
        Stage::Unload { previous, stale, next } => unload_from(previous, stale, next + 1),
        Stage::Load { previous } => match reply {
            Ok(module_id) => Stage::MakeDefault { previous, module_id },
            Err(why) => Stage::Failed { why },
        },
        Stage::MakeDefault { previous, module_id } => match reply {
            Ok(_) => Stage::Ready {
                route: Route {
                    target: sink_name(),
                    module_id: Some(module_id),
                    previous_default: previous,
                },
            },
            Err(why) => Stage::Failed { why },
        },
        Stage::Ready { route } => stage,
        Stage::Failed { why } => stage,
    }
}

/// What `pactl` is asked next.
pub open spec fn question(stage: Stage) -> Option<Seq<Seq<char>>> {
    match stage {
        Stage::AskDefault => Some(seq!["get-default-sink"@]),
        Stage::AskModules { previous } => Some(seq!["list"@, "short"@, "modules"@]),
        Stage::Unload { previous, stale, next } => if next < stale.len() {
            Some(seq!["unload-module"@, stale[next as int]])
        } else {
            None
        },
        Stage::Load { previous } => Some(
            seq![
                "load-module"@,
                "module-null-sink"@,
                sink_argument(),
                "sink_properties=device.description=TabScreen"@,
            ],
        ),
        Stage::MakeDefault { previous, module_id } => Some(seq!["set-default-sink"@, sink_name()]),
        Stage::Ready { route } => None,
        Stage::Failed { why } => None,
    }
}

/// A call with one argument.
fn call1(a: &str) -> (r: Vec<String>)
    ensures
        texts(r@) == seq![a@],
{
    let mut r: Vec<String> = Vec::new();
    r.push(a.to_owned());
    assert(texts(r@) =~= seq![a@]);
    r
}

/// A call with two arguments.
fn call2(a: &str, b: &str) -> (r: Vec<String>)
    ensures
        texts(r@) == seq![a@, b@],
{
    let mut r: Vec<String> = Vec::new();
    r.push(a.to_owned());
    r.push(b.to_owned());
    assert(texts(r@) =~= seq![a@, b@]);
    r
}

impl Routing {
    /// The arguments of the next call of `pactl`, or nothing when the move is over.
    pub fn command(&self) -> (r: Option<Vec<String>>)
        ensures
            question(self@) == (match r {
                Some(args) => Some(texts(args@)),
                None => None,
            }),
    {
        match self {
            Routing::AskDefault => Some(call1("get-default-sink")),
            Routing::AskModules { previous: _ } => {
                let mut r: Vec<String> = Vec::new();
                r.push("list".to_owned());
                r.push("short".to_owned());
                r.push("modules".to_owned());
                assert(texts(r@) =~= seq!["list"@, "short"@, "modules"@]);
                Some(r)
            },
            Routing::Unload { previous: _, stale, next } => {
                if *next < stale.len() {
                    assert(texts(stale@)[*next as int] == stale@[*next as int]@);
                    Some(call2("unload-module", stale[*next].as_str()))
                } else {
                    None
                }
            },
            Routing::Load { previous: _ } => {
                let mut r: Vec<String> = Vec::new();
                r.push("load-module".to_owned());
                r.push("module-null-sink".to_owned());
                let mut sink = "sink_name=".to_owned();
                sink.append("tabscreen");
                r.push(sink);
                r.push("sink_properties=device.description=TabScreen".to_owned());
                assert(texts(r@) =~= seq![
                    "load-module"@,
                    "module-null-sink"@,
                    sink_argument(),
                    "sink_properties=device.description=TabScreen"@,
                ]);
                Some(r)
            },
            Routing::MakeDefault { previous: _, module_id: _ } => Some(
                call2("set-default-sink", "tabscreen"),
            ),
            Routing::Ready { route: _ } => None,
            Routing::Failed { why: _ } => None,
        }
    }

    /// What the answer to the last call leads to.
    pub fn advance(self, reply: Result<String, String>) -> (r: Routing)
        ensures
            r@ == stage_after(self@, reply_text(reply)),
    {
        match self {
            Routing::AskDefault => Routing::AskModules {
                previous: match reply {
                    Ok(sink) => Some(sink),
                    Err(_) => None,
                },
            },
            Routing::AskModules { previous } => match reply {
                Ok(list) => {
                    let found = stale(list.as_str());
                    if found.len() > 0 {
                        Routing::Unload { previous, stale: found, next: 0 }
                    } else {
                        Routing::Load { previous }
                    }
                },
                Err(_) => Routing::Load { previous },
            },
            Routing::Unload { previous, stale, next } => {
                let total: usize = stale.len();
                if next < total && next + 1 < total {
                    Routing::Unload { previous, stale, next: next + 1 }
                } else {
                    Routing::Load { previous }
                }
            },
            Routing::Load { previous } => match reply {
                Ok(module_id) => Routing::MakeDefault { previous, module_id },
                Err(why) => Routing::Failed { why },
            },
            Routing::MakeDefault { previous, module_id } => match reply {
                Ok(_) => Routing::Ready {
                    route: AudioRoute {
                        target: "tabscreen".to_owned(),
                        module_id: Some(module_id),
                        previous_default: previous,
                    },
                },
                Err(why) => Routing::Failed { why },
            },
            Routing::Ready { route } => Routing::Ready { route },
            Routing::Failed { why } => Routing::Failed { why },
        }
    }
}

/// The calls of `pactl` that undo a routing.
pub open spec fn undoing(route: Route) -> Seq<Seq<Seq<char>>> {
    (match route.previous_default {
        Some(sink) => seq![seq!["set-default-sink"@, sink]],
        None => Seq::empty(),
    }) + (match route.module_id {
        Some(id) => seq![seq!["unload-module"@, id]],
        None => Seq::empty(),
    })
}

/// The arguments of each call.
pub open spec fn calls_text(v: Seq<Vec<String>>) -> Seq<Seq<Seq<char>>> {
    v.map_values(|c: Vec<String>| texts(c@))
}

/// The routing that lets both play, by what `pactl` answered when asked for the default sink.
pub open spec fn shared(reply: Result<Seq<char>, Seq<char>>) -> Result<Route, Seq<char>> {
    match reply {
        Ok(sink) => Ok(Route { target: sink, module_id: None, previous_default: None }),
        Err(why) => Err(why),
    }
}

impl AudioRoute {
    /// Play only on the tablet: a new sink becomes the default output. This is where the move
    /// begins.
    pub fn tablet_only() -> (r: Routing)
        ensures
            r@ == Stage::AskDefault,
    {
        Routing::AskDefault
    }

    /// Play on both: capture what the default sink plays. `reply` is what `pactl` answered when
    /// asked for it.
    pub fn both(reply: Result<String, String>) -> (r: Result<Self, String>)
        ensures
            match r {
                Ok(route) => shared(reply_text(reply)) == Ok::<Route, Seq<char>>(route@),
                Err(why) => shared(reply_text(reply)) == Err::<Route, Seq<char>>(why@),
            },
    {
        match reply {
            Ok(target) => Ok(AudioRoute { target, module_id: None, previous_default: None }),
            Err(why) => Err(why),
        }
    }

    /// The sink to capture.
    pub fn capture_target(&self) -> (r: &str)
        ensures
            r@ == self@.target,
    {
        self.target.as_str()
    }

    /// The calls of `pactl` that put the sound back where it was.
    pub fn restore(&self) -> (r: Vec<Vec<String>>)
        ensures
            calls_text(r@) == undoing(self@),
    {
        let mut r: Vec<Vec<String>> = Vec::new();
        if let Some(sink) = &self.previous_default {
            r.push(call2("set-default-sink", sink.as_str()));
        }
        if let Some(id) = &self.module_id {
            r.push(call2("unload-module", id.as_str()));
        }
        assert(calls_text(r@) =~= undoing(self@));
        r
    }
}

/// The pipeline that captures a sink, as text.
pub open spec fn capture_text(target: Seq<char>) -> Seq<char> {
    "pipewiresrc target-object="@ + target
        + " do-timestamp=true stream-properties=\"props,stream.capture.sink=true,node.latency=480/48000,media.name=TabScreen\" ! audio/x-raw,format=S16LE,rate="@
        + decimal(RATE as nat) + ",channels="@ + decimal(CHANNELS as nat)
        + ",layout=interleaved ! audioconvert ! audioresample ! appsink name=sink sync=false max-buffers=8 drop=true"@
}

/// The pipeline that captures a sink, as text.
pub fn capture_desc(target: &str) -> (r: String)
    ensures
        r@ == capture_text(target@),
{
    let mut r = "pipewiresrc target-object=".to_owned();
    r.append(target);
    r.append(
        " do-timestamp=true stream-properties=\"props,stream.capture.sink=true,node.latency=480/48000,media.name=TabScreen\" ! audio/x-raw,format=S16LE,rate=",
    );
    push_decimal(&mut r, RATE as u64);
    r.append(",channels=");
    push_decimal(&mut r, CHANNELS as u64);
    r.append(
        ",layout=interleaved ! audioconvert ! audioresample ! appsink name=sink sync=false max-buffers=8 drop=true",
    );
    r
}

/// What a row of replies leads to.
pub open spec fn stage_after_all(stage: Stage, replies: Seq<Result<Seq<char>, Seq<char>>>) -> Stage
    decreases replies.len(),
{
    if replies.len() == 0 {
        stage
    } else {
        stage_after(stage_after_all(stage, replies.drop_last()), replies.last())
    }
}

/// A row of replies may be taken in two parts.
proof fn lemma_replies_in_parts(
    stage: Stage,
    a: Seq<Result<Seq<char>, Seq<char>>>,
    b: Seq<Result<Seq<char>, Seq<char>>>,
)
    ensures
        stage_after_all(stage, a + b) == stage_after_all(stage_after_all(stage, a), b),
    decreases b.len(),
{
    if b.len() == 0 {
        assert(a + b =~= a);
    } else {
        assert((a + b).drop_last() =~= a + b.drop_last());
        lemma_replies_in_parts(stage, a, b.drop_last());
    }
}

/// Everything that an earlier session left behind is unloaded before the new module is loaded, in
/// the order of the list, whatever comes of it.
pub proof fn leftovers_go_first(
    previous: Option<Seq<char>>,
    stale: Seq<Seq<char>>,
    replies: Seq<Result<Seq<char>, Seq<char>>>,
)
    requires
        replies.len() <= stale.len(),
    ensures
        stage_after_all(unload_from(previous, stale, 0), replies) == unload_from(
            previous,
            stale,
            replies.len(),
        ),
        replies.len() < stale.len() ==> question(
            stage_after_all(unload_from(previous, stale, 0), replies),
        ) == Some(seq!["unload-module"@, stale[replies.len() as int]]),
    decreases replies.len(),
{
    if replies.len() > 0 {
        leftovers_go_first(previous, stale, replies.drop_last());
    }
}

/// Where every call goes well, the sound ends up at the tablet's sink, and undoing it makes the
/// former sink the default output again and unloads the module that was loaded.
pub proof fn routing_can_be_undone(
    former: Seq<char>,
    list: Seq<char>,
    unloading: Seq<Result<Seq<char>, Seq<char>>>,
    module_id: Seq<char>,
    done: Seq<char>,
)
    requires
        unloading.len() == stale_modules(list, 0).len(),
    ensures
        ({
            let replies = seq![Ok(former), Ok(list)] + unloading + seq![Ok(module_id), Ok(done)];
            let route = Route {
                target: sink_name(),
                module_id: Some(module_id),
                previous_default: Some(former),
            };
            &&& stage_after_all(Stage::AskDefault, replies) == Stage::Ready { route }
            &&& undoing(route) == seq![
                seq!["set-default-sink"@, former],
                seq!["unload-module"@, module_id],
            ]
        }),
{
    let first: Seq<Result<Seq<char>, Seq<char>>> = seq![Ok(former), Ok(list)];
    let last: Seq<Result<Seq<char>, Seq<char>>> = seq![Ok(module_id), Ok(done)];
    let stale = stale_modules(list, 0);
    let route = Route {
        target: sink_name(),
        module_id: Some(module_id),
        previous_default: Some(former),
    };
    reveal_with_fuel(stage_after_all, 3);
    assert(first.drop_last().drop_last() =~= Seq::empty());
    assert(stage_after_all(Stage::AskDefault, first) == unload_from(Some(former), stale, 0));
    leftovers_go_first(Some(former), stale, unloading);
    lemma_replies_in_parts(Stage::AskDefault, first, unloading);
    lemma_replies_in_parts(Stage::AskDefault, first + unloading, last);
    assert(last.drop_last().drop_last() =~= Seq::empty());
    assert(stage_after_all(Stage::Load { previous: Some(former) }, last) == Stage::Ready { route });
    assert(undoing(route) =~= seq![
        seq!["set-default-sink"@, former],
        seq!["unload-module"@, module_id],
    ]);
}

/// Playing on both changes nothing that would have to be undone.
pub proof fn playing_on_both_changes_nothing(sink: Seq<char>)
    ensures
        undoing(Route { target: sink, module_id: None, previous_default: None }) == Seq::<
            Seq<Seq<char>>,
        >::empty(),
{
    assert(undoing(Route { target: sink, module_id: None, previous_default: None }) =~= Seq::<
        Seq<Seq<char>>,
    >::empty());
}

/// What comes behind the name of the sink in the pipeline that captures it.
spec fn capture_rest() -> Seq<char> {
    " do-timestamp=true stream-properties=\"props,stream.capture.sink=true,node.latency=480/48000,media.name=TabScreen\" ! audio/x-raw,format=S16LE,rate="@
        + decimal(RATE as nat) + ",channels="@ + decimal(CHANNELS as nat)
        + ",layout=interleaved ! audioconvert ! audioresample ! appsink name=sink sync=false max-buffers=8 drop=true"@
}

/// The pipeline captures the sink that it is asked to, whatever its name.
pub proof fn the_sink_asked_for_is_captured(target: Seq<char>)
    ensures
        ("pipewiresrc target-object="@ + target
            + " do-timestamp=true stream-properties=\"props,stream.capture.sink=true,node.latency=480/48000,media.name=TabScreen\" ! audio/x-raw,format=S16LE,rate="@).is_prefix_of(
            capture_text(target)),
{
    let text = capture_text(target);
    let p = "pipewiresrc target-object="@ + target
        + " do-timestamp=true stream-properties=\"props,stream.capture.sink=true,node.latency=480/48000,media.name=TabScreen\" ! audio/x-raw,format=S16LE,rate="@;
    assert(p =~= text.subrange(0, p.len() as int));
}

/// Two sinks are never captured by the same pipeline.
pub proof fn sinks_are_told_apart(a: Seq<char>, b: Seq<char>)
    requires
        capture_text(a) == capture_text(b),
    ensures
        a == b,
{
    let k = "pipewiresrc target-object="@;
    let rest = capture_rest();
    assert(capture_text(a) =~= k + a + rest);
    assert(capture_text(b) =~= k + b + rest);
    assert((k + a + rest).len() == k.len() + a.len() + rest.len());
    assert((k + b + rest).len() == k.len() + b.len() + rest.len());
    assert(a =~= (k + a + rest).subrange(k.len() as int, (k.len() + a.len()) as int));
    assert(b =~= (k + b + rest).subrange(k.len() as int, (k.len() + b.len()) as int));
}

/// Whatever is captured comes as two channels of 48000 samples in a second.
pub proof fn the_sound_has_its_rate(target: Seq<char>)
    ensures
        RATE == 48000 && CHANNELS == 2,
        sets(
            capture_text(target),
            " do-timestamp=true stream-properties=\"props,stream.capture.sink=true,node.latency=480/48000,media.name=TabScreen\" ! audio/x-raw,format=S16LE,rate="@,
            48000,
            ",channels="@,
        ),
        sets(
            capture_text(target),
            ",channels="@,
            2,
            ",layout=interleaved ! audioconvert ! audioresample ! appsink name=sink sync=false max-buffers=8 drop=true"@,
        ),
{
    let text = capture_text(target);
    let head = "pipewiresrc target-object="@ + target;
    let key =
        " do-timestamp=true stream-properties=\"props,stream.capture.sink=true,node.latency=480/48000,media.name=TabScreen\" ! audio/x-raw,format=S16LE,rate="@;
    let end =
        ",layout=interleaved ! audioconvert ! audioresample ! appsink name=sink sync=false max-buffers=8 drop=true"@;
    let rate = decimal(RATE as nat);
    let channels = decimal(CHANNELS as nat);
    decimal_reads_back(RATE as nat);
    decimal_reads_back(CHANNELS as nat);
    parts_set(head, key, rate, 48000, ",channels="@, channels + end);
    assert(head + key + rate + ",channels="@ + (channels + end) =~= text);
    parts_set(head + key + rate, ",channels="@, channels, 2, end, Seq::empty());
    assert((head + key + rate) + ",channels="@ + channels + end + Seq::<char>::empty() =~= text);
}

/// Where both play, the sink that `pactl` names is the one that is captured, and nothing has to be
/// put back; where it names none, its complaint is handed on.
pub proof fn both_play_the_default_sink(sink: Seq<char>, why: Seq<char>)
    ensures
        shared(Ok(sink)) matches Ok(route) && capture_text(route.target) == capture_text(sink)
            && route.target == sink && undoing(route).len() == 0,
        shared(Err(why)) == Err::<Route, Seq<char>>(why),
{
}

/// The sink that is loaded for the tablet is the one that becomes the default output and the one
/// that is captured; the module that was loaded and the sink that was the default before are kept for
/// the way back.
pub proof fn one_sink_is_loaded_and_captured(
    previous: Option<Seq<char>>,
    module_id: Seq<char>,
    done: Seq<char>,
)
    ensures
        question(Stage::Load { previous }) matches Some(words) && words.len() == 4 && words[0]
            == "load-module"@ && words[1] == "module-null-sink"@ && words[2] == "sink_name="@
            + "tabscreen"@ && words[3] == "sink_properties=device.description=TabScreen"@,
        stage_after(Stage::Load { previous }, Ok(module_id)) == (Stage::MakeDefault {
            previous,
            module_id,
        }),
        question(Stage::MakeDefault { previous, module_id }) == Some(
            seq!["set-default-sink"@, "tabscreen"@],
        ),
        stage_after(Stage::MakeDefault { previous, module_id }, Ok(done)) matches Stage::Ready {
            route,
        } && route.target == "tabscreen"@ && route.module_id == Some(module_id)
            && route.previous_default == previous,
{
}

/// Loading the sink and making it the default output are the only calls that must go well; where one
/// of them fails, the sound stays where it was, for that reason, and the move is over.
pub proof fn only_two_failures_stop_the_move(
    previous: Option<Seq<char>>,
    module_id: Seq<char>,
    stale: Seq<Seq<char>>,
    next: nat,
    why: Seq<char>,
)
    ensures
        stage_after(Stage::AskDefault, Err(why)) == (Stage::AskModules { previous: None }),
        stage_after(Stage::AskModules { previous }, Err(why)) == (Stage::Load { previous }),
        !(stage_after(Stage::Unload { previous, stale, next }, Err(why)) is Failed),
        stage_after(Stage::Load { previous }, Err(why)) == (Stage::Failed { why }),
        stage_after(Stage::MakeDefault { previous, module_id }, Err(why)) == (Stage::Failed { why }),
        question(Stage::Failed { why }) is None,
        stage_after(Stage::Failed { why }, Err(module_id)) == (Stage::Failed { why }),
        stage_after(Stage::Failed { why }, Ok(module_id)) == (Stage::Failed { why }),
{
}

/// The sound moves to the tablet whatever becomes of the first questions and of what an earlier
/// session left behind: once the sink is loaded and made the default output, it is captured, and the
/// way back leads to the sink that was named in the beginning, if one was.
pub proof fn the_sound_moves_whatever_fails_before(
    first: Result<Seq<char>, Seq<char>>,
    list: Result<Seq<char>, Seq<char>>,
    unloading: Seq<Result<Seq<char>, Seq<char>>>,
    module_id: Seq<char>,
    done: Seq<char>,
)
    requires
        unloading.len() == (match list {
            Ok(l) => stale_modules(l, 0).len(),
            Err(_) => 0nat,
        }),
    ensures
        stage_after_all(
            Stage::AskDefault,
            seq![first, list] + unloading + seq![Ok(module_id), Ok(done)],
        ) matches Stage::Ready { route } && route.target == "tabscreen"@ && route.module_id == Some(
            module_id,
        ) && (first matches Ok(sink) ==> route.previous_default == Some(sink)) && (first is Err
            ==> route.previous_default is None),
{
    let head = seq![first, list];
    let last: Seq<Result<Seq<char>, Seq<char>>> = seq![Ok(module_id), Ok(done)];
    let previous = match first {
        Ok(sink) => Some(sink),
        Err(_) => None,
    };
    let stale = match list {
        Ok(l) => stale_modules(l, 0),
        Err(_) => Seq::empty(),
    };
    reveal_with_fuel(stage_after_all, 3);
    assert(head.drop_last().drop_last() =~= Seq::empty());
    assert(stage_after_all(Stage::AskDefault, head) == unload_from(previous, stale, 0));
    leftovers_go_first(previous, stale, unloading);
    lemma_replies_in_parts(Stage::AskDefault, head, unloading);
    lemma_replies_in_parts(Stage::AskDefault, head + unloading, last);
    assert(last.drop_last().drop_last() =~= Seq::empty());
}

/// Undoing a routing makes the former sink the default output again, where there was one, and then
/// unloads the module, where one was loaded; and it does nothing else.
pub proof fn undoing_puts_everything_back(route: Route)
    ensures
        undoing(route).len() == (if route.previous_default is Some {
            1int
        } else {
            0
        }) + (if route.module_id is Some {
            1int
        } else {
            0
        }),
        route.previous_default matches Some(sink) ==> undoing(route)[0] == seq![
            "set-default-sink"@,
            sink,
        ],
        route.module_id matches Some(id) ==> undoing(route).last() == seq!["unload-module"@, id],
{
}

proof fn lemma_line_end_moves(front: Seq<char>, s: Seq<char>, i: int)
    requires
        0 <= i <= s.len(),
    ensures
        line_end(front + s, front.len() + i) == front.len() + line_end(s, i),
        i <= line_end(s, i) <= s.len(),
    decreases s.len() - i,
{
    if i < s.len() && s[i] != '\n' {
        lemma_line_end_moves(front, s, i + 1);
    }
}

proof fn lemma_lines_move(front: Seq<char>, s: Seq<char>, i: int)
    requires
        0 <= i <= s.len(),
    ensures
        stale_modules(front + s, front.len() + i) == stale_modules(s, i),
    decreases s.len() - i,
{
    let whole = front + s;
    let at = front.len() + i;
    lemma_line_end_moves(front, s, i);
    let e = line_end(s, i);
    assert(whole.subrange(at, whole.len() as int) =~= s.subrange(i, s.len() as int));
    if e < s.len() {
        assert(whole.subrange(at, front.len() + e) =~= s.subrange(i, e));
        lemma_lines_move(front, s, e + 1);
    }
}

proof fn lemma_line_has_one_end(line: Seq<char>, rest: Seq<char>, i: int)
    requires
        0 <= i <= line.len(),
        forall|k: int| 0 <= k < line.len() ==> #[trigger] line[k] != '\n',
        rest.len() > 0 ==> rest[0] == '\n',
    ensures
        line_end(line + rest, i) == line.len(),
    decreases line.len() - i,
{
    if i < line.len() {
        assert((line + rest)[i] == line[i]);
        lemma_line_has_one_end(line, rest, i + 1);
    }
}

/// A list of modules is read line by line: what a line names comes before what the rest names.
pub proof fn lists_are_read_line_by_line(line: Seq<char>, rest: Seq<char>)
    requires
        forall|k: int| 0 <= k < line.len() ==> #[trigger] line[k] != '\n',
    ensures
        stale_modules(line, 0) == stale_module(line),
        stale_modules(line + "\n"@ + rest, 0) == stale_module(line) + stale_modules(rest, 0),
{
    reveal_strlit("\n");
    lemma_line_has_one_end(line, Seq::empty(), 0);
    assert(line + Seq::<char>::empty() =~= line);
    assert(line.subrange(0, line.len() as int) =~= line);
    let list = line + "\n"@ + rest;
    assert(list =~= line + ("\n"@ + rest));
    lemma_line_has_one_end(line, "\n"@ + rest, 0);
    assert(list.subrange(0, line.len() as int) =~= line);
    lemma_lines_move(line + "\n"@, rest, 0);
}

proof fn lemma_word_ends(word: Seq<char>, rest: Seq<char>, i: int)
    requires
        0 <= i <= word.len(),
        forall|k: int| 0 <= k < word.len() ==> !is_space(#[trigger] word[k]),
        rest.len() > 0 ==> is_space(rest[0]),
    ensures
        word_end(word + rest, i) == word.len(),
    decreases word.len() - i,
{
    if i < word.len() {
        assert((word + rest)[i] == word[i]);
        lemma_word_ends(word, rest, i + 1);
    }
}

/// A line that starts with the number of a module and holds the argument by which the tablet's sink
/// is loaded names that module as left behind; a line without that argument names none.
pub proof fn leftovers_are_recognised(id: Seq<char>, rest: Seq<char>)
    requires
        id.len() > 0,
        forall|k: int| 0 <= k < id.len() ==> !is_space(#[trigger] id[k]),
        rest.len() > 0 ==> is_space(rest[0]),
    ensures
        occurs(id + rest, "sink_name="@ + "tabscreen"@) ==> stale_module(id + rest) == seq![id],
        !occurs(id + rest, "sink_name="@ + "tabscreen"@) ==> stale_module(id + rest) == Seq::<
            Seq<char>,
        >::empty(),
{
    let line = id + rest;
    assert(!is_space(line[0]));
    assert(trim_start(line) == line);
    lemma_word_ends(id, rest, 0);
    assert(line.take(id.len() as int) =~= id);
}

} // verus!
