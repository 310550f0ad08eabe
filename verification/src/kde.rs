//! What the desktop says of its outputs, and what to ask of it.
use crate::json::{parse, parsed, Json};
use crate::text::{
    contains, decimal, decimal_int, decimal_int_reads_back, decimal_reads_back, ends_in, notes,
    occurs, occurs_at, parts_occur, parts_set, push_decimal, push_decimal_i32, same_text, sets, texts,
    trim, trimmed,
};
use vstd::prelude::*;

verus! {

/// The bits of the double-precision number one.
pub const ONE_BITS: u64 = 0x3FF0_0000_0000_0000;

/// How often the name of a new output is looked for.
pub const RESOLVE_TRIES: u32 = 20;

/// How often mapping an input device is tried.
pub const MAP_TRIES: u32 = 40;

/// An output of the desktop.
pub struct OutputInfo {
    pub name: String,
    /// The scale, as the bits of a double-precision number.
    pub scale_bits: u64,
    pub current_mode: Option<String>,
    pub modes: Vec<String>,
}

/// What an output is.
pub struct Output {
    pub name: Seq<char>,
    pub scale_bits: u64,
    pub current_mode: Option<Seq<char>>,
    pub modes: Seq<Seq<char>>,
}

impl View for OutputInfo {
    type V = Output;

    open spec fn view(&self) -> Output {
        Output {
            name: self.name@,
            scale_bits: self.scale_bits,
            current_mode: match self.current_mode {
                Some(m) => Some(m@),
                None => None,
            },
            modes: texts(self.modes@),
        }
    }
}

/// What each output is.
pub open spec fn views(v: Seq<OutputInfo>) -> Seq<Output> {
    v.map_values(|o: OutputInfo| o@)
}

/// A text, or an empty one where there is none.
pub open spec fn or_empty(t: Option<Seq<char>>) -> Seq<char> {
    match t {
        Some(s) => s,
        None => Seq::empty(),
    }
}

/// The identifier of a mode.
pub open spec fn mode_id(m: Json) -> Seq<char> {
    or_empty(m.field("id"@).text())
}

/// The name of a mode.
pub open spec fn mode_name(m: Json) -> Seq<char> {
    or_empty(m.field("name"@).text())
}

/// The names of all modes.
pub open spec fn mode_names(modes: Seq<Json>) -> Seq<Seq<char>> {
    modes.map_values(|m: Json| mode_name(m))
}

/// The name of the first mode from `i` on with this identifier.
pub open spec fn mode_with_id(modes: Seq<Json>, id: Seq<char>, i: int) -> Option<Seq<char>>
    decreases modes.len() - i,
{
    if i < 0 || i >= modes.len() {
        None
    } else if mode_id(modes[i]) == id {
        Some(mode_name(modes[i]))
    } else {
        mode_with_id(modes, id, i + 1)
    }
}

/// An output as a document describes it. One without a list of modes or without a name is none.
pub open spec fn described(o: Json) -> Option<Output> {
    match (o.field("modes"@).items(), o.field("name"@).text()) {
        (Some(modes), Some(name)) => Some(
            Output {
                name,
                scale_bits: match o.field("scale"@).number() {
                    Some(bits) => bits,
                    None => ONE_BITS,
                },
                current_mode: mode_with_id(modes, or_empty(o.field("currentModeId"@).text()), 0),
                modes: mode_names(modes),
            },
        ),
        _ => None,
    }
}

/// The outputs among the first `n` entries of a list.
pub open spec fn described_all(list: Seq<Json>, n: int) -> Seq<Output>
    decreases n,
{
    if n <= 0 {
        Seq::empty()
    } else {
        match described(list[n - 1]) {
            Some(o) => described_all(list, n - 1).push(o),
            None => described_all(list, n - 1),
        }
    }
}

/// The outputs of a document, in its order.
pub open spec fn listed(doc: Json) -> Seq<Output> {
    match doc.field("outputs"@).items() {
        Some(list) => described_all(list, list.len() as int),
        None => Seq::empty(),
    }
}

/// Reads the modes of an output: identifiers and names.
fn read_modes(modes: &Vec<Json>) -> (r: (Vec<String>, Vec<String>))
    ensures
        r.0@.len() == modes@.len(),
        r.1@.len() == modes@.len(),
        forall|i: int| 0 <= i < modes@.len() ==> (#[trigger] r.0@[i])@ == mode_id(modes@[i]),
        forall|i: int| 0 <= i < modes@.len() ==> (#[trigger] r.1@[i])@ == mode_name(modes@[i]),
{
    let mut ids: Vec<String> = Vec::new();
    let mut names: Vec<String> = Vec::new();
    let mut i: usize = 0;
    let total: usize = modes.len();
    while i < total
        invariant
            total == modes@.len(),
            i <= total,
            ids@.len() == i,
            names@.len() == i,
            forall|k: int| 0 <= k < i ==> (#[trigger] ids@[k])@ == mode_id(modes@[k]),
            forall|k: int| 0 <= k < i ==> (#[trigger] names@[k])@ == mode_name(modes@[k]),
        decreases total - i,
    {
        ids.push(modes[i].get("id").str_or_empty());
        names.push(modes[i].get("name").str_or_empty());
        i = i + 1;
    }
    (ids, names)
}

/// Reads one output.
fn read_output(o: &Json) -> (r: Option<OutputInfo>)
    ensures
        match r {
            Some(info) => described(*o) == Some(info@),
            None => described(*o) is None,
        },
{
    let list = match o.get("modes") {
        Json::List(list) => list,
        _ => return None,
    };
    let name = match o.get("name").as_str() {
        Some(name) => name.to_owned(),
        None => return None,
    };
    let scale_bits: u64 = match o.get("scale") {
        Json::Number(Some(bits)) => *bits,
        _ => ONE_BITS,
    };
    let cur = o.get("currentModeId").str_or_empty();
    let (ids, modes) = read_modes(list);
    let mut current_mode: Option<String> = None;
    let mut i: usize = 0;
    let total: usize = ids.len();
    while i < total && current_mode.is_none()
        invariant
            total == ids@.len() == modes@.len() == list@.len(),
            i <= total,
            forall|k: int| 0 <= k < total ==> (#[trigger] ids@[k])@ == mode_id(list@[k]),
            forall|k: int| 0 <= k < total ==> (#[trigger] modes@[k])@ == mode_name(list@[k]),
            match current_mode {
                Some(m) => mode_with_id(list@, cur@, 0) == Some(m@),
                None => mode_with_id(list@, cur@, 0) == mode_with_id(list@, cur@, i as int),
            },
        decreases total - i,
    {
        if ids[i] == cur {
            current_mode = Some(modes[i].clone());
        }
        i = i + 1;
    }
    let info = OutputInfo { name, scale_bits, current_mode, modes };
    assert(texts(info.modes@) =~= mode_names(list@));
    Some(info)
}

/// The outputs that a parsed document describes.
pub fn outputs_of(doc: &Json) -> (r: Vec<OutputInfo>)
    ensures
        views(r@) == listed(*doc),
{
    let mut r: Vec<OutputInfo> = Vec::new();
    let list = match doc.get("outputs") {
        Json::List(list) => list,
        _ => {
            assert(views(r@) =~= Seq::empty());
            return r;
        },
    };
    let mut i: usize = 0;
    let total: usize = list.len();
    assert(views(r@) =~= Seq::empty());
    while i < total
        invariant
            total == list@.len(),
            i <= total,
            views(r@) == described_all(list@, i as int),
        decreases total - i,
    {
        let ghost before = r@;
        match read_output(&list[i]) {
            Some(info) => {
                r.push(info);
                assert(views(r@) =~= views(before).push(info@));
            },
            None => {},
        }
        i = i + 1;
    }
    r
}

/// The outputs that the desktop lists.
pub open spec fn desktop_outputs(stdout: Seq<u8>) -> Seq<Output> {
    match parsed(stdout) {
        Some(doc) => listed(doc),
        None => Seq::empty(),
    }
}

/// The outputs that the desktop lists on `stdout`; none where it lists no document.
pub fn outputs(stdout: &[u8]) -> (r: Vec<OutputInfo>)
    ensures
        views(r@) == desktop_outputs(stdout@),
{
    match parse(stdout) {
        Some(doc) => outputs_of(&doc),
        None => {
            let r: Vec<OutputInfo> = Vec::new();
            assert(views(r@) =~= Seq::empty());
            r
        },
    }
}

/// Whether an output of this name is among them.
pub open spec fn has_output(outs: Seq<Output>, name: Seq<char>) -> bool {
    exists|i: int| 0 <= i < outs.len() && (#[trigger] outs[i]).name == name
}

/// The name that the compositor gives a virtual output.
pub open spec fn virtual_name(requested: Seq<char>) -> Seq<char> {
    "Virtual-"@ + requested
}

/// Whether an output of this name is among them.
fn any_named(outs: &Vec<OutputInfo>, name: &str) -> (r: bool)
    ensures
        r == has_output(views(outs@), name@),
{
    let mut i: usize = 0;
    let total: usize = outs.len();
    while i < total
        invariant
            total == outs@.len(),
            i <= total,
            forall|k: int| 0 <= k < i ==> (#[trigger] views(outs@)[k]).name != name@,
        decreases total - i,
    {
        assert(views(outs@)[i as int] == outs@[i as int]@);
        if same_text(outs[i].name.as_str(), name) {
            return true;
        }
        i = i + 1;
    }
    false
}

/// What is known of the compositor's name for an output after a look at the list.
pub enum Resolution {
    /// The list has it.
    Found(String),
    /// Not there yet: look again.
    Retry,
    /// Still not there after the last look: go by the usual name.
    Assumed(String),
}

/// What is known of the compositor's name for an output.
pub enum Resolved {
    Found { name: Seq<char> },
    Retry,
    Assumed { name: Seq<char> },
}

impl View for Resolution {
    type V = Resolved;

    open spec fn view(&self) -> Resolved {
        match self {
            Resolution::Found(name) => Resolved::Found { name: name@ },
            Resolution::Retry => Resolved::Retry,
            Resolution::Assumed(name) => Resolved::Assumed { name: name@ },
        }
    }
}

/// What a look at the list says of the output that was asked for by `requested`.
pub open spec fn resolved(requested: Seq<char>, outs: Seq<Output>, tries: u32) -> Resolved {
    if has_output(outs, virtual_name(requested)) {
        Resolved::Found { name: virtual_name(requested) }
    } else if has_output(outs, requested) {
        Resolved::Found { name: requested }
    } else if tries + 1 < RESOLVE_TRIES {
        Resolved::Retry
    } else {
        Resolved::Assumed { name: virtual_name(requested) }
    }
}

/// A name that was found is in the list: the one with the prefix where the list has it, else the one
/// that was asked for. Nothing is assumed before twenty looks have failed, and then the name with the
/// prefix is.
pub proof fn names_are_found_in_the_list(requested: Seq<char>, outs: Seq<Output>, tries: u32)
    ensures
        ({
            let r = resolved(requested, outs, tries);
            let prefixed = "Virtual-"@ + requested;
            let lists = |name: Seq<char>|
                exists|i: int| 0 <= i < outs.len() && (#[trigger] outs[i]).name == name;
            &&& r matches Resolved::Found { name } ==> lists(name) && (name == prefixed || name
                == requested)
            &&& lists(prefixed) ==> r == Resolved::Found { name: prefixed }
            &&& !lists(prefixed) && lists(requested) ==> r == Resolved::Found { name: requested }
            &&& !lists(prefixed) && !lists(requested) && tries < 19 ==> r == Resolved::Retry
            &&& !lists(prefixed) && !lists(requested) && tries >= 19 ==> r == Resolved::Assumed {
                name: prefixed,
            }
        }),
{
}

/// One look for the output that was asked for by `requested`, after `tries` that found nothing. The
/// compositor's prefixed name is preferred to the name itself.
pub fn resolve_output_name(requested: &str, outs: &Vec<OutputInfo>, tries: u32) -> (r: Resolution)
    ensures
        r@ == resolved(requested@, views(outs@), tries),
{
    let mut prefixed = "Virtual-".to_owned();
    prefixed.append(requested);
    if any_named(outs, prefixed.as_str()) {
        return Resolution::Found(prefixed);
    }
    if any_named(outs, requested) {
        return Resolution::Found(requested.to_owned());
    }
    if tries < RESOLVE_TRIES - 1 {
        Resolution::Retry
    } else {
        Resolution::Assumed(prefixed)
    }
}

/// The arguments that make `busctl` map an input device onto an output.
pub open spec fn mapping_arguments(event_node: Seq<char>, output_name: Seq<char>) -> Seq<
    Seq<char>,
> {
    seq![
        "--user"@,
        "set-property"@,
        "org.kde.KWin"@,
        "/org/kde/KWin/InputDevice/"@ + event_node,
        "org.kde.KWin.InputDevice"@,
        "outputName"@,
        "s"@,
        output_name,
    ]
}

/// The call that maps an input device onto an output.
pub fn mapping_call(event_node: &str, output_name: &str) -> (r: Vec<String>)
    ensures
        texts(r@) == mapping_arguments(event_node@, output_name@),
{
    let mut path = "/org/kde/KWin/InputDevice/".to_owned();
    path.append(event_node);
    let mut r: Vec<String> = Vec::new();
    r.push("--user".to_owned());
    r.push("set-property".to_owned());
    r.push("org.kde.KWin".to_owned());
    r.push(path);
    r.push("org.kde.KWin.InputDevice".to_owned());
    r.push("outputName".to_owned());
    r.push("s".to_owned());
    r.push(output_name.to_owned());
    assert(texts(r@) =~= mapping_arguments(event_node@, output_name@));
    r
}

/// What to do after a call that was to map a device.
pub enum Mapping {
    Mapped,
    /// The compositor does not know the device yet.
    Retry,
    /// It never came to know it; why, in words.
    Failed(String),
}

/// What comes of a call that was to map a device, or nothing where it is to be made again.
pub open spec fn judged(
    event_node: Seq<char>,
    output_name: Seq<char>,
    success: bool,
    stderr: Seq<char>,
    tries: u32,
) -> Option<Result<(), Seq<char>>> {
    if success {
        Some(Ok(()))
    } else if tries + 1 < MAP_TRIES {
        None
    } else {
        Some(
            Err(
                "could not map "@ + event_node + " to '"@ + output_name + "': "@ + trimmed(stderr),
            ),
        )
    }
}

/// A device is mapped when a call says so, and given up after forty calls that do not. The reason
/// names the device, the output and the last complaint.
pub proof fn mapping_is_tried_forty_times(
    event_node: Seq<char>,
    output_name: Seq<char>,
    success: bool,
    stderr: Seq<char>,
    tries: u32,
)
    ensures
        ({
            let r = judged(event_node, output_name, success, stderr, tries);
            &&& success <==> r == Some(Ok::<(), Seq<char>>(()))
            &&& !success && tries < 39 <==> r is None
            &&& !success && tries >= 39 <==> (r matches Some(Err(_)))
            &&& r matches Some(Err(why)) ==> occurs(why, event_node) && occurs(why, output_name)
                && trimmed(stderr).is_suffix_of(why)
        }),
{
    let rest = " to '"@ + output_name + "': "@ + trimmed(stderr);
    let why = "could not map "@ + event_node + " to '"@ + output_name + "': "@ + trimmed(stderr);
    parts_occur("could not map "@, event_node, rest);
    assert("could not map "@ + event_node + rest =~= why);
    parts_occur("could not map "@ + event_node + " to '"@, output_name, "': "@ + trimmed(stderr));
    assert(("could not map "@ + event_node + " to '"@) + output_name + ("': "@ + trimmed(stderr))
        =~= why);
}

/// The call that maps a device names that device and that output, and no other.
pub proof fn mappings_are_told_apart(
    node: Seq<char>,
    output: Seq<char>,
    other_node: Seq<char>,
    other_output: Seq<char>,
)
    ensures
        mapping_arguments(node, output).len() == 8,
        mapping_arguments(node, output)[7] == output,
        node.is_suffix_of(mapping_arguments(node, output)[3]),
        "/org/kde/KWin/InputDevice/"@.is_prefix_of(mapping_arguments(node, output)[3]),
        mapping_arguments(node, output) == mapping_arguments(other_node, other_output) ==> node
            == other_node && output == other_output,
{
    let k = "/org/kde/KWin/InputDevice/"@;
    let a = mapping_arguments(node, output);
    let b = mapping_arguments(other_node, other_output);
    assert(a[3].skip(k.len() as int) =~= node);
    assert(b[3].skip(k.len() as int) =~= other_node);
    assert(b[7] == other_output);
}

/// Judges a call that was to map a device, after `tries` calls that failed.
pub fn map_device_to_output(
    event_node: &str,
    output_name: &str,
    success: bool,
    stderr: &str,
    tries: u32,
) -> (r: Mapping)
    ensures
        judged(event_node@, output_name@, success, stderr@, tries) == (match r {
            Mapping::Mapped => Some(Ok::<(), Seq<char>>(())),
            Mapping::Retry => None,
            Mapping::Failed(why) => Some(Err::<(), Seq<char>>(why@)),
        }),
{
    if success {
        return Mapping::Mapped;
    }
    if tries < MAP_TRIES - 1 {
        return Mapping::Retry;
    }
    let mut why = "could not map ".to_owned();
    why.append(event_node);
    why.append(" to '");
    why.append(output_name);
    why.append("': ");
    why.append(trim(stderr).as_str());
    Mapping::Failed(why)
}

/// Whether a run of `kscreen-doctor` failed: it ends in success even where it did not understand, so
/// what it prints counts too.
pub open spec fn kscreen_failed(success: bool, text: Seq<char>) -> bool {
    !success || occurs(text, "Unable"@) || occurs(text, "rror"@)
}

/// What is to be complained of after a run of `kscreen-doctor`, if anything.
pub open spec fn kscreen_complaint(
    arg: Seq<char>,
    success: bool,
    stdout: Seq<char>,
    stderr: Seq<char>,
) -> Option<Seq<char>> {
    if kscreen_failed(success, stdout + stderr) {
        Some("kscreen-doctor "@ + arg + ": "@ + trimmed(stdout + stderr))
    } else {
        None
    }
}

/// What stands in a part of a text stands in the text.
proof fn lemma_inside(front: Seq<char>, part: Seq<char>, back: Seq<char>, needle: Seq<char>)
    requires
        occurs(part, needle),
    ensures
        occurs(front + part + back, needle),
{
    let i = choose|i: int| occurs_at(part, needle, i);
    let s = front + part + back;
    assert(s.subrange(front.len() + i, front.len() + i + needle.len()) =~= part.subrange(
        i,
        i + needle.len(),
    ));
    assert(occurs_at(s, needle, front.len() + i));
}

/// What stands in a part that stands in a text stands in the text.
proof fn lemma_inside_of(s: Seq<char>, part: Seq<char>, needle: Seq<char>)
    requires
        occurs(s, part),
        occurs(part, needle),
    ensures
        occurs(s, needle),
{
    let i = choose|i: int| occurs_at(s, part, i);
    lemma_inside(s.take(i), part, s.skip((i + part.len()) as int), needle);
    assert(s.take(i) + part + s.skip((i + part.len()) as int) =~= s);
}

/// A run of `kscreen-doctor` failed if it says so by its status, or if it complains of an error or of
/// something that it was unable to do, on either of its outputs; one of which nothing of the kind can
/// be read went well. The complaint names the argument.
pub proof fn complaints_are_failures(
    arg: Seq<char>,
    success: bool,
    stdout: Seq<char>,
    stderr: Seq<char>,
)
    ensures
        ({
            let c = kscreen_complaint(arg, success, stdout, stderr);
            &&& !success ==> c is Some
            &&& occurs(stdout, "Unable"@) || occurs(stderr, "Unable"@) ==> c is Some
            &&& occurs(stdout, "Error"@) || occurs(stderr, "Error"@) ==> c is Some
            &&& occurs(stdout, "error"@) || occurs(stderr, "error"@) ==> c is Some
            &&& success && !occurs(stdout + stderr, "Unable"@) && !occurs(stdout + stderr, "rror"@)
                ==> c is None
            &&& c matches Some(why) ==> occurs(why, arg) && trimmed(stdout + stderr).is_suffix_of(
                why,
            )
        }),
{
    let text = stdout + stderr;
    let none = Seq::<char>::empty();
    reveal_strlit("Error");
    reveal_strlit("error");
    reveal_strlit("rror");
    assert("Error"@.subrange(1, 5) =~= "rror"@);
    assert("error"@.subrange(1, 5) =~= "rror"@);
    assert(occurs_at("Error"@, "rror"@, 1));
    assert(occurs_at("error"@, "rror"@, 1));
    assert(none + stdout + stderr =~= text);
    assert(stdout + stderr + none =~= text);
    if occurs(stdout, "Unable"@) {
        lemma_inside(none, stdout, stderr, "Unable"@);
    }
    if occurs(stderr, "Unable"@) {
        lemma_inside(stdout, stderr, none, "Unable"@);
    }
    if occurs(stdout, "Error"@) {
        lemma_inside_of(stdout, "Error"@, "rror"@);
        lemma_inside(none, stdout, stderr, "rror"@);
    }
    if occurs(stderr, "Error"@) {
        lemma_inside_of(stderr, "Error"@, "rror"@);
        lemma_inside(stdout, stderr, none, "rror"@);
    }
    if occurs(stdout, "error"@) {
        lemma_inside_of(stdout, "error"@, "rror"@);
        lemma_inside(none, stdout, stderr, "rror"@);
    }
    if occurs(stderr, "error"@) {
        lemma_inside_of(stderr, "error"@, "rror"@);
        lemma_inside(stdout, stderr, none, "rror"@);
    }
    parts_occur("kscreen-doctor "@, arg, ": "@ + trimmed(text));
    assert("kscreen-doctor "@ + arg + (": "@ + trimmed(text)) =~= "kscreen-doctor "@ + arg + ": "@
        + trimmed(text));
}

/// Judges a run of `kscreen-doctor` by its status and by what it printed.
pub fn kscreen(arg: &str, success: bool, stdout: &str, stderr: &str) -> (r: Result<(), String>)
    ensures
        match r {
            Ok(_) => kscreen_complaint(arg@, success, stdout@, stderr@) is None,
            Err(why) => kscreen_complaint(arg@, success, stdout@, stderr@) == Some(why@),
        },
{
    let mut text = stdout.to_owned();
    text.append(stderr);
    if !success || contains(text.as_str(), "Unable") || contains(text.as_str(), "rror") {
        let mut why = "kscreen-doctor ".to_owned();
        why.append(arg);
        why.append(": ");
        why.append(trim(text.as_str()).as_str());
        Err(why)
    } else {
        Ok(())
    }
}

/// The name of a mode.
pub open spec fn mode_text(width: i32, height: i32, refresh_hz: u32) -> Seq<char> {
    decimal_int(width as int) + "x"@ + decimal_int(height as int) + "@"@ + decimal(refresh_hz as nat)
}

/// The first output from `i` on with this name.
pub open spec fn output_named(outs: Seq<Output>, name: Seq<char>, i: int) -> Option<Output>
    decreases outs.len() - i,
{
    if i < 0 || i >= outs.len() {
        None
    } else if outs[i].name == name {
        Some(outs[i])
    } else {
        output_named(outs, name, i + 1)
    }
}

/// Whether the output runs in this mode already.
pub open spec fn runs_in(outs: Seq<Output>, name: Seq<char>, mode: Seq<char>) -> bool {
    output_named(outs, name, 0) matches Some(o) && o.current_mode == Some(mode)
}

/// Whether the output offers this mode.
pub open spec fn offers(outs: Seq<Output>, name: Seq<char>, mode: Seq<char>) -> bool {
    output_named(outs, name, 0) matches Some(o) && o.modes.contains(mode)
}

/// The request for a new mode. Its rate is counted in thousandths.
pub open spec fn add_mode_request(name: Seq<char>, width: i32, height: i32, refresh_hz: u32) -> Seq<
    char,
> {
    "output."@ + name + ".addCustomMode."@ + decimal_int(width as int) + "."@ + decimal_int(
        height as int,
    ) + "."@ + decimal((refresh_hz * 1000) as nat) + ".reduced"@
}

/// The request to switch to a mode.
pub open spec fn switch_request(name: Seq<char>, mode: Seq<char>) -> Seq<char> {
    "output."@ + name + ".mode."@ + mode
}

/// What to ask of `kscreen-doctor` for an output to run in some mode: first to add it, then to switch
/// to it.
pub struct ModePlan {
    pub add: Option<String>,
    pub switch: Option<String>,
}

impl View for ModePlan {
    type V = (Option<Seq<char>>, Option<Seq<char>>);

    open spec fn view(&self) -> (Option<Seq<char>>, Option<Seq<char>>) {
        (
            match self.add {
                Some(s) => Some(s@),
                None => None,
            },
            match self.switch {
                Some(s) => Some(s@),
                None => None,
            },
        )
    }
}

/// The requests that bring an output to run in a mode: to add it, and to switch to it.
pub open spec fn mode_requests(
    outs: Seq<Output>,
    name: Seq<char>,
    width: i32,
    height: i32,
    refresh_hz: u32,
) -> (Option<Seq<char>>, Option<Seq<char>>) {
    let mode = mode_text(width, height, refresh_hz);
    if runs_in(outs, name, mode) {
        (None, None)
    } else {
        (
            if offers(outs, name, mode) {
                None
            } else {
                Some(add_mode_request(name, width, height, refresh_hz))
            },
            Some(switch_request(name, mode)),
        )
    }
}

proof fn lemma_named(outs: Seq<Output>, name: Seq<char>, at: int, i: int)
    requires
        0 <= at <= i < outs.len(),
        outs[i].name == name,
        forall|k: int| 0 <= k < i ==> (#[trigger] outs[k]).name != name,
    ensures
        output_named(outs, name, at) == Some(outs[i]),
    decreases i - at,
{
    if at < i {
        assert(outs[at].name != name);
        lemma_named(outs, name, at + 1, i);
    }
}

proof fn lemma_not_named(outs: Seq<Output>, name: Seq<char>, at: int)
    requires
        0 <= at <= outs.len(),
        forall|k: int| 0 <= k < outs.len() ==> (#[trigger] outs[k]).name != name,
    ensures
        output_named(outs, name, at) is None,
    decreases outs.len() - at,
{
    if at < outs.len() {
        assert(outs[at].name != name);
        lemma_not_named(outs, name, at + 1);
    }
}

/// An output that runs in the mode already is left alone; one that offers it is switched to it; and
/// for any other the mode is added first. The first output of the name counts.
pub proof fn modes_are_added_where_they_are_missing(
    outs: Seq<Output>,
    name: Seq<char>,
    width: i32,
    height: i32,
    refresh_hz: u32,
    i: int,
)
    requires
        0 <= i < outs.len(),
        outs[i].name == name,
        forall|k: int| 0 <= k < i ==> (#[trigger] outs[k]).name != name,
    ensures
        ({
            let (add, switch) = mode_requests(outs, name, width, height, refresh_hz);
            let mode = mode_text(width, height, refresh_hz);
            &&& switch is None <==> outs[i].current_mode == Some(mode)
            &&& add is Some <==> outs[i].current_mode != Some(mode) && !outs[i].modes.contains(mode)
        }),
{
    lemma_named(outs, name, 0, i);
}

/// An output that is not listed gets the mode added, and is switched to it.
pub proof fn modes_are_added_to_unlisted_outputs(
    outs: Seq<Output>,
    name: Seq<char>,
    width: i32,
    height: i32,
    refresh_hz: u32,
)
    requires
        forall|k: int| 0 <= k < outs.len() ==> (#[trigger] outs[k]).name != name,
    ensures
        mode_requests(outs, name, width, height, refresh_hz).0 is Some,
        mode_requests(outs, name, width, height, refresh_hz).1 is Some,
{
    lemma_not_named(outs, name, 0);
}

/// The name of a mode can be read: the width, the height and the rate, in this order.
pub proof fn modes_are_named_by_their_numbers(width: i32, height: i32, refresh_hz: u32)
    ensures
        ({
            let text = mode_text(width, height, refresh_hz);
            &&& exists|v: Seq<char>|
                notes(v, width as int) && (#[trigger] (v + "x"@)).is_prefix_of(text)
            &&& sets(text, "x"@, height as int, "@"@)
            &&& ends_in(text, "@"@, refresh_hz as int)
        }),
{
    let text = mode_text(width, height, refresh_hz);
    let w = decimal_int(width as int);
    let h = decimal_int(height as int);
    let r = decimal(refresh_hz as nat);
    decimal_int_reads_back(width as int);
    decimal_int_reads_back(height as int);
    decimal_reads_back(refresh_hz as nat);
    assert((w + "x"@) =~= text.subrange(0, (w + "x"@).len() as int));
    assert((w + "x"@).is_prefix_of(text));
    parts_set(w, "x"@, h, height as int, "@"@, r);
    assert(w + "x"@ + h + "@"@ + r =~= text);
    assert(text == ((w + "x"@ + h) + "@"@) + r);
}

/// The requests name the output, and what is asked of it: a new mode of this width, height and rate,
/// which is counted in thousandths, or to switch to the mode of this name.
pub proof fn requests_say_what_is_asked(
    name: Seq<char>,
    width: i32,
    height: i32,
    refresh_hz: u32,
    mode: Seq<char>,
    scale: Seq<char>,
)
    ensures
        ({
            let add = add_mode_request(name, width, height, refresh_hz);
            &&& ("output."@ + name + ".addCustomMode."@).is_prefix_of(add)
            &&& sets(add, ".addCustomMode."@, width as int, "."@)
            &&& sets(add, "."@, height as int, "."@)
            &&& sets(add, "."@, 1000 * refresh_hz, ".reduced"@)
        }),
        ("output."@ + name + ".mode."@).is_prefix_of(switch_request(name, mode)),
        mode.is_suffix_of(switch_request(name, mode)),
        switch_request(name, mode).len() == ("output."@ + name + ".mode."@).len() + mode.len(),
        ("output."@ + name + ".scale."@).is_prefix_of(scale_request(name, scale)),
        scale.is_suffix_of(scale_request(name, scale)),
        scale_request(name, scale).len() == ("output."@ + name + ".scale."@).len() + scale.len(),
{
    let add = add_mode_request(name, width, height, refresh_hz);
    let w = decimal_int(width as int);
    let h = decimal_int(height as int);
    let r = decimal((refresh_hz * 1000) as nat);
    let head = "output."@ + name;
    let key = ".addCustomMode."@;
    let dot = "."@;
    let end = ".reduced"@;
    decimal_int_reads_back(width as int);
    decimal_int_reads_back(height as int);
    decimal_reads_back((refresh_hz * 1000) as nat);
    assert((head + key) =~= add.subrange(0, (head + key).len() as int));
    parts_set(head, key, w, width as int, dot, h + dot + r + end);
    assert(head + key + w + dot + (h + dot + r + end) =~= add);
    parts_set(head + key + w, dot, h, height as int, dot, r + end);
    assert((head + key + w) + dot + h + dot + (r + end) =~= add);
    let none = Seq::<char>::empty();
    parts_set(head + key + w + dot + h, dot, r, 1000 * refresh_hz, end, none);
    assert((head + key + w + dot + h) + dot + r + end + none =~= add);
}

/// Whether the string is one of these.
fn contains_text(v: &Vec<String>, s: &String) -> (r: bool)
    ensures
        r == texts(v@).contains(s@),
{
    let mut i: usize = 0;
    let total: usize = v.len();
    while i < total
        invariant
            total == v@.len(),
            i <= total,
            forall|k: int| 0 <= k < i ==> texts(v@)[k] != s@,
        decreases total - i,
    {
        assert(texts(v@)[i as int] == v@[i as int]@);
        if v[i] == *s {
            return true;
        }
        i = i + 1;
    }
    false
}

/// The first output with this name.
fn find_output<'a>(outs: &'a Vec<OutputInfo>, name: &str) -> (r: Option<&'a OutputInfo>)
    ensures
        match r {
            Some(o) => output_named(views(outs@), name@, 0) == Some(o@),
            None => output_named(views(outs@), name@, 0) is None,
        },
{
    let mut i: usize = 0;
    let total: usize = outs.len();
    while i < total
        invariant
            total == outs@.len(),
            i <= total,
            output_named(views(outs@), name@, 0) == output_named(views(outs@), name@, i as int),
        decreases total - i,
    {
        assert(views(outs@)[i as int] == outs@[i as int]@);
        if same_text(outs[i].name.as_str(), name) {
            return Some(&outs[i]);
        }
        i = i + 1;
    }
    None
}

/// Plans how an output comes to run in the mode of this size and rate: not at all where it runs in
/// it already, and by way of a new mode where it does not offer it yet.
pub fn set_output_mode(
    outs: &Vec<OutputInfo>,
    output_name: &str,
    width: i32,
    height: i32,
    refresh_hz: u32,
) -> (r: ModePlan)
    requires
        !runs_in(views(outs@), output_name@, mode_text(width, height, refresh_hz)) && !offers(
            views(outs@),
            output_name@,
            mode_text(width, height, refresh_hz),
        ) ==> refresh_hz * 1000 <= u32::MAX,
    ensures
        r@ == mode_requests(views(outs@), output_name@, width, height, refresh_hz),
{
    let mut mode = String::new();
    push_decimal_i32(&mut mode, width);
    mode.append("x");
    push_decimal_i32(&mut mode, height);
    mode.append("@");
    push_decimal(&mut mode, refresh_hz as u64);
    assert(mode@ =~= mode_text(width, height, refresh_hz));
    let mut offered = false;
    if let Some(o) = find_output(outs, output_name) {
        if let Some(current) = &o.current_mode {
            if *current == mode {
                return ModePlan { add: None, switch: None };
            }
        }
        offered = contains_text(&o.modes, &mode);
    }
    let add = if offered {
        None
    } else {
        let mut s = "output.".to_owned();
        s.append(output_name);
        s.append(".addCustomMode.");
        push_decimal_i32(&mut s, width);
        s.append(".");
        push_decimal_i32(&mut s, height);
        s.append(".");
        push_decimal(&mut s, (refresh_hz * 1000) as u64);
        s.append(".reduced");
        Some(s)
    };
    let mut switch = "output.".to_owned();
    switch.append(output_name);
    switch.append(".mode.");
    switch.append(mode.as_str());
    ModePlan { add, switch: Some(switch) }
}

/// The request that sets the scale of an output.
pub open spec fn scale_request(name: Seq<char>, scale: Seq<char>) -> Seq<char> {
    "output."@ + name + ".scale."@ + scale
}

/// The request that sets the scale of an output, which is given in words.
pub fn set_output_scale(output_name: &str, scale: &str) -> (r: String)
    ensures
        r@ == scale_request(output_name@, scale@),
{
    let mut s = "output.".to_owned();
    s.append(output_name);
    s.append(".scale.");
    s.append(scale);
    s
}

/// An output is what has a list of modes and a name. Its scale is one where none is given, its modes
/// have their names in the order of the list, and one without a name has an empty one.
pub proof fn outputs_are_what_is_described(o: Json)
    ensures
        described(o) is Some <==> o.field("modes"@) is List && o.field("name"@) is Text,
        described(o) matches Some(out) ==> {
            let modes = o.field("modes"@)->List_0@;
            &&& o.field("name"@).text() == Some(out.name)
            &&& o.field("scale"@) matches Json::Number(Some(bits)) ==> out.scale_bits == bits
            &&& o.field("scale"@).number() is None ==> out.scale_bits == 0x3FF0_0000_0000_0000
            &&& out.modes.len() == modes.len()
            &&& forall|i: int|
                0 <= i < modes.len() ==> (match (#[trigger] modes[i]).field("name"@) {
                    Json::Text(name) => out.modes[i] == name@,
                    _ => out.modes[i].len() == 0,
                })
        },
{
}

proof fn lemma_mode_found(modes: Seq<Json>, id: Seq<char>, at: int, i: int)
    requires
        0 <= at <= i < modes.len(),
        mode_id(modes[i]) == id,
        forall|k: int| 0 <= k < i ==> mode_id(#[trigger] modes[k]) != id,
    ensures
        mode_with_id(modes, id, at) == Some(mode_name(modes[i])),
    decreases i - at,
{
    if at < i {
        assert(mode_id(modes[at]) != id);
        lemma_mode_found(modes, id, at + 1, i);
    }
}

proof fn lemma_mode_not_found(modes: Seq<Json>, id: Seq<char>, at: int)
    requires
        0 <= at <= modes.len(),
        forall|k: int| 0 <= k < modes.len() ==> mode_id(#[trigger] modes[k]) != id,
    ensures
        mode_with_id(modes, id, at) is None,
    decreases modes.len() - at,
{
    if at < modes.len() {
        assert(mode_id(modes[at]) != id);
        lemma_mode_not_found(modes, id, at + 1);
    }
}

/// The identifier of a mode is the text that it has for one, or empty.
pub proof fn modes_have_an_identifier(m: Json)
    ensures
        m.field("id"@) matches Json::Text(id) ==> mode_id(m) == id@,
        !(m.field("id"@) is Text) ==> mode_id(m).len() == 0,
{
}

/// The mode that an output runs in is the first one of its list with the identifier that the output
/// gives, under its name; where no mode has it, the output runs in none.
pub proof fn the_current_mode_is_the_one_identified(o: Json, i: int)
    requires
        described(o) is Some,
    ensures
        ({
            let modes = o.field("modes"@)->List_0@;
            let id = or_empty(o.field("currentModeId"@).text());
            let out = described(o)->0;
            &&& 0 <= i < modes.len() && mode_id(modes[i]) == id && (forall|k: int|
                0 <= k < i ==> mode_id(#[trigger] modes[k]) != id) ==> out.current_mode == Some(
                out.modes[i],
            )
            &&& (forall|k: int| 0 <= k < modes.len() ==> mode_id(#[trigger] modes[k]) != id)
                ==> out.current_mode is None
        }),
{
    let modes = o.field("modes"@)->List_0@;
    let id = or_empty(o.field("currentModeId"@).text());
    if 0 <= i < modes.len() && mode_id(modes[i]) == id && (forall|k: int|
        0 <= k < i ==> mode_id(#[trigger] modes[k]) != id) {
        lemma_mode_found(modes, id, 0, i);
    }
    if forall|k: int| 0 <= k < modes.len() ==> mode_id(#[trigger] modes[k]) != id {
        lemma_mode_not_found(modes, id, 0);
    }
}

proof fn lemma_described_in_parts(a: Seq<Json>, b: Seq<Json>, n: int)
    requires
        0 <= n <= b.len(),
    ensures
        described_all(a + b, a.len() + n) == described_all(a, a.len() as int) + described_all(b, n),
    decreases n,
{
    if n == 0 {
        lemma_described_prefix(a, b, a.len() as int);
        assert(described_all(a, a.len() as int) + described_all(b, 0) =~= described_all(
            a,
            a.len() as int,
        ));
    } else {
        lemma_described_in_parts(a, b, n - 1);
        assert((a + b)[a.len() + n - 1] == b[n - 1]);
        assert(described_all(a + b, a.len() + n) =~= described_all(a, a.len() as int)
            + described_all(b, n));
    }
}

proof fn lemma_described_prefix(a: Seq<Json>, b: Seq<Json>, n: int)
    requires
        0 <= n <= a.len(),
    ensures
        described_all(a + b, n) == described_all(a, n),
    decreases n,
{
    if n > 0 {
        lemma_described_prefix(a, b, n - 1);
        assert((a + b)[n - 1] == a[n - 1]);
    }
}

/// A list of outputs keeps its order and leaves out only what is no output: the outputs of two lists
/// in a row are those of the first and then those of the second, and a list of one has that one, if
/// it is an output.
pub proof fn outputs_keep_their_order(a: Seq<Json>, b: Seq<Json>, o: Json)
    ensures
        described_all(a + b, (a + b).len() as int) == described_all(a, a.len() as int)
            + described_all(b, b.len() as int),
        described_all(seq![o], 1) == (match described(o) {
            Some(out) => seq![out],
            None => Seq::empty(),
        }),
{
    reveal_with_fuel(described_all, 2);
    lemma_described_in_parts(a, b, b.len() as int);
    if let Some(out) = described(o) {
        assert(Seq::<Output>::empty().push(out) =~= seq![out]);
    }
}

/// The outputs of the desktop are those of the list that its document has for them; what is no
/// document, or has no such list, lists none.
pub proof fn the_desktop_lists_its_outputs(stdout: Seq<u8>)
    ensures
        parsed(stdout) is None ==> desktop_outputs(stdout).len() == 0,
        parsed(stdout) matches Some(doc) ==> match doc.field("outputs"@) {
            Json::List(list) => desktop_outputs(stdout) == described_all(
                list@,
                list@.len() as int,
            ),
            _ => desktop_outputs(stdout).len() == 0,
        },
{
}

} // verus!
