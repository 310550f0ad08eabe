use tabscreen::audio::{
    capture_desc, captured_chunk, pactl, stale, AudioRoute, Routing,
};
use tabscreen::discovery::{hostname, reply, DISCOVERY_PORT};
use tabscreen::json::{parse, Json};
use tabscreen::kde::{
    kscreen, map_device_to_output, mapping_call, outputs, outputs_of, resolve_output_name,
    set_output_mode, set_output_scale, Mapping, OutputInfo, Resolution,
};
use tabscreen::paths::{applications_dir, config_dir};
use tabscreen::tray::{menu, Activation, Entry};
use tabscreen::trust::{desktop_entry, ensure_registered};
use tabscreen::video::{
    after_attempt, attempts, encoded_frame, encoder_chain, pipeline_desc, settle, startup, BusError,
    Codec, Convert, NextAttempt, Settings, Settled, Startup, StateChange,
};
use tabscreen::wayland::{Creation, Pointer, Shared, StreamEvent};

const DUMP: &str = r#"{
  "outputs": [
    {"name": "eDP-1", "scale": 1.25, "currentModeId": "2",
     "modes": [{"id": "1", "name": "1920x1080@60"}, {"id": "2", "name": "2560x1600@120"}, {"id": "2", "name": "twice"}]},
    {"name": "no modes"},
    {"modes": []},
    {"name": 5, "modes": []},
    {"name": "Virtual-TabScreen", "modes": [{"id": 7}, {"name": "800x600@60"}, 12]},
    "nonsense"
  ]
}"#;

#[test]
fn outputs_are_read_from_a_dump() {
    let outs = outputs(DUMP.as_bytes());
    assert_eq!(outs.len(), 2);
    assert_eq!(outs[0].name, "eDP-1");
    assert_eq!(f64::from_bits(outs[0].scale_bits), 1.25);
    assert_eq!(outs[0].current_mode.as_deref(), Some("2560x1600@120"));
    assert_eq!(outs[0].modes, vec!["1920x1080@60", "2560x1600@120", "twice"]);
    assert_eq!(outs[1].name, "Virtual-TabScreen");
    assert_eq!(f64::from_bits(outs[1].scale_bits), 1.0);
    // Without an identifier of the current mode, the first mode without one counts.
    assert_eq!(outs[1].current_mode.as_deref(), Some(""));
    assert_eq!(outs[1].modes, vec!["", "800x600@60", ""]);
}

#[test]
fn what_is_no_dump_has_no_outputs() {
    for text in ["", "{", "[]", "{}", "null", r#"{"outputs": {}}"#, r#"{"outputs": 3}"#] {
        assert!(outputs(text.as_bytes()).is_empty());
    }
    assert!(outputs(&[0xff, 0xfe]).is_empty());
}

#[test]
fn json_is_taken_apart() {
    let doc = parse(br#"{"a": [null, true, 2, -0.5, "x"], "b": {"c": "d"}}"#).unwrap();
    match doc.get("a") {
        Json::List(v) => {
            assert_eq!(v.len(), 5);
            assert!(matches!(v[0], Json::Null));
            assert!(matches!(v[1], Json::Bool(true)));
            assert!(matches!(v[2], Json::Number(Some(b)) if b == 2.0f64.to_bits()));
            assert!(matches!(v[3], Json::Number(Some(b)) if b == (-0.5f64).to_bits()));
            assert_eq!(v[4].as_str(), Some("x"));
        }
        _ => unreachable!(),
    }
    assert_eq!(doc.get("b").get("c").as_str(), Some("d"));
    assert_eq!(doc.get("b").get("e").as_str(), None);
    assert_eq!(doc.get("b").get("e").str_or_empty(), "");
    assert!(matches!(doc.get("a").get("b"), Json::Null));
    assert!(parse(b"{]").is_none());
}

#[test]
fn outputs_are_read_from_plain_values() {
    let doc = Json::Fields(vec![(
        "outputs".to_string(),
        Json::List(vec![Json::Fields(vec![
            ("name".to_string(), Json::Text("X".to_string())),
            ("modes".to_string(), Json::List(vec![])),
            ("scale".to_string(), Json::Number(None)),
        ])]),
    )]);
    let outs = outputs_of(&doc);
    assert_eq!(outs.len(), 1);
    assert_eq!(outs[0].name, "X");
    assert_eq!(outs[0].scale_bits, 1.0f64.to_bits());
    assert_eq!(outs[0].current_mode, None);
}

fn output(name: &str, current: Option<&str>, modes: &[&str]) -> OutputInfo {
    OutputInfo {
        name: name.to_string(),
        scale_bits: 0,
        current_mode: current.map(|s| s.to_string()),
        modes: modes.iter().map(|s| s.to_string()).collect(),
    }
}

#[test]
fn the_compositors_name_is_found() {
    let both = vec![output("Tab", None, &[]), output("Virtual-Tab", None, &[])];
    assert!(matches!(resolve_output_name("Tab", &both, 0), Resolution::Found(n) if n == "Virtual-Tab"));
    let plain = vec![output("Tab", None, &[])];
    assert!(matches!(resolve_output_name("Tab", &plain, 19), Resolution::Found(n) if n == "Tab"));
    let none = vec![output("Tablet", None, &[])];
    assert!(matches!(resolve_output_name("Tab", &none, 0), Resolution::Retry));
    assert!(matches!(resolve_output_name("Tab", &none, 18), Resolution::Retry));
    assert!(
        matches!(resolve_output_name("Tab", &none, 19), Resolution::Assumed(n) if n == "Virtual-Tab")
    );
}

#[test]
fn devices_are_mapped_with_patience() {
    assert_eq!(
        mapping_call("event5", "Virtual-Tab"),
        vec![
            "--user",
            "set-property",
            "org.kde.KWin",
            "/org/kde/KWin/InputDevice/event5",
            "org.kde.KWin.InputDevice",
            "outputName",
            "s",
            "Virtual-Tab"
        ]
    );
    assert!(matches!(map_device_to_output("e", "o", true, "x", 39), Mapping::Mapped));
    assert!(matches!(map_device_to_output("e", "o", false, "x", 38), Mapping::Retry));
    assert!(matches!(
        map_device_to_output("e", "o", false, " no such object\n", 39),
        Mapping::Failed(why) if why == "could not map e to 'o': no such object"
    ));
}

#[test]
fn kscreen_fails_by_what_it_prints() {
    assert_eq!(kscreen("a", true, "fine", ""), Ok(()));
    assert_eq!(
        kscreen("a.b", true, "", "Unable to parse\n"),
        Err("kscreen-doctor a.b: Unable to parse".to_string())
    );
    assert_eq!(
        kscreen("a", true, "Error: x", "y"),
        Err("kscreen-doctor a: Error: xy".to_string())
    );
    assert_eq!(kscreen("a", false, "ok", ""), Err("kscreen-doctor a: ok".to_string()));
    // The two parts are looked at as one.
    assert!(kscreen("a", true, "er", "ror").is_err());
}

#[test]
fn modes_are_added_and_selected() {
    let missing = vec![output("V", Some("800x600@60"), &["800x600@60"])];
    let plan = set_output_mode(&missing, "V", 2960, 1848, 120);
    assert_eq!(plan.add.as_deref(), Some("output.V.addCustomMode.2960.1848.120000.reduced"));
    assert_eq!(plan.switch.as_deref(), Some("output.V.mode.2960x1848@120"));
    let offered = vec![output("V", None, &["800x600@60", "2960x1848@120"])];
    let plan = set_output_mode(&offered, "V", 2960, 1848, 120);
    assert_eq!(plan.add, None);
    assert_eq!(plan.switch.as_deref(), Some("output.V.mode.2960x1848@120"));
    let running = vec![output("V", Some("2960x1848@120"), &[])];
    let plan = set_output_mode(&running, "V", 2960, 1848, 120);
    assert_eq!(plan.add, None);
    assert_eq!(plan.switch, None);
    let unknown = set_output_mode(&vec![], "V", -2, 4, 30);
    assert_eq!(unknown.add.as_deref(), Some("output.V.addCustomMode.-2.4.30000.reduced"));
    assert_eq!(unknown.switch.as_deref(), Some("output.V.mode.-2x4@30"));
    assert_eq!(set_output_scale("V", "1.5"), "output.V.scale.1.5");
}

fn settings(codec: Codec, fps: u32, pipeline_override: Option<&str>) -> Settings {
    Settings {
        codec,
        bitrate_kbps: 20000,
        fps,
        convert: Convert::Auto,
        pipeline_override: pipeline_override.map(|s| s.to_string()),
    }
}

#[test]
fn pipelines_are_described() {
    let s = settings(Codec::H264, 120, None);
    assert_eq!(
        pipeline_desc(42, &s, Convert::Va),
        "pipewiresrc path=42 do-timestamp=true keepalive-time=1000 ! queue max-size-buffers=3 leaky=downstream ! vapostproc ! video/x-raw(memory:VAMemory),format=NV12 ! vah264enc rate-control=cbr bitrate=20000 target-usage=6 key-int-max=240 b-frames=0 ref-frames=1 ! h264parse config-interval=-1 ! video/x-h264,stream-format=byte-stream,alignment=au,profile=main ! appsink name=sink sync=false max-buffers=2 drop=true"
    );
    assert!(pipeline_desc(42, &s, Convert::Cpu)
        .contains(" ! videoconvert n-threads=4 ! video/x-raw,format=NV12 ! "));
    assert_eq!(
        encoder_chain(Codec::Hevc, &settings(Codec::H264, 0, None)),
        "vah265enc rate-control=cbr bitrate=20000 target-usage=6 key-int-max=2 b-frames=0 ref-frames=1 ! h265parse config-interval=-1 ! video/x-h265,stream-format=byte-stream,alignment=au"
    );
    assert_eq!(
        encoder_chain(Codec::Av1, &settings(Codec::Av1, 60, None)),
        "vaav1enc rate-control=cbr bitrate=20000 target-usage=6 key-int-max=120 b-frames=0 ref-frames=1 ! av1parse ! video/x-av1,stream-format=obu-stream,alignment=tu"
    );
    assert_eq!(
        pipeline_desc(7, &settings(Codec::H264, u32::MAX, Some("src {node} ! {node} {nod")), Convert::Va),
        "src 7 ! 7 {nod"
    );
}

#[test]
fn codecs_survive_the_wire() {
    for c in [Codec::H264, Codec::Hevc, Codec::Av1] {
        assert_eq!(Codec::from_wire(c.wire()), Some(c));
    }
    assert_eq!(Codec::Hevc.wire(), 2);
    assert_eq!(Codec::from_wire(0), None);
    assert_eq!(Codec::from_wire(4), None);
}

#[test]
fn conversions_are_tried_in_order() {
    assert_eq!(attempts(Convert::Auto), vec![Convert::Va, Convert::Cpu]);
    assert_eq!(attempts(Convert::Va), vec![Convert::Va]);
    assert_eq!(attempts(Convert::Cpu), vec![Convert::Cpu]);
}

#[test]
fn attempts_follow_one_another() {
    assert_eq!(after_attempt(Convert::Auto, 0, false), NextAttempt::Try(Convert::Va));
    assert_eq!(after_attempt(Convert::Auto, 1, false), NextAttempt::Try(Convert::Cpu));
    assert_eq!(after_attempt(Convert::Auto, 1, true), NextAttempt::Keep);
    assert_eq!(after_attempt(Convert::Auto, 2, false), NextAttempt::GiveUp);
    assert_eq!(after_attempt(Convert::Auto, 2, true), NextAttempt::Keep);
    assert_eq!(after_attempt(Convert::Va, 0, false), NextAttempt::Try(Convert::Va));
    assert_eq!(after_attempt(Convert::Va, 1, false), NextAttempt::GiveUp);
    assert_eq!(after_attempt(Convert::Cpu, usize::MAX, false), NextAttempt::GiveUp);
}

type Started = Result<&'static str, &'static str>;

fn start(convert: Convert, va: Started, cpu: Started) -> (Started, Vec<Convert>) {
    let mut tried = Vec::new();
    let mut conv = match after_attempt(convert, 0, false) {
        NextAttempt::Try(c) => c,
        _ => unreachable!(),
    };
    loop {
        tried.push(conv);
        let outcome = if conv == Convert::Va { va } else { cpu };
        match settle(convert, tried.len(), outcome) {
            Settled::Running(p) => return (Ok(p), tried),
            Settled::Try(next) => conv = next,
            Settled::Failed(e) => return (Err(e), tried),
        }
    }
}

#[test]
fn the_first_pipeline_to_start_is_kept() {
    let (va, cpu) = (Convert::Va, Convert::Cpu);
    assert_eq!(start(Convert::Auto, Ok("va"), Ok("cpu")), (Ok("va"), vec![va]));
    assert_eq!(start(Convert::Auto, Ok("va"), Err("no cpu")), (Ok("va"), vec![va]));
    assert_eq!(start(Convert::Auto, Err("no va"), Ok("cpu")), (Ok("cpu"), vec![va, cpu]));
    assert_eq!(start(Convert::Auto, Err("no va"), Err("no cpu")), (Err("no cpu"), vec![va, cpu]));
    assert_eq!(start(va, Err("no va"), Ok("cpu")), (Err("no va"), vec![va]));
    assert_eq!(start(cpu, Ok("va"), Err("no cpu")), (Err("no cpu"), vec![cpu]));
}

#[test]
fn pipelines_start_or_fail() {
    let err = || Some(BusError { error: "no VA".to_string(), debug: "dri".to_string() });
    assert!(matches!(
        startup(err(), StateChange::Success, 0),
        Startup::Failed(why) if why == "no VA (dri)"
    ));
    assert!(matches!(startup(None, StateChange::Success, 99999), Startup::Running));
    assert!(matches!(startup(None, StateChange::Pending, 7999), Startup::Wait));
    assert!(matches!(
        startup(None, StateChange::Pending, 8000),
        Startup::Failed(why) if why == "pipeline did not reach PLAYING in time"
    ));
    assert!(matches!(
        startup(None, StateChange::Failure("x".to_string()), 0),
        Startup::Failed(why) if why == "state change failed: x"
    ));
}

#[test]
fn samples_become_messages() {
    let f = encoded_frame(true, Some(5), vec![1, 2]);
    assert_eq!((f.pts_ns, f.keyframe, f.data), (5, false, vec![1, 2]));
    let f = encoded_frame(false, None, vec![]);
    assert_eq!((f.pts_ns, f.keyframe, f.data), (0, true, vec![]));
    let c = captured_chunk(Some(9), vec![3]);
    assert_eq!((c.pts_ns, c.data), (9, vec![3]));
    assert_eq!(captured_chunk(None, vec![]).pts_ns, 0);
}

fn words(v: &[&str]) -> Vec<String> {
    v.iter().map(|s| s.to_string()).collect()
}

#[test]
fn pactl_answers_are_read() {
    let args = words(&["set-default-sink", "x"]);
    assert_eq!(pactl(&args, true, " alsa_out\n", "noise"), Ok("alsa_out".to_string()));
    assert_eq!(
        pactl(&args, false, "", " no such sink \n"),
        Err("pactl set-default-sink x: no such sink".to_string())
    );
    assert_eq!(pactl(&vec![], false, "", "e"), Err("pactl : e".to_string()));
}

#[test]
fn leftover_sinks_are_found() {
    let list = "1\tmodule-null-sink\tsink_name=tabscreen x\r\n2\tmodule-x\n  33 module-null-sink sink_name=tabscreen2\n\nsink_name=tabscreen";
    assert_eq!(stale(list), words(&["1", "33", "sink_name=tabscreen"]));
    assert_eq!(stale(""), words(&[]));
    assert_eq!(stale("4 sink_name=tabscree\nn"), words(&[]));
}

#[test]
fn the_sound_moves_to_the_tablet_and_back() {
    let mut r = AudioRoute::tablet_only();
    let mut asked: Vec<Vec<String>> = Vec::new();
    let replies = [
        Ok("speakers"),
        Ok("5 a sink_name=tabscreen\n6 b sink_name=tabscreen"),
        Err("busy"),
        Ok(""),
        Ok("77"),
        Ok(""),
    ];
    for reply in replies {
        asked.push(r.command().unwrap());
        r = r.advance(reply.map(|s: &str| s.to_string()).map_err(|s: &str| s.to_string()));
    }
    assert_eq!(
        asked,
        vec![
            words(&["get-default-sink"]),
            words(&["list", "short", "modules"]),
            words(&["unload-module", "5"]),
            words(&["unload-module", "6"]),
            words(&[
                "load-module",
                "module-null-sink",
                "sink_name=tabscreen",
                "sink_properties=device.description=TabScreen"
            ]),
            words(&["set-default-sink", "tabscreen"]),
        ]
    );
    assert!(r.command().is_none());
    match r {
        Routing::Ready { route } => {
            assert_eq!(route.capture_target(), "tabscreen");
            assert_eq!(
                route.restore(),
                vec![words(&["set-default-sink", "speakers"]), words(&["unload-module", "77"])]
            );
        }
        _ => unreachable!(),
    }
}

#[test]
fn the_move_of_the_sound_can_fail() {
    let no = |s: &str| -> Result<String, String> { Err(s.to_string()) };
    let r = AudioRoute::tablet_only().advance(no("a")).advance(no("b"));
    assert_eq!(r.command().unwrap()[0], "load-module");
    assert!(matches!(r.advance(no("c")), Routing::Failed { why } if why == "c"));
    let r = AudioRoute::tablet_only()
        .advance(no("a"))
        .advance(Ok("nothing".to_string()))
        .advance(Ok("8".to_string()))
        .advance(no("d"));
    assert!(r.command().is_none());
    assert!(matches!(r, Routing::Failed { why } if why == "d"));
    let ready = AudioRoute::tablet_only()
        .advance(no("a"))
        .advance(no("b"))
        .advance(Ok("8".to_string()))
        .advance(Ok(String::new()));
    match ready {
        Routing::Ready { route } => assert_eq!(route.restore(), vec![words(&["unload-module", "8"])]),
        _ => unreachable!(),
    }
}

#[test]
fn playing_on_both_changes_nothing() {
    let route = AudioRoute::both(Ok("speakers".to_string())).ok().unwrap();
    assert_eq!(route.capture_target(), "speakers");
    assert!(route.restore().is_empty());
    assert_eq!(AudioRoute::both(Err("x".to_string())).err().as_deref(), Some("x"));
}

#[test]
fn sound_is_captured() {
    assert_eq!(
        capture_desc("tabscreen"),
        "pipewiresrc target-object=tabscreen do-timestamp=true stream-properties=\"props,stream.capture.sink=true,node.latency=480/48000,media.name=TabScreen\" ! audio/x-raw,format=S16LE,rate=48000,channels=2,layout=interleaved ! audioconvert ! audioresample ! appsink name=sink sync=false max-buffers=8 drop=true"
    );
}

#[test]
fn discovery_answers_exactly_the_question() {
    assert_eq!(DISCOVERY_PORT, 7742);
    let mut expected = b"TABSCREEN!".to_vec();
    expected.extend_from_slice(&7741u16.to_le_bytes());
    expected.extend_from_slice("bücher".as_bytes());
    assert_eq!(reply(b"TABSCREEN?", 7741, "bücher"), Some(expected));
    for other in [&b"TABSCREEN"[..], b"TABSCREEN??", b"TABSCREEN!", b""] {
        assert_eq!(reply(other, 7741, "x"), None);
    }
    assert_eq!(hostname(Some("laptop\n")), "laptop");
    assert_eq!(hostname(Some(" \u{3000}a b\u{85}")), "a b");
    assert_eq!(hostname(None), "linux");
}

#[test]
fn directories_follow_the_conventions() {
    let v = |s: &str| Some(s.as_bytes().to_vec());
    assert_eq!(config_dir(v("/cfg"), None), b"/cfg/tabscreen");
    assert_eq!(config_dir(v("/cfg/"), v("/home/u")), b"/cfg/tabscreen");
    assert_eq!(config_dir(v("cfg"), v("/home/u")), b"/home/u/.config/tabscreen");
    assert_eq!(config_dir(v(""), v("/home/u/")), b"/home/u/.config/tabscreen");
    assert_eq!(config_dir(None, v("")), b".config/tabscreen");
    assert_eq!(applications_dir(None, v("/home/u")), b"/home/u/.local/share/applications");
    assert_eq!(applications_dir(v("/data"), None), b"/data/applications");
}

#[test]
fn the_desktop_entry_is_written_once() {
    let entry = desktop_entry("/usr/bin/tabscreen-server");
    assert_eq!(
        entry,
        "[Desktop Entry]\nType=Application\nName=TabScreen Server\nComment=Second screen server for tablets (registered automatically)\nExec=/usr/bin/tabscreen-server\nNoDisplay=true\nX-KDE-Wayland-Interfaces=zkde_screencast_unstable_v1\n"
    );
    let exe = "/usr/bin/tabscreen-server";
    assert_eq!(ensure_registered(exe, None), Some(entry.clone()));
    assert_eq!(ensure_registered(exe, Some("old")), Some(entry.clone()));
    assert_eq!(ensure_registered(exe, Some(&entry)), None);
}

#[test]
fn virtual_outputs_come_fail_or_take_too_long() {
    assert_eq!(
        [Pointer::Hidden.wire(), Pointer::Embedded.wire(), Pointer::Metadata.wire()],
        [1, 2, 4]
    );
    let mut s = Shared::new();
    assert!(!s.is_closed());
    s.note(StreamEvent::Other);
    assert!(matches!(s.creation(5_000_000_000), Creation::Wait));
    assert!(matches!(
        s.creation(5_000_000_001),
        Creation::Failed(why) if why == "timed out waiting for KWin to create the virtual output"
    ));
    s.note(StreamEvent::Closed);
    assert!(s.is_closed());
    assert!(matches!(
        s.creation(0),
        Creation::Failed(why) if why == "stream closed before it was created"
    ));
    s.note(StreamEvent::Failed("denied".to_string()));
    assert!(matches!(
        s.creation(0),
        Creation::Failed(why) if why == "virtual output creation failed: denied"
    ));
    s.note(StreamEvent::Created(77));
    assert!(matches!(s.creation(u128::MAX), Creation::Ready(77)));
    assert!(s.is_closed());
}

#[test]
fn the_tray_offers_what_is_possible() {
    let shown: Vec<(String, String, bool, Activation)> = menu("Waiting", false)
        .into_iter()
        .filter_map(|e| match e {
            Entry::Separator => None,
            Entry::Item { label, icon_name, enabled, activation } => {
                Some((label, icon_name, enabled, activation))
            }
        })
        .collect();
    assert_eq!(
        shown,
        vec![
            ("Waiting".to_string(), String::new(), false, Activation::Nothing),
            (
                "Disconnect tablet".to_string(),
                "network-disconnect".to_string(),
                false,
                Activation::Disconnect
            ),
            (
                "Quit TabScreen server".to_string(),
                "application-exit".to_string(),
                true,
                Activation::Quit
            ),
        ]
    );
    let connected = menu("Connected", true);
    assert_eq!(connected.len(), 5);
    assert!(matches!(connected[1], Entry::Separator));
    assert!(matches!(connected[3], Entry::Separator));
    assert!(matches!(connected[2], Entry::Item { enabled: true, .. }));
}
