use tabscreen::protocol::{
    audio_chunk, audio_config, frame, parse_hello, parse_pen_batch, parse_touch_batch, read_u32,
    stream_config, video_frame, Hello, PenEvent, Reader, TouchEvent, Truncated, AUDIO_FORMAT_S16LE,
    AUDIO_NONE, CODEC_HEVC, FIRST_VERSION, MODE_SCREEN, MODE_TOUCHPAD, MSG_PONG, VERSION,
};

fn hello_bytes() -> Vec<u8> {
    let mut p = Vec::new();
    p.extend_from_slice(&VERSION.to_le_bytes());
    p.extend_from_slice(&2960u16.to_le_bytes());
    p.extend_from_slice(&1848u16.to_le_bytes());
    p.extend_from_slice(&120u16.to_le_bytes());
    p.push(0b011);
    p.push(CODEC_HEVC);
    p.extend_from_slice(&314.5f32.to_le_bytes());
    p.extend_from_slice(&196.25f32.to_le_bytes());
    p.push(MODE_TOUCHPAD);
    p.push(2);
    p
}

#[test]
fn frame_layout() {
    assert_eq!(frame(MSG_PONG, &[1, 2, 3]), vec![0x84, 3, 0, 0, 0, 1, 2, 3]);
    assert_eq!(frame(5, &[]), vec![5, 0, 0, 0, 0]);
    let long = vec![9u8; 0x1_0203];
    let f = frame(1, &long);
    assert_eq!(&f[..5], &[1, 0x03, 0x02, 0x01, 0x00]);
    assert_eq!(f.len(), 5 + 0x1_0203);
}

#[test]
fn reader_reads_little_endian_and_stops_at_the_end() {
    let data = [7u8, 0x34, 0x12, 8, 7, 6, 5, 4, 3, 2, 1, 0, 0, 0x80, 0x3f, 9];
    let mut r = Reader::new(&data);
    assert_eq!(r.u8(), Ok(7));
    assert_eq!(r.u16(), Ok(0x1234));
    assert_eq!(r.u64(), Ok(0x0102030405060708));
    assert_eq!(r.f32_bits().map(f32::from_bits), Ok(1.0));
    assert_eq!(r.u16(), Err(Truncated));
    assert_eq!(r.u8(), Ok(9));
    assert_eq!(r.u8(), Err(Truncated));
    assert_eq!(read_u32(&[0, 1, 2, 3, 4], 1), 0x04030201);
}

#[test]
fn hello_is_read() {
    let p = hello_bytes();
    assert_eq!(p.len(), 20);
    assert_eq!(
        parse_hello(&p),
        Ok(Hello {
            version: VERSION,
            width: 2960,
            height: 1848,
            refresh: 120,
            codecs: 3,
            preferred_codec: CODEC_HEVC,
            width_mm: 314.5f32.to_bits(),
            height_mm: 196.25f32.to_bits(),
            mode: MODE_TOUCHPAD,
            audio: 2,
        })
    );
    let mut longer = p.clone();
    longer.push(77);
    assert_eq!(parse_hello(&longer), parse_hello(&p));
    for n in 0..18 {
        assert_eq!(parse_hello(&p[..n]), Err(Truncated));
    }
}

#[test]
fn a_hello_may_end_before_mode_and_sound() {
    let mut p = hello_bytes();
    p[..2].copy_from_slice(&FIRST_VERSION.to_le_bytes());
    let full = parse_hello(&p).unwrap();
    assert_eq!((full.mode, full.audio), (MODE_TOUCHPAD, 2));
    assert_eq!(parse_hello(&p[..19]), Ok(Hello { audio: AUDIO_NONE, ..full }));
    assert_eq!(
        parse_hello(&p[..18]),
        Ok(Hello {
            version: 1,
            width: 2960,
            height: 1848,
            refresh: 120,
            codecs: 3,
            preferred_codec: CODEC_HEVC,
            width_mm: 314.5f32.to_bits(),
            height_mm: 196.25f32.to_bits(),
            mode: MODE_SCREEN,
            audio: AUDIO_NONE,
        })
    );
}

#[test]
fn pen_batch_is_read() {
    let mut p = Vec::new();
    p.extend_from_slice(&2u16.to_le_bytes());
    for k in 0..2u8 {
        p.extend_from_slice(&(1000u64 + k as u64).to_le_bytes());
        p.extend_from_slice(&[3 + k, 1, 2, 0xee]);
        for v in [0.25f32, 0.5, 0.75, -30.0, 45.0, 0.125] {
            p.extend_from_slice(&v.to_le_bytes());
        }
    }
    let events = parse_pen_batch(&p).unwrap();
    assert_eq!(events.len(), 2);
    assert_eq!(
        events[1],
        PenEvent {
            t_ns: 1001,
            action: 4,
            tool: 1,
            buttons: 2,
            x: 0.25f32.to_bits(),
            y: 0.5f32.to_bits(),
            pressure: 0.75f32.to_bits(),
            tilt_x: (-30.0f32).to_bits(),
            tilt_y: 45.0f32.to_bits(),
            distance: 0.125f32.to_bits(),
        }
    );
    assert_eq!(events[0].t_ns, 1000);
    assert_eq!(parse_pen_batch(&p[..p.len() - 1]), Err(Truncated));
    assert_eq!(parse_pen_batch(&[0]), Err(Truncated));
    assert_eq!(parse_pen_batch(&[0, 0]), Ok(vec![]));
}

#[test]
fn touch_batch_is_read() {
    let mut p = Vec::new();
    p.extend_from_slice(&1u16.to_le_bytes());
    p.extend_from_slice(&42u64.to_le_bytes());
    p.extend_from_slice(&[2, 9, 0xaa, 0xbb]);
    for v in [0.1f32, 0.2, 0.3, 0.4] {
        p.extend_from_slice(&v.to_le_bytes());
    }
    assert_eq!(
        parse_touch_batch(&p),
        Ok(vec![TouchEvent {
            t_ns: 42,
            action: 2,
            id: 9,
            x: 0.1f32.to_bits(),
            y: 0.2f32.to_bits(),
            pressure: 0.3f32.to_bits(),
            major: 0.4f32.to_bits(),
        }])
    );
    assert_eq!(parse_touch_batch(&p[..29]), Err(Truncated));
    // A count that promises more than there is.
    p[0] = 2;
    assert_eq!(parse_touch_batch(&p), Err(Truncated));
}

#[test]
fn server_messages_have_their_layout() {
    assert_eq!(
        stream_config(2, 2960, 1848, 120),
        vec![0x81, 7, 0, 0, 0, 2, 0x90, 0x0b, 0x38, 0x07, 120, 0]
    );
    assert_eq!(
        audio_config(AUDIO_FORMAT_S16LE, 48000, 2),
        vec![0x83, 6, 0, 0, 0, 1, 0x80, 0xbb, 0, 0, 2]
    );
    assert_eq!(
        audio_chunk(0x0102030405060708, &[0xaa, 0xbb]),
        vec![0x85, 10, 0, 0, 0, 8, 7, 6, 5, 4, 3, 2, 1, 0xaa, 0xbb]
    );
    assert_eq!(
        video_frame(1, true, &[0xcc]),
        vec![0x82, 10, 0, 0, 0, 1, 0, 0, 0, 0, 0, 0, 0, 1, 0xcc]
    );
    assert_eq!(
        video_frame(256, false, &[]),
        vec![0x82, 9, 0, 0, 0, 0, 1, 0, 0, 0, 0, 0, 0, 0]
    );
}
