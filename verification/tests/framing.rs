use tabscreen::framing::{payload_len, Drained, Frame, Inbox};
use tabscreen::protocol::{frame, FRAME_MAX, HANDSHAKE_FRAME_MAX};

fn listed(d: &Drained) -> Vec<(u8, Vec<u8>)> {
    d.frames.iter().map(|f: &Frame| (f.ty, f.payload.clone())).collect()
}

#[test]
fn payload_length_is_checked_against_the_limit() {
    assert_eq!(payload_len(&[1, 0, 0, 1, 0], HANDSHAKE_FRAME_MAX), Ok(0x1_0000));
    assert_eq!(payload_len(&[1, 1, 0, 1, 0], HANDSHAKE_FRAME_MAX), Err(0x1_0001));
    assert_eq!(payload_len(&[1, 1, 0, 1, 0], FRAME_MAX), Ok(0x1_0001));
    assert_eq!(payload_len(&[1, 1, 0, 0x10, 0], FRAME_MAX), Err(0x10_0001));
}

#[test]
fn frames_come_out_as_they_went_in() {
    let mut inbox = Inbox::new();
    let mut bytes = frame(4, &[1, 2, 3]);
    bytes.extend(frame(5, &[]));
    bytes.extend(frame(3, &[9; 300]));
    inbox.receive(&bytes);
    let d = inbox.take_frames(FRAME_MAX);
    assert_eq!(listed(&d), vec![(4, vec![1, 2, 3]), (5, vec![]), (3, vec![9; 300])]);
    assert_eq!(d.oversized, None);
    assert_eq!(inbox.take_frames(FRAME_MAX).frames.len(), 0);
}

#[test]
fn reads_may_be_cut_anywhere() {
    let mut bytes = frame(4, &[1, 2, 3, 4, 5, 6, 7, 8]);
    bytes.extend(frame(2, &[0, 0]));
    for cut in 0..bytes.len() {
        let mut inbox = Inbox::new();
        inbox.receive(&bytes[..cut]);
        let mut got = listed(&inbox.take_frames(FRAME_MAX));
        inbox.receive(&bytes[cut..]);
        got.extend(listed(&inbox.take_frames(FRAME_MAX)));
        assert_eq!(got, vec![(4, vec![1, 2, 3, 4, 5, 6, 7, 8]), (2, vec![0, 0])]);
    }
}

#[test]
fn an_oversized_frame_stops_the_inbox() {
    let mut inbox = Inbox::new();
    inbox.receive(&frame(5, &[]));
    inbox.receive(&[2, 1, 0, 0x10, 0]);
    let d = inbox.take_frames(FRAME_MAX);
    assert_eq!(listed(&d), vec![(5, vec![])]);
    assert_eq!(d.oversized, Some(0x10_0001));
    inbox.receive(&frame(5, &[]));
    let again = inbox.take_frames(FRAME_MAX);
    assert_eq!(again.frames.len(), 0);
    assert_eq!(again.oversized, Some(0x10_0001));
}
