//! Wire-level codec and receive-machine behaviour on concrete frames.

use st3215::comm::CommResult;
use st3215::packet::compute_checksum;
use st3215::packet::make_frame;
use st3215::packet::INST_PING;
use st3215::packet::INST_READ;
use st3215::rx::RxEngine;
use st3215::rx::RxPoll;

/// Reference checksum: complement of the byte sum modulo 256.
fn reference_checksum(bytes: &[u8]) -> u8 {
    let mut sum: u32 = 0;
    for b in bytes {
        sum = (sum + *b as u32) % 256;
    }
    255 - sum as u8
}

#[test]
fn checksum_of_known_span() {
    let packet = vec![0xff, 0xff, 0x01, 0x02, 0x01, 0x00];
    let cs = compute_checksum(&packet, 2, 5);
    assert_eq!(cs, 0xfb);
    assert_eq!(cs, reference_checksum(&packet[2..5]));
}

#[test]
fn ping_frame_bytes() {
    let frame = make_frame(1, INST_PING, &Vec::new());
    assert_eq!(frame, vec![0xff, 0xff, 0x01, 0x02, 0x01, 0xfb]);
}

#[test]
fn read_frame_bytes() {
    let frame = make_frame(1, INST_READ, &vec![0x38, 0x02]);
    // sum = 1 + 4 + 2 + 0x38 + 2 = 0x41, checksum = 0xbe
    assert_eq!(frame, vec![0xff, 0xff, 0x01, 0x04, 0x02, 0x38, 0x02, 0xbe]);
}

#[test]
fn round_trip_recovers_frame() {
    let params = vec![0x2a, 0x07, 0x10];
    let frame = make_frame(9, 0x03, &params);
    let mut engine = RxEngine::new();
    let step = engine.advance(&frame, false);
    assert_eq!(step, RxPoll::Done(CommResult::Success));
    let packet = engine.into_packet();
    assert_eq!(packet, frame);
    assert_eq!(packet[2], 9);
    assert_eq!(packet[4], 0x03);
    assert_eq!(&packet[5..8], &params[..]);
    assert_eq!(*packet.last().unwrap(), reference_checksum(&packet[2..packet.len() - 1]));
}

#[test]
fn round_trip_zero_parameters() {
    let frame = make_frame(0, INST_PING, &Vec::new());
    let mut engine = RxEngine::new();
    assert_eq!(engine.advance(&frame, false), RxPoll::Done(CommResult::Success));
}

#[test]
fn corrupted_parameter_is_detected() {
    let frame = make_frame(3, 0x02, &vec![0x11, 0x22]);
    for j in 2..frame.len() - 1 {
        if j == 3 {
            continue; // a changed length byte re-targets the wait instead
        }
        let mut bad = frame.clone();
        bad[j] ^= 0x01; // keeps id and error bytes within their valid ranges
        let mut engine = RxEngine::new();
        let step = engine.advance(&bad, false);
        assert_eq!(step, RxPoll::Done(CommResult::RxCorrupt), "flip at offset {}", j);
    }
}

#[test]
fn corrupted_checksum_is_detected() {
    let mut frame = make_frame(3, 0x02, &vec![0x11, 0x22]);
    let last = frame.len() - 1;
    frame[last] ^= 0xff;
    let mut engine = RxEngine::new();
    assert_eq!(engine.advance(&frame, false), RxPoll::Done(CommResult::RxCorrupt));
}

#[test]
fn noise_prefix_is_discarded() {
    let frame = make_frame(7, 0x02, &vec![0x40, 0x04]);
    for noise in [&[0x12u8][..], &[0x12, 0x34][..], &[0x01, 0x02, 0x03, 0x04, 0x05][..]] {
        let mut stream: Vec<u8> = noise.to_vec();
        stream.extend_from_slice(&frame);
        let mut engine = RxEngine::new();
        let step = engine.advance(&stream, false);
        assert_eq!(step, RxPoll::Done(CommResult::Success), "noise {:?}", noise);
        assert_eq!(engine.into_packet(), frame);
    }
}

#[test]
fn noise_fed_byte_by_byte_still_recovers() {
    let frame = make_frame(7, 0x02, &vec![0x40, 0x04]);
    let mut stream: Vec<u8> = vec![0x21, 0x22, 0x23];
    stream.extend_from_slice(&frame);
    let mut engine = RxEngine::new();
    let mut result = None;
    for byte in &stream {
        match engine.advance(&[*byte], false) {
            RxPoll::NeedMore => continue,
            RxPoll::Done(c) => {
                result = Some(c);
                break;
            }
        }
    }
    assert_eq!(result, Some(CommResult::Success));
    assert_eq!(engine.into_packet(), frame);
}

#[test]
fn headerless_stream_is_never_accepted() {
    // passes every field and checksum test at offset zero, but holds no
    // header anywhere: the machine must keep accumulating, and report the
    // consumed budget as corruption — never Success
    let stream = [1u8, 2, 3, 2, 0, 250];
    let mut engine = RxEngine::new();
    assert_eq!(engine.advance(&stream, false), RxPoll::NeedMore);
    let mut engine = RxEngine::new();
    assert_eq!(engine.advance(&stream, true), RxPoll::Done(CommResult::RxCorrupt));
}

#[test]
fn noise_ending_in_header_byte_still_recovers() {
    // the pair found straddles the noise/frame boundary; the surplus
    // header byte is dropped by the id check
    let frame = make_frame(7, 0x02, &vec![0x40, 0x04]);
    let mut stream: Vec<u8> = vec![0x10, 0xff];
    stream.extend_from_slice(&frame);
    let mut engine = RxEngine::new();
    assert_eq!(engine.advance(&stream, false), RxPoll::Done(CommResult::Success));
    assert_eq!(engine.into_packet(), frame);
}

#[test]
fn silence_times_out() {
    let mut engine = RxEngine::new();
    assert_eq!(engine.advance(&[], true), RxPoll::Done(CommResult::RxTimeout));
}

#[test]
fn partial_frame_past_budget_is_corrupt_not_timeout() {
    let mut engine = RxEngine::new();
    assert_eq!(engine.advance(&[0xff, 0xff, 0x01], true), RxPoll::Done(CommResult::RxCorrupt));

    let mut engine = RxEngine::new();
    assert_eq!(engine.advance(&[0x55], true), RxPoll::Done(CommResult::RxCorrupt));
}

#[test]
fn no_decision_before_budget_consumed() {
    let mut engine = RxEngine::new();
    assert_eq!(engine.advance(&[], false), RxPoll::NeedMore);
    assert_eq!(engine.advance(&[0xff, 0xff], false), RxPoll::NeedMore);
}

#[test]
fn invalid_id_resynchronizes_one_byte_at_a_time() {
    // 0xFF 0xFF 0xFF ... : the id byte 0xFF is invalid, one byte is
    // dropped, and the frame behind it is still recovered.
    let frame = make_frame(2, 0x02, &vec![0x0a, 0x0b]);
    let mut stream: Vec<u8> = vec![0xff];
    stream.extend_from_slice(&frame);
    let mut engine = RxEngine::new();
    assert_eq!(engine.advance(&stream, false), RxPoll::Done(CommResult::Success));
    assert_eq!(engine.into_packet(), frame);
}

#[test]
fn wanted_tracks_missing_bytes() {
    let engine = RxEngine::new();
    assert_eq!(engine.wanted(), 6);
    let mut engine = RxEngine::new();
    engine.advance(&[0xff, 0xff], false);
    assert_eq!(engine.wanted(), 4);
}
