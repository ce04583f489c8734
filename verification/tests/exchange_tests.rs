//! Single-device exchange flow, timeout budget, and value composition.

use st3215::comm::CommResult;
use st3215::exchange::Bus;
use st3215::exchange::RxStep;
use st3215::exchange::TxOutcome;
use st3215::handler::ProtocolPacketHandler;
use st3215::packet::BROADCAST_ID;
use st3215::timing::PacketTimer;

fn reference_checksum(bytes: &[u8]) -> u8 {
    let mut sum: u32 = 0;
    for b in bytes {
        sum = (sum + *b as u32) % 256;
    }
    255 - sum as u8
}

/// A complete status frame from the given device.
fn status_frame(id: u8, error: u8, payload: &[u8]) -> Vec<u8> {
    let mut f = vec![0xff, 0xff, id, (payload.len() + 2) as u8, error];
    f.extend_from_slice(payload);
    let cs = reference_checksum(&f[2..]);
    f.push(cs);
    f
}

#[test]
fn ping_broadcast_is_not_available() {
    let ph = ProtocolPacketHandler::new();
    assert_eq!(ph.ping_request(BROADCAST_ID).err(), Some(CommResult::NotAvailable));
    assert_eq!(ph.ping_request(0xff).err(), Some(CommResult::NotAvailable));
}

#[test]
fn read_broadcast_is_not_available() {
    let ph = ProtocolPacketHandler::new();
    assert_eq!(ph.read_request(BROADCAST_ID, 0x38, 2).err(), Some(CommResult::NotAvailable));
}

#[test]
fn busy_bus_refuses_transaction() {
    let ph = ProtocolPacketHandler::new();
    let pw = ph.ping_request(1).ok().unwrap();
    let mut bus = Bus::new();
    bus.is_using = true;
    assert_eq!(pw.start(&mut bus).err(), Some(CommResult::PortBusy));
    assert!(bus.is_using);
}

#[test]
fn oversized_frame_is_tx_error() {
    let ph = ProtocolPacketHandler::new();
    let data = vec![0u8; 250];
    let pw = ph.write_request(1, 0x20, &data);
    let mut bus = Bus::new();
    assert_eq!(pw.start(&mut bus).err(), Some(CommResult::TxError));
    assert!(!bus.is_using);
}

#[test]
fn start_produces_exact_frame_and_holds_bus() {
    let ph = ProtocolPacketHandler::new();
    let pw = ph.read_request(1, 0x38, 2).ok().unwrap();
    let mut bus = Bus::new();
    let frame = pw.start(&mut bus).ok().unwrap();
    assert_eq!(frame, vec![0xff, 0xff, 0x01, 0x04, 0x02, 0x38, 0x02, 0xbe]);
    assert!(bus.is_using);
}

#[test]
fn short_write_fails_and_releases_bus() {
    let ph = ProtocolPacketHandler::new();
    let pw = ph.ping_request(1).ok().unwrap();
    let mut bus = Bus::new();
    let frame = pw.start(&mut bus).ok().unwrap();
    let mut timer = PacketTimer::new(1000000);
    let out = pw.after_write(frame.len() - 1, &mut bus, &mut timer, 0);
    assert!(matches!(out, TxOutcome::Failed(CommResult::TxFail)));
    assert!(!bus.is_using);
}

#[test]
fn broadcast_write_sends_without_reply() {
    let ph = ProtocolPacketHandler::new();
    let pw = ph.write_request(BROADCAST_ID, 0x28, &[1, 2]);
    let mut bus = Bus::new();
    let frame = pw.start(&mut bus).ok().unwrap();
    let mut timer = PacketTimer::new(1000000);
    let out = pw.after_write(frame.len(), &mut bus, &mut timer, 0);
    assert!(matches!(out, TxOutcome::Sent));
    assert!(!bus.is_using);
}

#[test]
fn write_only_releases_bus_without_reply() {
    let ph = ProtocolPacketHandler::new();
    let pw = ph.write_only_request(4, 0x28, &[1]);
    let mut bus = Bus::new();
    let frame = pw.start(&mut bus).ok().unwrap();
    let mut timer = PacketTimer::new(1000000);
    let out = pw.after_write(frame.len(), &mut bus, &mut timer, 0);
    assert!(matches!(out, TxOutcome::Sent));
    assert!(!bus.is_using);
}

#[test]
fn matched_reply_completes_exchange() {
    let ph = ProtocolPacketHandler::new();
    let pw = ph.read_request(1, 0x38, 2).ok().unwrap();
    let mut bus = Bus::new();
    let frame = pw.start(&mut bus).ok().unwrap();
    let mut timer = PacketTimer::new(1000000);
    let out = pw.after_write(frame.len(), &mut bus, &mut timer, 0);
    let mut rcv = match out {
        TxOutcome::AwaitReply(rcv) => rcv,
        _ => panic!("expected a pending reply"),
    };
    assert!(bus.is_using);
    let reply = status_frame(1, 0, &[0x10, 0x08]);
    match rcv.poll(&reply, &mut bus, &mut timer, 100) {
        RxStep::Done(packet, result, error) => {
            assert_eq!(result, CommResult::Success);
            assert_eq!(error, 0);
            assert_eq!(packet, reply);
            let data = ph.read_response(&packet, 2);
            assert_eq!(data, vec![0x10, 0x08]);
            assert_eq!(ph.read_2byte_value(&data, result), 0x0810);
        }
        RxStep::NeedMore => panic!("reply should decide the exchange"),
    }
    assert!(!bus.is_using);
}

#[test]
fn stale_reply_from_other_id_is_skipped() {
    let ph = ProtocolPacketHandler::new();
    let pw = ph.read_request(1, 0x38, 2).ok().unwrap();
    let mut bus = Bus::new();
    let frame = pw.start(&mut bus).ok().unwrap();
    let mut timer = PacketTimer::new(1000000);
    let out = pw.after_write(frame.len(), &mut bus, &mut timer, 0);
    let mut rcv = match out {
        TxOutcome::AwaitReply(rcv) => rcv,
        _ => panic!("expected a pending reply"),
    };
    let stale = status_frame(2, 0, &[0x55, 0x66]);
    assert!(matches!(rcv.poll(&stale, &mut bus, &mut timer, 10), RxStep::NeedMore));
    assert!(bus.is_using);
    let good = status_frame(1, 0, &[0x10, 0x08]);
    match rcv.poll(&good, &mut bus, &mut timer, 20) {
        RxStep::Done(packet, result, _) => {
            assert_eq!(result, CommResult::Success);
            assert_eq!(packet, good);
        }
        RxStep::NeedMore => panic!("matching reply should decide the exchange"),
    }
}

#[test]
fn silent_device_times_out() {
    let ph = ProtocolPacketHandler::new();
    let pw = ph.ping_request(6).ok().unwrap();
    let mut bus = Bus::new();
    let frame = pw.start(&mut bus).ok().unwrap();
    let mut timer = PacketTimer::new(1000000);
    let out = pw.after_write(frame.len(), &mut bus, &mut timer, 0);
    let mut rcv = match out {
        TxOutcome::AwaitReply(rcv) => rcv,
        _ => panic!("expected a pending reply"),
    };
    // budget for a 6-byte reply at 10 us per byte: 90 + 50000 us
    assert!(matches!(rcv.poll(&[], &mut bus, &mut timer, 1000), RxStep::NeedMore));
    match rcv.poll(&[], &mut bus, &mut timer, 60000) {
        RxStep::Done(packet, result, error) => {
            assert_eq!(result, CommResult::RxTimeout);
            assert_eq!(error, 0);
            assert!(packet.is_empty());
        }
        RxStep::NeedMore => panic!("expired budget should decide the exchange"),
    }
    assert!(!bus.is_using);
}

#[test]
fn partial_reply_past_budget_is_corrupt() {
    let ph = ProtocolPacketHandler::new();
    let pw = ph.ping_request(6).ok().unwrap();
    let mut bus = Bus::new();
    let frame = pw.start(&mut bus).ok().unwrap();
    let mut timer = PacketTimer::new(1000000);
    let out = pw.after_write(frame.len(), &mut bus, &mut timer, 0);
    let mut rcv = match out {
        TxOutcome::AwaitReply(rcv) => rcv,
        _ => panic!("expected a pending reply"),
    };
    assert!(matches!(rcv.poll(&[0xff, 0xff], &mut bus, &mut timer, 10), RxStep::NeedMore));
    match rcv.poll(&[], &mut bus, &mut timer, 60000) {
        RxStep::Done(_, result, _) => assert_eq!(result, CommResult::RxCorrupt),
        RxStep::NeedMore => panic!("expired budget should decide the exchange"),
    }
}

#[test]
fn failed_read_primitive_is_rx_fail() {
    let ph = ProtocolPacketHandler::new();
    let pw = ph.ping_request(6).ok().unwrap();
    let mut bus = Bus::new();
    let frame = pw.start(&mut bus).ok().unwrap();
    let mut timer = PacketTimer::new(1000000);
    let out = pw.after_write(frame.len(), &mut bus, &mut timer, 0);
    let rcv = match out {
        TxOutcome::AwaitReply(rcv) => rcv,
        _ => panic!("expected a pending reply"),
    };
    match rcv.fail(&mut bus) {
        RxStep::Done(packet, result, error) => {
            assert_eq!(result, CommResult::RxFail);
            assert_eq!(error, 0);
            assert!(packet.is_empty());
        }
        RxStep::NeedMore => panic!("a channel failure decides the exchange"),
    }
    assert!(!bus.is_using);
}

#[test]
fn ping_conclude_combines_both_steps() {
    let ph = ProtocolPacketHandler::new();
    let data = vec![0x09, 0x03];
    let r = ph.ping_conclude(CommResult::Success, 0, &data, CommResult::Success, 0);
    assert_eq!(r, (0x0309, CommResult::Success, 0));

    // a failed acknowledgment reports its own outcome
    let r = ph.ping_conclude(CommResult::RxTimeout, 0, &Vec::new(), CommResult::Success, 0);
    assert_eq!(r, (0, CommResult::RxTimeout, 0));

    // success requires both steps: a failed follow-up read is never Success
    let r = ph.ping_conclude(CommResult::Success, 5, &Vec::new(), CommResult::RxCorrupt, 3);
    assert_eq!(r, (0, CommResult::RxCorrupt, 3));

    let r = ph.ping_conclude(CommResult::Success, 0, &Vec::new(), CommResult::RxTimeout, 0);
    assert_eq!(r, (0, CommResult::RxTimeout, 0));

    // a reply too short for the model number is corrupt, not Success
    let r = ph.ping_conclude(CommResult::Success, 0, &vec![0x09], CommResult::Success, 0);
    assert_eq!(r, (0, CommResult::RxCorrupt, 0));
}

#[test]
fn ping_followup_reads_model_number_only_on_success() {
    let ph = ProtocolPacketHandler::new();
    assert_eq!(ph.ping_followup(CommResult::Success), Some((3, 2)));
    assert_eq!(ph.ping_followup(CommResult::RxTimeout), None);
}

#[test]
fn word_and_byte_composition() {
    let ph = ProtocolPacketHandler::new();
    assert_eq!(ph.sts_makeword(0x12, 0x34), 0x3412);
    assert_eq!(ph.sts_lobyte(0x3412), 0x12);
    assert_eq!(ph.sts_hibyte(0x3412), 0x34);
    assert_eq!(ph.sts_makedword(0x1234, 0x5678), 0x56781234);
    assert_eq!(ph.sts_loword(0x56781234), 0x1234);
    assert_eq!(ph.sts_hiword(0x56781234), 0x5678);
}

#[test]
fn sign_bit_decoding() {
    let ph = ProtocolPacketHandler::new();
    assert_eq!(ph.sts_tohost(5, 15), 5);
    assert_eq!(ph.sts_tohost(0x8005, 15), -5);
    assert_eq!(ph.sts_tohost(0, 15), 0);
}

#[test]
fn read_1byte_value_extracts_or_zeroes() {
    let ph = ProtocolPacketHandler::new();
    assert_eq!(ph.read_1byte_value(&vec![0x42], CommResult::Success), 0x42);
    assert_eq!(ph.read_1byte_value(&Vec::new(), CommResult::Success), 0);
    assert_eq!(ph.read_1byte_value(&vec![0x42], CommResult::RxTimeout), 0);
}

#[test]
fn timeout_budget_fires_once_and_stays_consumed() {
    let mut timer = PacketTimer::new(1000000);
    timer.set_packet_timeout_millis(10, 0);
    assert!(!timer.is_packet_timeout(5000));
    assert!(!timer.is_packet_timeout(10000));
    assert!(timer.is_packet_timeout(10001));
    // the budget decayed to zero: an immediate second poll reports expiry
    assert!(timer.is_packet_timeout(10001));
}

#[test]
fn timeout_budget_scales_with_expected_length() {
    let mut timer = PacketTimer::new(1000000);
    // 10 us per byte: budget = 10 * (8 + 3) + 50000 = 50110 us
    timer.set_packet_timeout(8, 0);
    assert!(!timer.is_packet_timeout(50110));
    assert!(timer.is_packet_timeout(50111));
}
