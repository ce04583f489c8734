//! Batch group engines: payload size enforcement, empty-group behaviour,
//! request serialization, and response demultiplexing.

use st3215::comm::CommResult;
use st3215::exchange::Bus;
use st3215::group_sync_read::CollectPoll;
use st3215::group_sync_read::GroupSyncRead;
use st3215::group_sync_read::SyncReadCollector;
use st3215::group_sync_write::GroupSyncWrite;
use st3215::handler::ProtocolPacketHandler;
use st3215::timing::PacketTimer;

fn reference_checksum(bytes: &[u8]) -> u8 {
    let mut sum: u32 = 0;
    for b in bytes {
        sum = (sum + *b as u32) % 256;
    }
    255 - sum as u8
}

/// One device's sub-frame within a combined sync-read response.
fn sub_frame(id: u8, error: u8, payload: &[u8]) -> Vec<u8> {
    let mut f = vec![0xff, 0xff, id, (payload.len() + 2) as u8, error];
    f.extend_from_slice(payload);
    let cs = reference_checksum(&f[2..]);
    f.push(cs);
    f
}

#[test]
fn write_group_rejects_oversized_payloads() {
    let mut group = GroupSyncWrite::new(0x29, 2);
    assert!(group.add_param(1, vec![0x0a, 0x0b]));
    assert!(!group.add_param(2, vec![0x0a, 0x0b, 0x0c]));
    assert!(!group.change_param(1, vec![0x0a, 0x0b, 0x0c]));
    // the mapping is unchanged: the serialized request still carries only
    // the accepted payload
    let ph = ProtocolPacketHandler::new();
    let pw = group.tx_packet(&ph).ok().unwrap();
    let mut bus = Bus::new();
    let frame = pw.start(&mut bus).ok().unwrap();
    let expected_params = [0x29, 2, 1, 0x0a, 0x0b];
    assert_eq!(&frame[5..10], &expected_params[..]);
}

#[test]
fn write_group_rejects_duplicate_id_and_missing_id() {
    let mut group = GroupSyncWrite::new(0x29, 2);
    assert!(group.add_param(1, vec![1, 2]));
    assert!(!group.add_param(1, vec![3, 4]));
    assert!(!group.change_param(9, vec![3, 4]));
    assert!(group.change_param(1, vec![3, 4]));
}

#[test]
fn empty_write_group_is_not_available() {
    let ph = ProtocolPacketHandler::new();
    let mut group = GroupSyncWrite::new(0x29, 2);
    assert_eq!(group.tx_packet(&ph).err(), Some(CommResult::NotAvailable));
}

#[test]
fn cleared_write_group_is_not_available() {
    let ph = ProtocolPacketHandler::new();
    let mut group = GroupSyncWrite::new(0x29, 2);
    group.clear_param();
    assert_eq!(group.tx_packet(&ph).err(), Some(CommResult::NotAvailable));
    assert!(group.add_param(5, vec![1, 2]));
    group.clear_param();
    assert_eq!(group.tx_packet(&ph).err(), Some(CommResult::NotAvailable));
}

#[test]
fn write_group_serializes_all_slots_in_order() {
    let ph = ProtocolPacketHandler::new();
    let mut group = GroupSyncWrite::new(0x2a, 2);
    assert!(group.add_param(3, vec![0x11, 0x22]));
    assert!(group.add_param(7, vec![0x33, 0x44]));
    let pw = group.tx_packet(&ph).ok().unwrap();
    let mut bus = Bus::new();
    let frame = pw.start(&mut bus).ok().unwrap();
    // broadcast sync-write: FF FF FE len inst start dlen (id payload)* cs
    assert_eq!(frame[2], 0xfe);
    assert_eq!(frame[4], 0x83);
    assert_eq!(&frame[5..13], &[0x2a, 2, 3, 0x11, 0x22, 7, 0x33, 0x44]);
    assert_eq!(frame[3] as usize, frame.len() - 4);
    assert_eq!(*frame.last().unwrap(), reference_checksum(&frame[2..frame.len() - 1]));
}

#[test]
fn write_group_remove_drops_only_that_id() {
    let ph = ProtocolPacketHandler::new();
    let mut group = GroupSyncWrite::new(0x2a, 2);
    assert!(group.add_param(3, vec![0x11, 0x22]));
    assert!(group.add_param(7, vec![0x33, 0x44]));
    group.remove_param(3);
    let pw = group.tx_packet(&ph).ok().unwrap();
    let mut bus = Bus::new();
    let frame = pw.start(&mut bus).ok().unwrap();
    assert_eq!(&frame[5..10], &[0x2a, 2, 7, 0x33, 0x44]);
}

#[test]
fn empty_read_group_is_not_available() {
    let ph = ProtocolPacketHandler::new();
    let mut group = GroupSyncRead::new(0x38, 2);
    assert_eq!(group.tx_packet(&ph).err(), Some(CommResult::NotAvailable));
    group.clear_param();
    assert_eq!(group.tx_packet(&ph).err(), Some(CommResult::NotAvailable));
}

#[test]
fn read_group_request_names_participants() {
    let ph = ProtocolPacketHandler::new();
    let mut group = GroupSyncRead::new(0x38, 2);
    assert!(group.add_param(2));
    assert!(group.add_param(5));
    assert!(group.add_param(9));
    assert!(!group.add_param(5));
    let pw = group.tx_packet(&ph).ok().unwrap();
    let mut bus = Bus::new();
    let frame = pw.start(&mut bus).ok().unwrap();
    // broadcast sync-read: FF FF FE len inst start dlen id* cs
    assert_eq!(frame[2], 0xfe);
    assert_eq!(frame[4], 0x82);
    assert_eq!(&frame[5..10], &[0x38, 2, 2, 5, 9]);
}

#[test]
fn batch_demultiplexing_recovers_every_id() {
    let ph = ProtocolPacketHandler::new();
    let mut group = GroupSyncRead::new(0x38, 2);
    assert!(group.add_param(2));
    assert!(group.add_param(5));
    assert!(group.add_param(9));

    // sub-frames in arbitrary order, noise between them
    let mut stream: Vec<u8> = vec![0x10, 0x20];
    stream.extend_from_slice(&sub_frame(5, 0, &[0x11, 0x22]));
    stream.push(0x30);
    stream.extend_from_slice(&sub_frame(9, 0, &[0x33, 0x44]));
    stream.extend_from_slice(&[0x40, 0x41]);
    stream.extend_from_slice(&sub_frame(2, 0, &[0x55, 0x66]));

    let r = group.rx_apply(CommResult::Success, &stream);
    assert_eq!(r, CommResult::Success);
    assert!(group.last_result());

    assert_eq!(group.is_available(2, 0x38, 2), (true, 0));
    assert_eq!(group.is_available(5, 0x38, 2), (true, 0));
    assert_eq!(group.is_available(9, 0x38, 2), (true, 0));

    assert_eq!(group.get_data(&ph, 2, 0x38, 2), 0x6655);
    assert_eq!(group.get_data(&ph, 5, 0x38, 2), 0x2211);
    assert_eq!(group.get_data(&ph, 9, 0x38, 2), 0x4433);
    assert_eq!(group.get_data(&ph, 5, 0x38, 1), 0x11);
    assert_eq!(group.get_data(&ph, 5, 0x39, 1), 0x22);
}

#[test]
fn corrupt_sub_frame_fails_only_its_id() {
    let ph = ProtocolPacketHandler::new();
    let mut group = GroupSyncRead::new(0x38, 2);
    assert!(group.add_param(2));
    assert!(group.add_param(5));
    assert!(group.add_param(9));

    let mut bad5 = sub_frame(5, 0, &[0x11, 0x22]);
    let last = bad5.len() - 1;
    bad5[last] ^= 0xff; // break the checksum of id 5 only

    let mut stream: Vec<u8> = Vec::new();
    stream.extend_from_slice(&sub_frame(2, 0, &[0x55, 0x66]));
    stream.extend_from_slice(&bad5);
    stream.extend_from_slice(&sub_frame(9, 0, &[0x33, 0x44]));

    let r = group.rx_apply(CommResult::Success, &stream);
    assert_eq!(r, CommResult::Success);
    assert!(!group.last_result());

    assert_eq!(group.is_available(5, 0x38, 2), (false, 0));
    assert_eq!(group.is_available(2, 0x38, 2), (true, 0));
    assert_eq!(group.is_available(9, 0x38, 2), (true, 0));
    assert_eq!(group.get_data(&ph, 2, 0x38, 2), 0x6655);
    assert_eq!(group.get_data(&ph, 9, 0x38, 2), 0x4433);
}

#[test]
fn short_stream_fails_the_receive() {
    let mut group = GroupSyncRead::new(0x38, 2);
    assert!(group.add_param(2));
    let r = group.rx_apply(CommResult::Success, &[0xff, 0xff, 2]);
    assert_eq!(r, CommResult::Success);
    assert!(!group.last_result());
    assert_eq!(group.is_available(2, 0x38, 2), (false, 0));
}

#[test]
fn device_error_byte_is_reported() {
    let mut group = GroupSyncRead::new(0x38, 2);
    assert!(group.add_param(2));
    let stream = sub_frame(2, 0x24, &[0x01, 0x02]);
    group.rx_apply(CommResult::Success, &stream);
    assert_eq!(group.is_available(2, 0x38, 2), (true, 0x24));
}

#[test]
fn is_available_checks_address_window() {
    let mut group = GroupSyncRead::new(0x38, 4);
    assert!(group.add_param(2));
    let stream = sub_frame(2, 0, &[1, 2, 3, 4]);
    group.rx_apply(CommResult::Success, &stream);
    assert_eq!(group.is_available(2, 0x38, 4), (true, 0));
    assert_eq!(group.is_available(2, 0x37, 1), (false, 0)); // below the window
    assert_eq!(group.is_available(2, 0x3b, 1), (true, 0)); // last byte
    assert_eq!(group.is_available(2, 0x3c, 1), (false, 0)); // past the window
    assert_eq!(group.is_available(3, 0x38, 1), (false, 0)); // unknown id
}

#[test]
fn get_data_composes_four_bytes() {
    let ph = ProtocolPacketHandler::new();
    let mut group = GroupSyncRead::new(0x38, 4);
    assert!(group.add_param(2));
    let stream = sub_frame(2, 0, &[0x78, 0x56, 0x34, 0x12]);
    group.rx_apply(CommResult::Success, &stream);
    assert_eq!(group.get_data(&ph, 2, 0x38, 4), 0x12345678);
    assert_eq!(group.get_data(&ph, 2, 0x38, 3), 0); // unsupported width
    assert_eq!(group.get_data(&ph, 7, 0x38, 4), 0); // unknown id
}

#[test]
fn collector_gathers_expected_budget() {
    let mut timer = PacketTimer::new(1000000);
    let mut bus = Bus::new();
    bus.is_using = true;
    let mut collector = SyncReadCollector::begin(2, 3, &mut timer, 0);
    assert_eq!(collector.wanted(), 24);
    assert_eq!(collector.poll(&[0u8; 10], &mut timer, 100, &mut bus), CollectPoll::NeedMore);
    assert!(bus.is_using);
    assert_eq!(collector.wanted(), 14);
    assert_eq!(
        collector.poll(&[0u8; 14], &mut timer, 200, &mut bus),
        CollectPoll::Done(CommResult::Success)
    );
    assert!(!bus.is_using);
    assert_eq!(collector.into_buffer().len(), 24);
}

#[test]
fn collector_discriminates_timeout_from_partial_stream() {
    let mut timer = PacketTimer::new(1000000);
    let mut bus = Bus::new();
    let mut collector = SyncReadCollector::begin(2, 3, &mut timer, 0);
    // silence past the budget: timeout
    assert_eq!(
        collector.poll(&[], &mut timer, 60000, &mut bus),
        CollectPoll::Done(CommResult::RxTimeout)
    );

    let mut timer = PacketTimer::new(1000000);
    let mut collector = SyncReadCollector::begin(2, 3, &mut timer, 0);
    // a few bytes, then the budget expires: a partial stream, not a timeout
    assert_eq!(collector.poll(&[1, 2, 3], &mut timer, 100, &mut bus), CollectPoll::NeedMore);
    assert_eq!(
        collector.poll(&[], &mut timer, 60000, &mut bus),
        CollectPoll::Done(CommResult::RxCorrupt)
    );
}

#[test]
fn collector_read_failure_is_rx_fail() {
    let mut timer = PacketTimer::new(1000000);
    let mut bus = Bus::new();
    bus.is_using = true;
    let collector = SyncReadCollector::begin(2, 3, &mut timer, 0);
    let (buffer, result) = collector.fail(&mut bus);
    assert_eq!(result, CommResult::RxFail);
    assert!(buffer.is_empty());
    assert!(!bus.is_using);
}

#[test]
fn read_rx_finds_record_after_noise() {
    let group = GroupSyncRead::new(0x38, 2);
    let mut stream: Vec<u8> = vec![0x01, 0x02, 0x03];
    stream.extend_from_slice(&sub_frame(4, 0, &[0xaa, 0xbb]));
    let (data, result) = group.read_rx(&stream, 4, 2);
    assert_eq!(result, CommResult::Success);
    assert_eq!(data, Some(vec![0, 0xaa, 0xbb]));
}

#[test]
fn read_rx_missing_id_is_corrupt() {
    let group = GroupSyncRead::new(0x38, 2);
    let stream = sub_frame(4, 0, &[0xaa, 0xbb]);
    let (data, result) = group.read_rx(&stream, 9, 2);
    assert_eq!(result, CommResult::RxCorrupt);
    assert_eq!(data, None);
}

#[test]
fn read_rx_skips_head_with_wrong_length_byte() {
    // a spurious head for the same id with a wrong length byte, then the
    // real sub-frame: the scanner steps past the first and finds the second
    let mut stream: Vec<u8> = vec![0xff, 0xff, 0x04, 0x09];
    stream.extend_from_slice(&sub_frame(4, 0, &[0xaa, 0xbb]));
    let group = GroupSyncRead::new(0x38, 2);
    let (data, result) = group.read_rx(&stream, 4, 2);
    assert_eq!(result, CommResult::Success);
    assert_eq!(data, Some(vec![0, 0xaa, 0xbb]));
}

#[test]
fn read_rx_rejects_wrong_length_byte() {
    let group = GroupSyncRead::new(0x38, 2);
    // a sub-frame with payload length 3 cannot answer a 2-byte read
    let stream = sub_frame(4, 0, &[0xaa, 0xbb, 0xcc]);
    let (data, result) = group.read_rx(&stream, 4, 2);
    assert_eq!(result, CommResult::RxCorrupt);
    assert_eq!(data, None);
}
