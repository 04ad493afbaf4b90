use ctaphid::channel::{ChannelState, ChannelTable, InitResponse, TableError};
use ctaphid::codec::PacketCodec;
use ctaphid::message::Message;
use ctaphid::protocol::{DeviceInfo, KeepaliveStatus, BROADCAST_CHANNEL, PROTOCOL_VERSION};

fn info() -> DeviceInfo {
    DeviceInfo { version_major: 3, version_minor: 1, version_build: 4, capabilities: 0x0D }
}

fn table(capacity: u16) -> ChannelTable {
    ChannelTable::new(PacketCodec::standard(), capacity, info())
}

#[test]
fn a_new_table_holds_the_broadcast_channel_alone() {
    let table = table(4);
    assert_eq!(table.len(), 1);
    assert!(!table.is_full());
    assert_eq!(table.lock_holder(), None);
    assert_eq!(table.info(), info());
    assert_eq!(table.codec(), PacketCodec::standard());
    let broadcast = table.get(BROADCAST_CHANNEL).unwrap();
    assert_eq!(broadcast.id(), 0xFFFF_FFFF);
    assert_eq!(broadcast.state(), ChannelState::Idle);
    assert!(broadcast.message().is_none());
    assert!(!broadcast.is_lock_holder());
    assert_eq!(table.slot_of(BROADCAST_CHANNEL), Some(0));
}

#[test]
fn unknown_ids_are_told_apart() {
    let mut table = table(4);
    assert_eq!(table.get(0).err(), Some(TableError::UnknownChannel));
    assert_eq!(table.get(1).err(), Some(TableError::UnknownChannel));
    assert_eq!(table.slot_of(0), None);
    let first = table.allocate(&[0; 8]).unwrap().channel;
    assert_eq!(table.get(first).unwrap().id(), first);
    assert_eq!(table.get(first + 1).err(), Some(TableError::UnknownChannel));
    assert_eq!(table.get(0xFFFF_FFFE).err(), Some(TableError::UnknownChannel));
    assert_eq!(table.get(0).err(), Some(TableError::UnknownChannel));
}

#[test]
fn allocation_hands_out_fresh_ids() {
    let mut table = table(8);
    let mut seen: Vec<u32> = Vec::new();
    for _ in 0..8 {
        let id = table.allocate(&[1, 2, 3, 4, 5, 6, 7, 8]).unwrap().channel;
        assert_ne!(id, 0);
        assert_ne!(id, BROADCAST_CHANNEL);
        assert!(!seen.contains(&id));
        seen.push(id);
        assert_eq!(table.get(id).unwrap().state(), ChannelState::Idle);
    }
    assert_eq!(seen, vec![1, 2, 3, 4, 5, 6, 7, 8]);
    assert_eq!(table.len(), 9);
}

#[test]
fn allocation_answers_with_nonce_id_and_description() {
    let mut table = table(2);
    let nonce = [0xA0, 0xA1, 0xA2, 0xA3, 0xA4, 0xA5, 0xA6, 0xA7];
    let response = table.allocate(&nonce).unwrap();
    assert_eq!(
        response,
        InitResponse {
            nonce: nonce.to_vec(),
            channel: 1,
            protocol_version: PROTOCOL_VERSION,
            info: info(),
        }
    );
    assert_eq!(
        response.payload(),
        vec![0xA0, 0xA1, 0xA2, 0xA3, 0xA4, 0xA5, 0xA6, 0xA7, 0, 0, 0, 1, 2, 3, 1, 4, 0x0D]
    );
}

#[test]
fn the_answer_writes_the_channel_big_endian() {
    let response = InitResponse::answer(&[9; 8], 0x0102_0304, info());
    let payload = response.payload();
    assert_eq!(payload.len(), 17);
    assert_eq!(&payload[8..12], &[1, 2, 3, 4]);
    assert_eq!(payload[12], 2);
}

#[test]
fn a_full_table_allocates_no_more() {
    let mut table = table(2);
    assert_eq!(table.allocate(&[0; 8]).unwrap().channel, 1);
    assert!(!table.is_full());
    assert_eq!(table.allocate(&[0; 8]).unwrap().channel, 2);
    assert!(table.is_full());
    assert_eq!(table.allocate(&[0; 8]), Err(TableError::TableFull));
    assert_eq!(table.len(), 3);
    let mut none = ChannelTable::new(PacketCodec::standard(), 0, info());
    assert!(none.is_full());
    assert_eq!(none.allocate(&[0; 8]), Err(TableError::TableFull));
}

#[test]
fn one_channel_holds_the_lock_at_a_time() {
    let mut table = table(4);
    let a = table.allocate(&[0; 8]).unwrap().channel;
    let b = table.allocate(&[0; 8]).unwrap().channel;
    assert_eq!(table.acquire_lock(a), Ok(()));
    assert_eq!(table.lock_holder(), Some(a));
    assert!(table.get(a).unwrap().is_lock_holder());
    assert!(!table.get(b).unwrap().is_lock_holder());
    assert!(table.held_by_other(b));
    assert!(!table.held_by_other(a));
    assert_eq!(table.acquire_lock(b), Err(TableError::LockRequired));
    assert_eq!(table.lock_holder(), Some(a));
    assert!(!table.get(b).unwrap().is_lock_holder());
}

#[test]
fn taking_the_lock_twice_changes_nothing() {
    let mut table = table(4);
    let a = table.allocate(&[0; 8]).unwrap().channel;
    assert_eq!(table.acquire_lock(a), Ok(()));
    let held = table.clone();
    assert_eq!(table.acquire_lock(a), Ok(()));
    assert_eq!(table, held);
}

#[test]
fn only_the_holder_releases_the_lock() {
    let mut table = table(4);
    let a = table.allocate(&[0; 8]).unwrap().channel;
    let b = table.allocate(&[0; 8]).unwrap().channel;
    assert_eq!(table.release_lock(a), Ok(()));
    assert_eq!(table.lock_holder(), None);
    assert_eq!(table.acquire_lock(a), Ok(()));
    assert_eq!(table.release_lock(b), Err(TableError::LockRequired));
    assert_eq!(table.lock_holder(), Some(a));
    assert_eq!(table.release_lock(a), Ok(()));
    assert_eq!(table.lock_holder(), None);
    assert!(!table.get(a).unwrap().is_lock_holder());
    assert_eq!(table.acquire_lock(b), Ok(()));
    assert_eq!(table.lock_holder(), Some(b));
}

#[test]
fn the_lock_is_for_known_channels() {
    let mut table = table(4);
    assert_eq!(table.acquire_lock(1), Err(TableError::UnknownChannel));
    assert_eq!(table.release_lock(1), Err(TableError::UnknownChannel));
    assert_eq!(table.acquire_lock(0), Err(TableError::UnknownChannel));
    assert_eq!(table.lock_holder(), None);
}

#[test]
fn reset_drops_channels_and_lock() {
    let mut table = table(4);
    let a = table.allocate(&[0; 8]).unwrap().channel;
    table.allocate(&[0; 8]).unwrap();
    table.acquire_lock(a).unwrap();
    table.reset();
    assert_eq!(table.len(), 1);
    assert_eq!(table.lock_holder(), None);
    assert_eq!(table.get(a).err(), Some(TableError::UnknownChannel));
    assert!(table.get(BROADCAST_CHANNEL).is_ok());
    assert_eq!(table.allocate(&[0; 8]).unwrap().channel, 1);
}

#[test]
fn a_message_starts_with_what_its_first_packet_holds() {
    let codec = PacketCodec::standard();
    let fragment: Vec<u8> = (1..=57).collect();
    let message = Message::start(&codec, 7, 0x90, 100, &fragment, 42);
    assert_eq!(message.channel(), 7);
    assert_eq!(message.command(), 0x90);
    assert_eq!(message.total_length(), 100);
    assert_eq!(message.payload(), &fragment);
    assert_eq!(message.bytes_received(), 57);
    assert_eq!(message.created_at(), 42);
    assert_eq!(message.next_sequence(), 0);
    assert!(!message.is_complete());
}

#[test]
fn a_short_message_is_complete_at_once() {
    let codec = PacketCodec::standard();
    let fragment: Vec<u8> = (1..=57).collect();
    let message = Message::start(&codec, 7, 0x90, 3, &fragment, 0);
    assert!(message.is_complete());
    assert_eq!(message.bytes_received(), 3);
    assert_eq!(message.into_payload(), vec![1, 2, 3]);
    let empty = Message::start(&codec, 7, 0x90, 0, &fragment, 0);
    assert!(empty.is_complete());
    assert_eq!(empty.bytes_received(), 0);
}

#[test]
fn a_message_grows_by_what_is_missing() {
    let codec = PacketCodec::standard();
    let first: Vec<u8> = vec![1; 57];
    let second: Vec<u8> = vec![2; 59];
    let third: Vec<u8> = vec![3; 59];
    let mut message = Message::start(&codec, 7, 0x90, 120, &first, 0);
    message.append(&codec, &second);
    assert_eq!(message.bytes_received(), 116);
    assert_eq!(message.next_sequence(), 1);
    assert!(!message.is_complete());
    message.append(&codec, &third);
    assert_eq!(message.bytes_received(), 120);
    assert_eq!(message.next_sequence(), 2);
    assert!(message.is_complete());
    let mut expected = vec![1u8; 57];
    expected.extend_from_slice(&[2; 59]);
    expected.extend_from_slice(&[3; 4]);
    assert_eq!(message.into_payload(), expected);
}

#[test]
fn a_short_fragment_counts_as_padded_with_zeros() {
    let codec = PacketCodec::standard();
    let message = Message::start(&codec, 7, 0x90, 5, &[8, 9], 0);
    assert_eq!(message.into_payload(), vec![8, 9, 0, 0, 0]);
}

#[test]
fn keepalive_status_can_be_compared() {
    assert_ne!(KeepaliveStatus::Processing, KeepaliveStatus::UpNeeded);
}
