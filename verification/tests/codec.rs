use ctaphid::codec::{
    CodecError, Packet, PacketCodec, CONT_HEADER_LEN, DEFAULT_REPORT_SIZE, INIT_HEADER_LEN,
    MAX_CONTINUATIONS, MAX_REPORT_SIZE, MIN_REPORT_SIZE,
};
use ctaphid::protocol::{classify, is_control_command, CommandKind, ErrorCode, KeepaliveStatus};

fn pattern(len: usize) -> Vec<u8> {
    (0..len).map(|i| (i * 7 % 253 + 1) as u8).collect()
}

fn report(header: &[u8], body: &[u8]) -> Vec<u8> {
    let mut raw = header.to_vec();
    raw.extend_from_slice(body);
    raw.resize(64, 0);
    raw
}

#[test]
fn constants_have_their_values() {
    assert_eq!(MIN_REPORT_SIZE, 8);
    assert_eq!(MAX_REPORT_SIZE, 513);
    assert_eq!(DEFAULT_REPORT_SIZE, 64);
    assert_eq!(INIT_HEADER_LEN, 7);
    assert_eq!(CONT_HEADER_LEN, 5);
    assert_eq!(MAX_CONTINUATIONS, 128);
}

#[test]
fn codec_is_made_for_sizes_from_8_to_513() {
    assert!(PacketCodec::new(0).is_none());
    assert!(PacketCodec::new(7).is_none());
    assert_eq!(PacketCodec::new(8).unwrap().report_size(), 8);
    assert_eq!(PacketCodec::new(64).unwrap(), PacketCodec::standard());
    assert_eq!(PacketCodec::new(513).unwrap().report_size(), 513);
    assert!(PacketCodec::new(514).is_none());
}

#[test]
fn capacities_of_a_64_byte_report() {
    let codec = PacketCodec::standard();
    assert_eq!(codec.report_size(), 64);
    assert_eq!(codec.init_capacity(), 57);
    assert_eq!(codec.cont_capacity(), 59);
    assert_eq!(codec.max_message_len(), 57 + 128 * 59);
    assert_eq!(codec.max_message_len(), 7609);
}

#[test]
fn capacities_at_the_ends_of_the_range() {
    let small = PacketCodec::new(8).unwrap();
    assert_eq!(small.init_capacity(), 1);
    assert_eq!(small.cont_capacity(), 3);
    assert_eq!(small.max_message_len(), 385);
    let large = PacketCodec::new(513).unwrap();
    assert_eq!(large.init_capacity(), 506);
    assert_eq!(large.cont_capacity(), 508);
    assert_eq!(large.max_message_len(), 65530);
}

#[test]
fn decode_refuses_a_block_of_the_wrong_length() {
    let codec = PacketCodec::standard();
    assert_eq!(codec.decode(&[]), Err(CodecError::MalformedPacket));
    assert_eq!(codec.decode(&[1, 2, 3, 4, 5]), Err(CodecError::MalformedPacket));
    assert_eq!(codec.decode(&[0u8; 63]), Err(CodecError::MalformedPacket));
    assert_eq!(codec.decode(&[0u8; 65]), Err(CodecError::MalformedPacket));
    assert!(codec.decode(&[0u8; 64]).is_ok());
}

#[test]
fn decode_reads_an_initialization_packet() {
    let codec = PacketCodec::standard();
    let body = pattern(57);
    let raw = report(&[0x01, 0x02, 0x03, 0x04, 0x90, 0x01, 0x02], &body);
    assert_eq!(
        codec.decode(&raw),
        Ok(Packet::Init { channel: 0x0102_0304, command: 0x90, total_length: 0x0102, payload: body })
    );
}

#[test]
fn decode_reads_a_continuation_packet() {
    let codec = PacketCodec::standard();
    let body = pattern(59);
    let raw = report(&[0xFF, 0xFE, 0xFD, 0xFC, 0x7F], &body);
    assert_eq!(
        codec.decode(&raw),
        Ok(Packet::Cont { channel: 0xFFFE_FDFC, sequence: 0x7F, payload: body })
    );
}

#[test]
fn the_high_bit_alone_tells_the_shapes_apart() {
    let codec = PacketCodec::standard();
    let cont = codec.decode(&report(&[0, 0, 0, 1, 0x7F], &[])).unwrap();
    assert!(matches!(cont, Packet::Cont { sequence: 0x7F, .. }));
    let init = codec.decode(&report(&[0, 0, 0, 1, 0x80], &[])).unwrap();
    assert!(matches!(init, Packet::Init { command: 0x80, total_length: 0, .. }));
    let zero = codec.decode(&report(&[0, 0, 0, 1, 0x00], &[])).unwrap();
    assert!(matches!(zero, Packet::Cont { sequence: 0, .. }));
}

#[test]
fn encode_init_lays_out_header_and_pads_with_zeros() {
    let codec = PacketCodec::standard();
    let packet = codec.encode_init(0xAABB_CCDD, 0x81, 3, &[9, 8, 7]);
    let mut payload = vec![9u8, 8, 7];
    payload.resize(57, 0);
    assert_eq!(
        packet,
        Packet::Init { channel: 0xAABB_CCDD, command: 0x81, total_length: 3, payload }
    );
    assert_eq!(packet.channel(), 0xAABB_CCDD);
    assert_eq!(packet.to_bytes(), report(&[0xAA, 0xBB, 0xCC, 0xDD, 0x81, 0x00, 0x03, 9, 8, 7], &[]));
}

#[test]
fn encode_init_writes_the_length_big_endian() {
    let codec = PacketCodec::standard();
    let bytes = codec.encode_init(1, 0x90, 0x1DB9, &[]).to_bytes();
    assert_eq!(&bytes[..7], &[0, 0, 0, 1, 0x90, 0x1D, 0xB9]);
    assert_eq!(bytes.len(), 64);
}

#[test]
fn encode_init_sets_the_type_bit() {
    let codec = PacketCodec::standard();
    let packet = codec.encode_init(1, 0x10, 0, &[]);
    assert!(matches!(packet, Packet::Init { command: 0x90, .. }));
    let kept = codec.encode_init(1, 0xFF, 0, &[]);
    assert!(matches!(kept, Packet::Init { command: 0xFF, .. }));
}

#[test]
fn encode_cont_lays_out_header_and_pads_with_zeros() {
    let codec = PacketCodec::standard();
    let packet = codec.encode_cont(0x0000_0002, 5, &[1, 2]);
    assert_eq!(packet.to_bytes(), report(&[0, 0, 0, 2, 5, 1, 2], &[]));
    assert_eq!(packet.channel(), 2);
}

#[test]
fn encode_cont_clears_the_type_bit() {
    let codec = PacketCodec::standard();
    assert!(matches!(codec.encode_cont(1, 0x85, &[]), Packet::Cont { sequence: 0x05, .. }));
    assert!(matches!(codec.encode_cont(1, 0x7F, &[]), Packet::Cont { sequence: 0x7F, .. }));
}

#[test]
fn encode_cuts_a_fragment_to_the_capacity() {
    let codec = PacketCodec::standard();
    let long = pattern(100);
    match codec.encode_init(1, 0x90, 100, &long) {
        Packet::Init { payload, .. } => assert_eq!(payload, long[..57].to_vec()),
        Packet::Cont { .. } => panic!("an initialization packet was asked for"),
    }
    match codec.encode_cont(1, 0, &long) {
        Packet::Cont { payload, .. } => assert_eq!(payload, long[..59].to_vec()),
        Packet::Init { .. } => panic!("a continuation packet was asked for"),
    }
}

#[test]
fn error_packet_has_its_fixed_shape() {
    let codec = PacketCodec::standard();
    let bytes = codec.encode_error(0x0000_0007, ErrorCode::InvalidSeq).to_bytes();
    assert_eq!(bytes, report(&[0, 0, 0, 7, 0xBF, 0, 1, 0x04], &[]));
}

#[test]
fn keepalive_packet_has_its_fixed_shape() {
    let codec = PacketCodec::standard();
    let processing = codec.encode_keepalive(3, KeepaliveStatus::Processing).to_bytes();
    assert_eq!(processing, report(&[0, 0, 0, 3, 0xBB, 0, 1, 1], &[]));
    let waiting = codec.encode_keepalive(3, KeepaliveStatus::UpNeeded).to_bytes();
    assert_eq!(waiting, report(&[0, 0, 0, 3, 0xBB, 0, 1, 2], &[]));
}

#[test]
fn every_error_code_has_its_byte() {
    let table = [
        (ErrorCode::InvalidCmd, 0x01u8),
        (ErrorCode::InvalidPar, 0x02),
        (ErrorCode::InvalidLen, 0x03),
        (ErrorCode::InvalidSeq, 0x04),
        (ErrorCode::MsgTimeout, 0x05),
        (ErrorCode::ChannelBusy, 0x06),
        (ErrorCode::LockRequired, 0x0A),
        (ErrorCode::InvalidChannel, 0x0B),
        (ErrorCode::Other, 0x7F),
    ];
    for (code, byte) in table {
        assert_eq!(code.code(), byte);
        assert_eq!(ErrorCode::from_code(byte), Some(code));
    }
    assert_eq!(ErrorCode::from_code(0x00), None);
    assert_eq!(ErrorCode::from_code(0x07), None);
    assert_eq!(ErrorCode::from_code(0xFF), None);
}

#[test]
fn keepalive_status_has_its_byte() {
    assert_eq!(KeepaliveStatus::Processing.code(), 1);
    assert_eq!(KeepaliveStatus::UpNeeded.code(), 2);
}

#[test]
fn commands_are_sorted_by_their_byte() {
    assert_eq!(classify(0x86), CommandKind::Init);
    assert_eq!(classify(0x91), CommandKind::Cancel);
    assert_eq!(classify(0x84), CommandKind::Lock);
    for command in [0x81u8, 0x83, 0x88, 0x90, 0xC0, 0xD5, 0xFF] {
        assert_eq!(classify(command), CommandKind::Forward);
    }
    assert_eq!(classify(0xBB), CommandKind::Outbound);
    assert_eq!(classify(0xBF), CommandKind::Outbound);
    for command in [0x00u8, 0x06, 0x7F, 0x80, 0x82, 0x85, 0x92, 0xBE] {
        assert_eq!(classify(command), CommandKind::Unknown);
    }
    assert!(is_control_command(0x86));
    assert!(is_control_command(0x91));
    assert!(!is_control_command(0x84));
    assert!(!is_control_command(0x90));
}

#[test]
fn a_payload_that_fills_the_first_packet_needs_no_continuation() {
    let codec = PacketCodec::standard();
    let payload = pattern(57);
    let packets = codec.fragment(4, 0x90, &payload).unwrap();
    assert_eq!(packets.len(), 1);
    assert_eq!(
        packets[0],
        Packet::Init { channel: 4, command: 0x90, total_length: 57, payload: payload.clone() }
    );
}

#[test]
fn one_byte_more_needs_one_continuation() {
    let codec = PacketCodec::standard();
    let payload = pattern(58);
    let packets = codec.fragment(4, 0x90, &payload).unwrap();
    assert_eq!(packets.len(), 2);
    let mut tail = vec![payload[57]];
    tail.resize(59, 0);
    assert_eq!(packets[1], Packet::Cont { channel: 4, sequence: 0, payload: tail });
}

#[test]
fn an_empty_payload_is_one_packet() {
    let codec = PacketCodec::standard();
    let packets = codec.fragment(4, 0x84, &[]).unwrap();
    assert_eq!(
        packets,
        vec![Packet::Init { channel: 4, command: 0x84, total_length: 0, payload: vec![0u8; 57] }]
    );
}

#[test]
fn packet_count_follows_the_capacities() {
    let codec = PacketCodec::standard();
    for (k, rest) in [(0usize, 1usize), (0, 59), (1, 1), (2, 10), (2, 59), (127, 58), (127, 59)] {
        let len = 57 + k * 59 + rest;
        let packets = codec.fragment(9, 0x83, &pattern(len)).unwrap();
        assert_eq!(packets.len(), 1 + k + 1);
        assert!(matches!(packets[0], Packet::Init { channel: 9, command: 0x83, .. }));
        for (j, packet) in packets.iter().enumerate().skip(1) {
            match packet {
                Packet::Cont { channel, sequence, payload } => {
                    assert_eq!(*channel, 9);
                    assert_eq!(*sequence as usize, j - 1);
                    assert_eq!(payload.len(), 59);
                }
                Packet::Init { .. } => panic!("packet {} is no continuation", j),
            }
        }
    }
}

#[test]
fn packets_carry_the_payload_in_order() {
    let codec = PacketCodec::standard();
    let payload = pattern(185);
    let packets = codec.fragment(9, 0x83, &payload).unwrap();
    assert_eq!(packets.len(), 4);
    let mut joined: Vec<u8> = Vec::new();
    for packet in &packets {
        match packet {
            Packet::Init { total_length, payload, .. } => {
                assert_eq!(*total_length, 185);
                joined.extend_from_slice(payload);
            }
            Packet::Cont { payload, .. } => joined.extend_from_slice(payload),
        }
    }
    assert_eq!(joined.len(), 57 + 3 * 59);
    assert_eq!(&joined[..185], &payload[..]);
    assert!(joined[185..].iter().all(|b| *b == 0));
}

#[test]
fn the_longest_message_takes_129_packets() {
    let codec = PacketCodec::standard();
    let packets = codec.fragment(1, 0x90, &pattern(7609)).unwrap();
    assert_eq!(packets.len(), 129);
    assert!(matches!(packets[128], Packet::Cont { sequence: 127, .. }));
    assert!(matches!(packets[0], Packet::Init { total_length: 7609, .. }));
}

#[test]
fn a_longer_message_is_refused() {
    let codec = PacketCodec::standard();
    assert_eq!(codec.fragment(1, 0x90, &pattern(7610)), Err(CodecError::MessageTooLong));
    let small = PacketCodec::new(8).unwrap();
    assert_eq!(small.fragment(1, 0x90, &pattern(385)).unwrap().len(), 129);
    assert_eq!(small.fragment(1, 0x90, &pattern(386)), Err(CodecError::MessageTooLong));
}

#[test]
fn decoding_what_was_encoded_gives_it_back() {
    let codec = PacketCodec::standard();
    for packet in codec.fragment(0xDEAD_BEEF, 0xC1, &pattern(300)).unwrap() {
        let bytes = packet.to_bytes();
        assert_eq!(bytes.len(), 64);
        assert_eq!(codec.decode(&bytes), Ok(packet));
    }
}

#[test]
fn encoding_what_was_decoded_gives_it_back() {
    let codec = PacketCodec::standard();
    let init = report(&[1, 2, 3, 4, 0xFF, 0xFF, 0xFF], &pattern(57));
    assert_eq!(codec.decode(&init).unwrap().to_bytes(), init);
    let cont = report(&[1, 2, 3, 4, 0x00], &pattern(59));
    assert_eq!(codec.decode(&cont).unwrap().to_bytes(), cont);
}
