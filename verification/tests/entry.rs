use ctaphid::channel::ChannelState;
use ctaphid::dispatch::{Action, Outcome};
use ctaphid::engine::ProtocolEngine;
use ctaphid::protocol::BROADCAST_CHANNEL;
use ctaphid::{init, on_usb_data};

const INIT: u8 = 0x86;
const MSG: u8 = 0x83;
const LOCK: u8 = 0x84;
const CBOR: u8 = 0x90;
const CANCEL: u8 = 0x91;
const ERROR: u8 = 0xBF;

fn pattern(len: usize) -> Vec<u8> {
    (0..len).map(|i| (i * 13 % 249 + 1) as u8).collect()
}

fn init_report(channel: u32, command: u8, total: u16, body: &[u8]) -> Vec<u8> {
    let mut raw = channel.to_be_bytes().to_vec();
    raw.push(command);
    raw.extend_from_slice(&total.to_be_bytes());
    raw.extend_from_slice(&body[..body.len().min(57)]);
    raw.resize(64, 0);
    raw
}

fn cont_report(channel: u32, sequence: u8, body: &[u8]) -> Vec<u8> {
    let mut raw = channel.to_be_bytes().to_vec();
    raw.push(sequence);
    raw.extend_from_slice(&body[..body.len().min(59)]);
    raw.resize(64, 0);
    raw
}

fn error_report(channel: u32, code: u8) -> Vec<u8> {
    init_report(channel, ERROR, 1, &[code])
}

fn open_channel(engine: &mut ProtocolEngine) -> u32 {
    let actions = on_usb_data(engine, &init_report(BROADCAST_CHANNEL, INIT, 8, &[7; 8]));
    match &actions[..] {
        [Action::Send(raw)] => u32::from_be_bytes([raw[15], raw[16], raw[17], raw[18]]),
        other => panic!("the handshake was answered with {:?}", other),
    }
}

fn state_of(engine: &ProtocolEngine, channel: u32) -> ChannelState {
    engine.table().get(channel).unwrap().state()
}

#[test]
fn test_on_usb_data_echo() {
    let data = vec![1, 2, 3, 4, 5];
    let mut engine = init();
    let result = on_usb_data(&mut engine, &data);
    let mut report = vec![1u8, 2, 3, 4, 0xBF, 0, 1, 0x03];
    report.resize(64, 0);
    assert_eq!(result, vec![Action::Send(report)]);
    assert_ne!(result, vec![Action::Send(data)]);
    assert_eq!(engine, init());
}

#[test]
fn a_block_that_is_no_report_creates_no_channel() {
    let mut engine = init();
    for len in [0usize, 3, 4, 63, 65, 128] {
        let actions = on_usb_data(&mut engine, &vec![0xFF; len]);
        assert_eq!(actions, vec![Action::Send(error_report(BROADCAST_CHANNEL, 0x03))]);
    }
    assert_eq!(engine.table().len(), 1);
}

#[test]
fn the_entry_serves_the_handshake() {
    let mut engine = init();
    let nonce = [9, 8, 7, 6, 5, 4, 3, 2];
    let actions = on_usb_data(&mut engine, &init_report(BROADCAST_CHANNEL, INIT, 8, &nonce));
    let mut body = nonce.to_vec();
    body.extend_from_slice(&[0, 0, 0, 1, 2, 1, 0, 0, 5]);
    assert_eq!(actions, vec![Action::Send(init_report(BROADCAST_CHANNEL, INIT, 17, &body))]);
    assert_eq!(state_of(&engine, 1), ChannelState::Idle);
}

#[test]
fn the_entry_answers_a_wrong_sequence_number_with_invalid_seq() {
    let mut engine = init();
    let channel = open_channel(&mut engine);
    let other = open_channel(&mut engine);
    let payload = pattern(400);
    assert_eq!(on_usb_data(&mut engine, &init_report(channel, CBOR, 400, &payload)), vec![]);
    assert_eq!(on_usb_data(&mut engine, &init_report(other, MSG, 100, &payload)), vec![]);
    assert_eq!(on_usb_data(&mut engine, &cont_report(channel, 0, &payload[57..])), vec![]);
    let other_before = engine.table().get(other).unwrap().clone();
    for wrong in [0u8, 2, 127] {
        let mut probe = engine.clone();
        let actions = on_usb_data(&mut probe, &cont_report(channel, wrong, &payload[116..]));
        assert_eq!(actions, vec![Action::Send(error_report(channel, 0x04))]);
        assert_eq!(state_of(&probe, channel), ChannelState::Idle);
        assert!(probe.table().get(channel).unwrap().message().is_none());
        assert_eq!(probe.table().get(other).unwrap(), &other_before);
        let rest = on_usb_data(&mut probe, &cont_report(channel, 1, &payload[116..]));
        assert_eq!(rest, vec![Action::Send(error_report(channel, 0x0B))]);
        let done = on_usb_data(&mut probe, &cont_report(other, 0, &payload[57..]));
        assert_eq!(
            done,
            vec![Action::Dispatch {
                channel: other,
                ticket: 0,
                command: MSG,
                payload: payload[..100].to_vec(),
            }]
        );
    }
}

#[test]
fn the_entry_hands_a_message_of_57_bytes_over_at_once() {
    let mut engine = init();
    let channel = open_channel(&mut engine);
    let payload = pattern(57);
    let actions = on_usb_data(&mut engine, &init_report(channel, CBOR, 57, &payload));
    assert_eq!(
        actions,
        vec![Action::Dispatch { channel, ticket: 0, command: CBOR, payload: payload.clone() }]
    );
    assert_eq!(state_of(&engine, channel), ChannelState::Dispatching);
    let answer: Vec<u8> = payload.iter().map(|b| b ^ 0xFF).collect();
    let sent = engine.on_outcome(channel, 0, Outcome::Ready(answer.clone()));
    let mut report = channel.to_be_bytes().to_vec();
    report.extend_from_slice(&[CBOR, 0x00, 0x39]);
    report.extend_from_slice(&answer);
    assert_eq!(report.len(), 64);
    assert_eq!(sent, vec![Action::Send(report)]);
    assert_eq!(state_of(&engine, channel), ChannelState::Idle);
}

#[test]
fn the_entry_puts_split_payloads_together() {
    for len in [58usize, 116, 117, 1000, 7609] {
        let mut engine = init();
        let channel = open_channel(&mut engine);
        let payload = pattern(len);
        let first = on_usb_data(&mut engine, &init_report(channel, MSG, len as u16, &payload));
        assert_eq!(first, vec![]);
        let mut offset = 57;
        let mut sequence = 0u8;
        let mut handed_over = 0;
        while offset < len {
            let actions = on_usb_data(&mut engine, &cont_report(channel, sequence, &payload[offset..]));
            offset += 59;
            sequence += 1;
            if offset < len {
                assert_eq!(actions, vec![]);
            } else {
                assert_eq!(
                    actions,
                    vec![Action::Dispatch {
                        channel,
                        ticket: 0,
                        command: MSG,
                        payload: payload.clone(),
                    }]
                );
                handed_over += 1;
            }
        }
        assert_eq!(handed_over, 1);
    }
}

#[test]
fn the_answer_to_an_entry_is_split_by_the_capacities() {
    for (k, rest) in [(0usize, 1usize), (0, 59), (2, 17), (127, 59)] {
        let mut engine = init();
        let channel = open_channel(&mut engine);
        on_usb_data(&mut engine, &init_report(channel, CBOR, 1, &[1]));
        let answer = pattern(57 + 59 * k + rest);
        let sent = engine.on_outcome(channel, 0, Outcome::Ready(answer.clone()));
        assert_eq!(sent.len(), k + 2);
        assert_eq!(sent[0], Action::Send(init_report(channel, CBOR, answer.len() as u16, &answer)));
        for i in 0..=k {
            let from = 57 + 59 * i;
            assert_eq!(sent[i + 1], Action::Send(cont_report(channel, i as u8, &answer[from..])));
        }
        match &sent[k + 1] {
            Action::Send(raw) => assert!(raw[5 + rest..].iter().all(|b| *b == 0)),
            other => panic!("{:?} is no report", other),
        }
    }
}

#[test]
fn the_entry_keeps_other_channels_out_while_the_lock_is_held() {
    let mut engine = init();
    let holder = open_channel(&mut engine);
    let other = open_channel(&mut engine);
    let locked = on_usb_data(&mut engine, &init_report(holder, LOCK, 1, &[3]));
    assert_eq!(locked, vec![Action::Send(init_report(holder, LOCK, 0, &[]))]);
    let holder_before = engine.table().get(holder).unwrap().clone();
    let command = init_report(other, MSG, 4, &[1, 2, 3, 4]);
    let refused = on_usb_data(&mut engine, &command);
    assert_eq!(refused, vec![Action::Send(error_report(other, 0x0A))]);
    assert_eq!(state_of(&engine, other), ChannelState::Idle);
    assert_eq!(engine.table().lock_holder(), Some(holder));
    assert_eq!(engine.table().get(holder).unwrap(), &holder_before);
    assert_eq!(engine.next_ticket(), 0);
    on_usb_data(&mut engine, &init_report(holder, LOCK, 1, &[0]));
    assert_eq!(engine.table().lock_holder(), None);
    let admitted = on_usb_data(&mut engine, &command);
    assert_eq!(
        admitted,
        vec![Action::Dispatch { channel: other, ticket: 0, command: MSG, payload: vec![1, 2, 3, 4] }]
    );
    let answer = engine.on_outcome(other, 0, Outcome::Ready(vec![0x90, 0x00]));
    assert_eq!(answer, vec![Action::Send(init_report(other, MSG, 2, &[0x90, 0x00]))]);
}

#[test]
fn the_entry_lets_a_new_initialization_packet_win() {
    let mut engine = init();
    let channel = open_channel(&mut engine);
    on_usb_data(&mut engine, &init_report(channel, CBOR, 500, &pattern(57)));
    let new = vec![0x42u8; 70];
    assert_eq!(on_usb_data(&mut engine, &init_report(channel, MSG, 70, &new)), vec![]);
    assert_eq!(engine.table().get(channel).unwrap().message().unwrap().total_length(), 70);
    let done = on_usb_data(&mut engine, &cont_report(channel, 0, &new[57..]));
    assert_eq!(done, vec![Action::Dispatch { channel, ticket: 0, command: MSG, payload: new }]);
}

#[test]
fn the_entry_takes_cancel_for_a_running_command() {
    let mut engine = init();
    let channel = open_channel(&mut engine);
    on_usb_data(&mut engine, &init_report(channel, CBOR, 1, &[1]));
    let actions = on_usb_data(&mut engine, &init_report(channel, CANCEL, 0, &[]));
    assert_eq!(actions, vec![Action::Cancel { channel, ticket: 0 }]);
    assert_eq!(state_of(&engine, channel), ChannelState::Idle);
    assert_eq!(engine.on_outcome(channel, 0, Outcome::Ready(vec![1, 2])), vec![]);
    assert_eq!(state_of(&engine, channel), ChannelState::Idle);
}

#[test]
fn a_stalled_channel_times_out_at_the_next_instant() {
    let mut engine = init();
    let stalled = open_channel(&mut engine);
    let other = open_channel(&mut engine);
    on_usb_data(&mut engine, &init_report(stalled, CBOR, 300, &pattern(57)));
    assert_eq!(engine.on_tick(501), vec![Action::Send(error_report(stalled, 0x05))]);
    let actions = on_usb_data(&mut engine, &init_report(other, CBOR, 1, &[1]));
    assert_eq!(
        actions,
        vec![Action::Dispatch { channel: other, ticket: 0, command: CBOR, payload: vec![1] }]
    );
    assert_eq!(engine.on_tick(502), vec![Action::Poll { channel: other, ticket: 0 }]);
    assert_eq!(state_of(&engine, stalled), ChannelState::Idle);
}
