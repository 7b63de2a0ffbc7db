use bytes::Bytes;
use soymilk_curry::pump::{
    client_item, kill_is_reported, process_group, pump_step, ClientItem, Delivery, KillOutcome,
    PumpAction, PumpEvent, READ_BUFFER_BYTES, STREAM_BUFFER_CHUNKS,
};

fn stops(event: PumpEvent) -> bool {
    matches!(pump_step(event, &vec![0; 8]), PumpAction::Stop)
}

fn waits(event: PumpEvent) -> bool {
    matches!(pump_step(event, &vec![0; 8]), PumpAction::Wait)
}

#[test]
fn sends_what_was_read() {
    let buffer = b"test-ts and more".to_vec();
    match pump_step(PumpEvent::Read(7), &buffer) {
        PumpAction::Send(chunk) => assert_eq!(chunk, Bytes::from("test-ts")),
        _ => panic!("nothing was sent"),
    }
    match pump_step(PumpEvent::Read(buffer.len()), &buffer) {
        PumpAction::Send(chunk) => assert_eq!(chunk, Bytes::from(buffer)),
        _ => panic!("nothing was sent"),
    }
}

#[test]
fn stops_at_the_end_of_the_output() {
    assert!(stops(PumpEvent::Read(0)));
}

#[test]
fn stops_when_reading_fails() {
    assert!(stops(PumpEvent::ReadFailed));
}

#[test]
fn stops_when_nobody_receives() {
    assert!(stops(PumpEvent::Sent { received: false }));
    assert!(waits(PumpEvent::Sent { received: true }));
}

#[test]
fn stops_when_told_to() {
    for (abandoned, cancelled) in [(true, false), (false, true), (true, true)] {
        assert!(stops(PumpEvent::OrderChanged {
            abandoned,
            cancelled
        }));
    }
    assert!(waits(PumpEvent::OrderChanged {
        abandoned: false,
        cancelled: false
    }));
}

#[test]
fn forwards_the_output_whole_and_in_order() {
    let mut sent: Vec<u8> = vec![];
    let mut buffer = vec![0u8; 4];
    for part in ["shar", "ed-", "t", "s", ""] {
        buffer[..part.len()].copy_from_slice(part.as_bytes());
        match pump_step(PumpEvent::Read(part.len()), &buffer) {
            PumpAction::Send(chunk) => sent.extend_from_slice(&chunk),
            PumpAction::Stop => assert!(part.is_empty()),
            PumpAction::Wait => panic!("nothing was sent"),
        }
    }
    assert_eq!(sent, b"shared-ts");
}

#[test]
fn clients_are_given_chunks_as_they_came() {
    let chunk = Bytes::from("test-ts");
    match client_item(Delivery::Chunk(chunk.clone())) {
        ClientItem::Chunk(given) => assert_eq!(given, chunk),
        _ => panic!("no chunk"),
    }
    assert!(matches!(client_item(Delivery::Closed), ClientItem::Finished));
    assert!(matches!(client_item(Delivery::Pending), ClientItem::Pending));
}

#[test]
fn clients_that_fall_behind_are_told() {
    match client_item(Delivery::Lagged(12)) {
        ClientItem::Failed(message) => {
            assert_eq!(message, "stream client lagged by 12 chunks")
        }
        _ => panic!("no error"),
    }
}

#[test]
fn only_failures_to_kill_are_reported() {
    assert!(kill_is_reported(KillOutcome::Failed));
    assert!(!kill_is_reported(KillOutcome::NoSuchProcess));
    assert!(!kill_is_reported(KillOutcome::Killed));
}

#[test]
fn process_groups_keep_the_bits_of_the_process() {
    for pid in [1u32, 4711, 0x7fff_ffff, 0x8000_0000, u32::MAX] {
        assert_eq!(process_group(pid), pid as i32);
    }
}

#[test]
fn buffer_sizes() {
    assert_eq!(STREAM_BUFFER_CHUNKS, 64);
    assert_eq!(READ_BUFFER_BYTES, 65536);
}
