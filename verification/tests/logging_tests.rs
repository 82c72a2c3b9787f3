use sanelens::logging::{strip_ansi_codes, LogHub, CLIENT_QUEUE_SIZE};

#[test]
fn strips_sgr_sequences() {
    let input = "\u{1b}[38;5;87mhello\u{1b}[0m";
    assert_eq!(strip_ansi_codes(input.as_bytes()), "hello");
}

#[test]
fn strips_osc_sequences() {
    let input = "\u{1b}]0;title\u{7}payload";
    assert_eq!(strip_ansi_codes(input.as_bytes()), "payload");
}

#[test]
fn strips_csi_sequences() {
    let input = "\u{1b}[31mwarn\u{1b}[0m";
    assert_eq!(strip_ansi_codes(input.as_bytes()), "warn");
}

#[test]
fn strips_single_byte_csi_sequences() {
    let input = [
        0x9b, b'3', b'1', b'm', b'w', b'a', b'r', b'n', 0x9b, b'0', b'm',
    ];
    assert_eq!(strip_ansi_codes(&input), "warn");
}

#[test]
fn log_hub_assigns_increasing_sequence_numbers() {
    let mut hub = LogHub::new(10);
    let (_id, snapshot) = hub.register_client();
    assert_eq!(snapshot.len(), 0);
    hub.publish("api", "one");
    hub.publish("api", "two");
    hub.publish("", "three");
    let events = hub.take_events(0);
    assert_eq!(events.len(), 3);
    assert_eq!(events[0].seq, 1);
    assert_eq!(events[1].seq, 2);
    assert_eq!(events[2].seq, 3);
    assert_eq!(events[0].line, "one");
    assert_eq!(events[2].service, "unknown");
    // a second drain yields nothing: no event is delivered twice
    let empty = hub.take_events(0);
    assert_eq!(empty.len(), 0);
}

#[test]
fn log_hub_at_capacity_drops_oldest_first() {
    let mut hub = LogHub::new(2);
    hub.publish("a", "1");
    hub.publish("a", "2");
    hub.publish("a", "3");
    let (_id, snapshot) = hub.register_client();
    assert_eq!(snapshot.len(), 2);
    assert_eq!(snapshot[0].line, "2");
    assert_eq!(snapshot[1].line, "3");
}

#[test]
fn slow_client_loses_events_silently_but_stays_subscribed() {
    let mut hub = LogHub::new(4000);
    let (_id, _snapshot) = hub.register_client();
    for i in 0..(CLIENT_QUEUE_SIZE + 5) {
        hub.publish("svc", &format!("line {}", i));
    }
    let events = hub.take_events(0);
    // the queue was full for the last five events: they are lost, the
    // subscription survives
    assert_eq!(events.len(), CLIENT_QUEUE_SIZE);
    hub.publish("svc", "after");
    let more = hub.take_events(0);
    assert_eq!(more.len(), 1);
    assert_eq!(more[0].line, "after");
    assert!(more[0].seq > events[events.len() - 1].seq);
}
