use sanelens::domain::{
    Confidence, Correlation, EntityId, FlowKey, FlowMetrics, FlowObservation, HttpObservation,
    IpAddress, ObservationAttrs, Peer, Socket, Transport, Visibility,
};
use sanelens::hub::{percentile, sorted_copy, TrafficHub};
use sanelens::logging::LogHub;
use sanelens::multiline::MultilineAggregator;

fn observation(status: Option<u16>, duration: Option<u64>) -> HttpObservation {
    HttpObservation {
        at_ms: 1000,
        peer: Peer {
            src: Some(EntityId::Workload {
                name: "client".to_string(),
                instance: None,
            }),
            dst: Some(EntityId::Workload {
                name: "api".to_string(),
                instance: None,
            }),
            raw: None,
        },
        method: Some("get".to_string()),
        path: Some("/v1/ping".to_string()),
        status,
        duration_ms: duration,
        bytes_in: Some(10),
        bytes_out: Some(20),
        request_headers: Vec::new(),
        response_headers: Vec::new(),
        request_body: None,
        response_body: None,
        correlation: Correlation {
            request_id: None,
            trace_id: None,
            span_id: None,
        },
        attrs: ObservationAttrs {
            visibility: Visibility::L7Semantics,
            confidence: Confidence::Exact,
            tags: Vec::new(),
        },
    }
}

#[test]
fn error_status_increments_error_counter_by_one() {
    let mut hub = TrafficHub::new();
    let i1 = hub.emit_http(&observation(Some(200), Some(5)));
    assert_eq!(hub.edges[i1].stats.errors, 0);
    assert_eq!(hub.edges[i1].stats.count, 1);
    let i2 = hub.emit_http(&observation(Some(500), Some(7)));
    assert_eq!(i1, i2);
    assert_eq!(hub.edges[i2].stats.errors, 1);
    assert_eq!(hub.edges[i2].stats.count, 2);
    let i3 = hub.emit_http(&observation(Some(404), None));
    assert_eq!(hub.edges[i3].stats.errors, 2);
    assert_eq!(hub.edges[i3].stats.count, 3);
    // durations joined the bounded window
    assert_eq!(hub.edges[i3].latencies, vec![5, 7]);
    assert!(hub.edges[i3].stats.p50_ms.is_some());
    // calls got increasing sequence numbers
    assert_eq!(hub.calls.len(), 3);
    assert_eq!(hub.calls[0].seq, 1);
    assert_eq!(hub.calls[2].seq, 3);
}

#[test]
fn percentiles_read_the_sorted_sample() {
    let window = vec![9, 1, 5, 3, 7];
    let sorted = sorted_copy(&window);
    assert_eq!(sorted, vec![1, 3, 5, 7, 9]);
    assert_eq!(percentile(&sorted, 50), 5);
    assert_eq!(percentile(&sorted, 95), 7);
    assert_eq!(percentile(&sorted, 100), 9);
    let empty: Vec<u64> = Vec::new();
    assert_eq!(percentile(&empty, 50), 0);
}

#[test]
fn traceback_lines_reach_the_hub_as_one_event() {
    let lines = [
        "ERROR:    Traceback (most recent call last):",
        "  File \"app.py\", line 3, in main",
        "    run()",
        "RuntimeError: boom",
    ];
    let mut agg = MultilineAggregator::new(1500);
    let mut hub = LogHub::new(100);
    let (_id, _snapshot) = hub.register_client();
    let mut now: u64 = 1000;
    for line in lines {
        now += 10;
        for event in agg.push_line(line, now) {
            hub.publish("api", &event.line);
        }
    }
    if let Some(event) = agg.flush() {
        hub.publish("api", &event.line);
    }
    let delivered = hub.take_events(0);
    assert_eq!(delivered.len(), 1);
    assert_eq!(delivered[0].line, lines.join("\n"));
}

#[test]
fn call_subscribers_receive_each_published_call() {
    let mut hub = TrafficHub::new();
    let client = hub.register_call_client();
    hub.emit_http(&observation(Some(200), Some(5)));
    hub.emit_http(&observation(Some(404), Some(7)));
    let calls = hub.take_calls(client);
    assert_eq!(calls.len(), 2);
    assert!(calls[0].seq < calls[1].seq);
    assert_eq!(calls[1].status, Some(404));
    assert!(hub.take_calls(client).is_empty());
    hub.unsubscribe_call_client(client);
    hub.emit_http(&observation(Some(200), None));
    assert!(hub.take_calls(client).is_empty());
}

#[test]
fn flow_observations_aggregate_into_edges() {
    let mut hub = TrafficHub::new();
    let flow = FlowObservation {
        at_ms: 5000,
        flow: FlowKey {
            src: Socket {
                ip: IpAddress::V4(0x0a000001),
                port: 40000,
            },
            dst: Socket {
                ip: IpAddress::V4(0x0a000002),
                port: 5432,
            },
            transport: Transport::Tcp,
        },
        metrics: FlowMetrics {
            bytes_in: Some(10),
            bytes_out: Some(20),
            packets: None,
            duration_ms: Some(7),
        },
        peer: Peer {
            src: None,
            dst: None,
            raw: None,
        },
        attrs: ObservationAttrs {
            visibility: Visibility::L4Flow,
            confidence: Confidence::Likely,
            tags: Vec::new(),
        },
    };
    let i1 = hub.emit_flow(&flow);
    let i2 = hub.emit_flow(&flow);
    assert_eq!(i1, i2);
    assert_eq!(hub.edges[i2].stats.count, 2);
    assert_eq!(hub.edges[i2].stats.bytes_in, 20);
    assert_eq!(hub.edges[i2].stats.bytes_out, 40);
    assert_eq!(hub.edges[i2].last_seen_ms, 5000);
    assert_eq!(hub.edges[i2].latencies, vec![7, 7]);
    assert_eq!(hub.edges[i2].stats.visibility, Visibility::L4Flow);
}
