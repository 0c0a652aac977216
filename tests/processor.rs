use tpu_telemetry::address::{parse_broker_address, AddressError};
use tpu_telemetry::cell::SignalCell;
use tpu_telemetry::codec::{decode, encode, WireFrame};
use tpu_telemetry::measurement::{Metric, PublishableMessage};
use tpu_telemetry::mqtt_handler::{
    Action, Event, MqttProcessor, MqttProcessorOptions, CONNECT_TIMEOUT_SECS, KEEP_ALIVE_SECS,
    TOPIC_ALIAS_MAX,
};

fn processor(topic: Option<&str>) -> MqttProcessor {
    let opts = MqttProcessorOptions {
        mqtt_path: "localhost:1883".to_string(),
        mqtt_recv: topic.map(|t| t.to_string()),
    };
    MqttProcessor::new(opts, 1_730_247_194_876).expect("valid address").0
}

fn payload(unit: &str, values: &[f32], time_us: u64) -> Vec<u8> {
    encode(&WireFrame {
        unit: unit.to_string(),
        values: values.iter().map(|v| v.to_bits()).collect(),
        time_us,
    })
}

fn apply(cell: &mut SignalCell, action: Action) {
    if let Action::Store(bits) = action {
        cell.write(bits);
    }
}

#[test]
fn new_splits_settings_from_processor() {
    let opts = MqttProcessorOptions {
        mqtt_path: "siren.local:1883".to_string(),
        mqtt_recv: Some("MPU/Volts".to_string()),
    };
    let (p, s) = MqttProcessor::new(opts, 1_730_247_194_876).expect("valid address");
    assert_eq!(s.host, "siren.local");
    assert_eq!(s.port, 1883);
    assert_eq!(s.client_id, "Ody-1730247194876");
    assert_eq!(s.keep_alive_secs, KEEP_ALIVE_SECS);
    assert_eq!(s.keep_alive_secs, 20);
    assert!(!s.clean_start);
    assert_eq!(s.connect_timeout_secs, CONNECT_TIMEOUT_SECS);
    assert_eq!(s.topic_alias_max, TOPIC_ALIAS_MAX);
    assert_eq!(s.topic_alias_max, 600);
    assert!(p.running());
    assert!(p.outbound_open());
    assert_eq!(p.subscription().map(|t| t.as_str()), Some("MPU/Volts"));
}

#[test]
fn new_refuses_malformed_address() {
    let opts = MqttProcessorOptions { mqtt_path: "localhost".to_string(), mqtt_recv: None };
    assert!(matches!(MqttProcessor::new(opts, 0), Err(AddressError::MissingPort)));
    let opts = MqttProcessorOptions { mqtt_path: "localhost:x".to_string(), mqtt_recv: None };
    assert!(matches!(MqttProcessor::new(opts, 0), Err(AddressError::InvalidPort)));
}

#[test]
fn address_is_split_at_first_colon() {
    assert_eq!(parse_broker_address("localhost:1883"), Ok(("localhost".to_string(), 1883)));
    assert_eq!(parse_broker_address(":+80"), Ok((String::new(), 80)));
    assert_eq!(parse_broker_address("h:65535"), Ok(("h".to_string(), 65535)));
    assert_eq!(parse_broker_address("h:65536"), Err(AddressError::InvalidPort));
    assert_eq!(parse_broker_address("h:"), Err(AddressError::InvalidPort));
    assert_eq!(parse_broker_address("h:+"), Err(AddressError::InvalidPort));
    assert_eq!(parse_broker_address("h:-1"), Err(AddressError::InvalidPort));
    assert_eq!(parse_broker_address("a:b:1"), Err(AddressError::InvalidPort));
    assert_eq!(parse_broker_address("h:99999999999999999999"), Err(AddressError::InvalidPort));
    assert_eq!(parse_broker_address(""), Err(AddressError::MissingPort));
}

#[test]
fn inbound_frame_sets_cell() {
    let mut p = processor(Some("MPU/Volts"));
    let mut cell = SignalCell::new();
    assert_eq!(f32::from_bits(cell.read()), 0.0);
    let action = p.handle(Event::InboundPublish(payload("V", &[3.7], 1234)));
    assert_eq!(action, Action::Store(3.7f32.to_bits()));
    apply(&mut cell, action);
    assert_eq!(f32::from_bits(cell.read()), 3.7);
    assert!(p.running());
}

#[test]
fn inbound_frame_without_values_stores_zero() {
    let mut p = processor(Some("t"));
    assert_eq!(p.handle(Event::InboundPublish(payload("V", &[], 5))), Action::Store(0));
}

#[test]
fn inbound_frame_without_subscription_is_ignored() {
    let mut p = processor(None);
    assert_eq!(p.handle(Event::InboundPublish(payload("V", &[3.7], 1))), Action::Idle);
}

#[test]
fn malformed_inbound_frame_is_skipped() {
    let mut p = processor(Some("t"));
    let mut cell = SignalCell::new();
    cell.write(1.5f32.to_bits());
    let action = p.handle(Event::InboundPublish(vec![0xFF, 0x00]));
    assert_eq!(action, Action::Idle);
    apply(&mut cell, action);
    assert_eq!(f32::from_bits(cell.read()), 1.5);
    assert!(p.running());
    let next = p.handle(Event::InboundPublish(payload("V", &[2.5], 1)));
    assert_eq!(next, Action::Store(2.5f32.to_bits()));
}

#[test]
fn last_inbound_frame_wins() {
    let mut p = processor(Some("t"));
    let mut cell = SignalCell::new();
    for v in [1.0f32, 2.0, 3.0] {
        let action = p.handle(Event::InboundPublish(payload("V", &[v, 9.0], 7)));
        apply(&mut cell, action);
        let _ = cell.read();
    }
    assert_eq!(f32::from_bits(cell.read()), 3.0);
}

#[test]
fn repeated_reads_agree() {
    let mut cell = SignalCell::new();
    cell.write(4.25f32.to_bits());
    let a = cell.read();
    let b = cell.read();
    assert_eq!(a, b);
    assert_eq!(f32::from_bits(a), 4.25);
}

#[test]
fn outbound_measurement_is_published_as_frame() {
    let mut p = processor(None);
    let m = PublishableMessage::reading(Metric::MemAvailable, 512.0f32.to_bits());
    match p.handle(Event::Outbound(m, 1234)) {
        Action::Publish(topic, bytes) => {
            assert_eq!(topic, "TPU/OnBoard/MemAvailable");
            let f = decode(&bytes).expect("a frame");
            assert_eq!(f.unit, "MB");
            assert_eq!(f.values, vec![512.0f32.to_bits()]);
            assert_eq!(f.time_us, 1234);
        }
        other => panic!("expected a publish, got {:?}", other),
    }
}

#[test]
fn other_events_are_ignored() {
    let mut p = processor(Some("t"));
    assert_eq!(p.handle(Event::InboundOther), Action::Idle);
    assert_eq!(p.handle(Event::TransportError), Action::Idle);
    assert!(p.running());
}

#[test]
fn closed_queue_disables_outbound_only() {
    let mut p = processor(Some("t"));
    assert_eq!(p.handle(Event::QueueClosed), Action::Idle);
    assert!(!p.outbound_open());
    assert!(p.running());
    assert_eq!(p.handle(Event::InboundPublish(payload("V", &[1.0], 1))), Action::Store(1.0f32.to_bits()));
}

#[test]
fn cancellation_stops_at_once_and_for_good() {
    let mut p = processor(Some("t"));
    assert_eq!(p.handle(Event::Cancelled), Action::Stop);
    assert!(!p.running());
    assert_eq!(p.handle(Event::InboundPublish(payload("V", &[1.0], 1))), Action::Stop);
    assert_eq!(p.handle(Event::InboundOther), Action::Stop);
}

#[test]
fn client_id_is_prefix_and_decimal_boot_time() {
    for (ms, id) in [(0u64, "Ody-0"), (9, "Ody-9"), (10, "Ody-10"), (u64::MAX, "Ody-18446744073709551615")] {
        let opts = MqttProcessorOptions { mqtt_path: "h:1".to_string(), mqtt_recv: None };
        let (_, s) = MqttProcessor::new(opts, ms).expect("valid address");
        assert_eq!(s.client_id, id);
    }
}
