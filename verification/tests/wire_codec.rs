use prost::encoding::WireType;
use prost::encoding::encode_key;
use prost::encoding::encode_varint;
use substreams_sink_prometheus::Counter;
use substreams_sink_prometheus::Gauge;
use substreams_sink_prometheus::Histogram;
use substreams_sink_prometheus::LabelSet;
use substreams_sink_prometheus::PrometheusOperations;
use substreams_sink_prometheus::Summary;
use substreams_sink_prometheus::Value;
use substreams_sink_prometheus::decode_operation;
use substreams_sink_prometheus::decode_operations;
use substreams_sink_prometheus::encode_operation;
use substreams_sink_prometheus::encode_operations;

fn value_of(x: f64) -> Value {
    Value::from_bits(x.to_bits())
}

#[test]
fn operation_round_trip() {
    let labels = LabelSet::from_pairs(vec![
        ("route".to_string(), "/health".to_string()),
        ("zone".to_string(), "eu".to_string()),
    ]);
    let op = Gauge::from("queue_depth").with(labels).set(value_of(88.8));
    let bytes = encode_operation(&op);
    assert_eq!(decode_operation(&bytes), Some(op));
}

#[test]
fn operation_round_trip_preserves_value_bits() {
    for x in [0.0f64, -0.0, 1.0, -5.0, 123.456, f64::INFINITY, f64::NEG_INFINITY, f64::MIN, f64::MAX] {
        let op = Summary::from("s").observe(value_of(x));
        let bytes = encode_operation(&op);
        let decoded = decode_operation(&bytes).expect("canonical bytes decode");
        assert_eq!(decoded, op);
    }
}

#[test]
fn round_trip_preserves_nan_bits() {
    // the wire carries the raw bit pattern, so even a NaN observation comes
    // back bit for bit; nothing distinguishes it from the "unused" sentinel
    // except its bits
    let op = Histogram::from("h").observe(Value::from_bits(f64::NAN.to_bits()));
    let bytes = encode_operation(&op);
    let decoded = decode_operation(&bytes).expect("canonical bytes decode");
    assert_eq!(decoded, op);
}

#[test]
fn batch_round_trip() {
    let mut batch: PrometheusOperations = Default::default();
    batch.push(Counter::from("a").inc());
    batch.push(Counter::from("b").add(value_of(123.456)));
    batch.push(Histogram::from("h").observe(value_of(0.25)));
    batch.push(Gauge::from("g").set_to_current_time());
    let bytes = encode_operations(&batch);
    let decoded = decode_operations(&bytes).expect("canonical bytes decode");
    assert_eq!(decoded, batch);
    assert_eq!(decoded.operations[0].name, "a");
    assert_eq!(decoded.operations[1].name, "b");
}

#[test]
fn empty_batch_round_trip() {
    let batch: PrometheusOperations = Default::default();
    let bytes = encode_operations(&batch);
    assert_eq!(bytes.len(), 0);
    let decoded = decode_operations(&bytes).expect("an empty body is an empty batch");
    assert_eq!(decoded.operations.len(), 0);
}

#[test]
fn counter_inc_exact_bytes() {
    let op = Counter::from("a").inc();
    let bytes = encode_operation(&op);
    assert_eq!(
        bytes,
        vec![
            0x0a, 0x01, 0x61, // name field: "a"
            0x1a, 0x0b, // counter payload field, 11 bytes
            0x08, 0x01, // action: inc
            0x11, 0x00, 0x00, 0x00, 0x00, 0x00, 0x00, 0xf0, 0x3f, // value: 1.0
        ]
    );
}

#[test]
fn encoding_matches_reference_encoder() {
    let labels = LabelSet::from_pairs(vec![("route".to_string(), "/health".to_string())]);
    let op = Gauge::from("queue_depth").with(labels).set(value_of(88.8));
    let bytes = encode_operation(&op);

    let mut expected: Vec<u8> = Vec::new();
    prost::encoding::string::encode(1, &"queue_depth".to_string(), &mut expected);
    let mut label_msg: Vec<u8> = Vec::new();
    prost::encoding::string::encode(1, &"route".to_string(), &mut label_msg);
    prost::encoding::string::encode(2, &"/health".to_string(), &mut label_msg);
    encode_key(2, WireType::LengthDelimited, &mut expected);
    encode_varint(label_msg.len() as u64, &mut expected);
    expected.extend_from_slice(&label_msg);
    let mut payload_msg: Vec<u8> = Vec::new();
    prost::encoding::int32::encode(1, &1i32, &mut payload_msg);
    prost::encoding::double::encode(2, &88.8f64, &mut payload_msg);
    encode_key(4, WireType::LengthDelimited, &mut expected);
    encode_varint(payload_msg.len() as u64, &mut expected);
    expected.extend_from_slice(&payload_msg);

    assert_eq!(bytes, expected);
}

#[test]
fn decode_rejects_empty_input() {
    assert_eq!(decode_operation(&Vec::new()), None);
}

#[test]
fn decode_rejects_truncated_input() {
    let op = Counter::from("metric").inc();
    let mut bytes = encode_operation(&op);
    bytes.pop();
    assert_eq!(decode_operation(&bytes), None);
}

#[test]
fn decode_rejects_trailing_bytes() {
    let op = Counter::from("metric").inc();
    let mut bytes = encode_operation(&op);
    bytes.push(0);
    assert_eq!(decode_operation(&bytes), None);
}

#[test]
fn decode_rejects_wrong_leading_key() {
    let op = Counter::from("metric").inc();
    let mut bytes = encode_operation(&op);
    bytes[0] = 0x12;
    assert_eq!(decode_operation(&bytes), None);
}

#[test]
fn decode_rejects_empty_name() {
    // name "" | counter payload: inc
    let bytes = vec![
        0x0a, 0x00, 0x1a, 0x0b, 0x08, 0x01, 0x11, 0x00, 0x00, 0x00, 0x00, 0x00, 0x00, 0xf0, 0x3f,
    ];
    assert_eq!(decode_operation(&bytes), None);
}

#[test]
fn decode_rejects_invalid_utf8_name() {
    // name 0xff | counter payload: inc
    let bytes = vec![
        0x0a, 0x01, 0xff, 0x1a, 0x0b, 0x08, 0x01, 0x11, 0x00, 0x00, 0x00, 0x00, 0x00, 0x00, 0xf0,
        0x3f,
    ];
    assert_eq!(decode_operation(&bytes), None);
}

#[test]
fn decode_rejects_duplicate_label_keys() {
    // name "m" | labels k->x, k->y | counter payload: inc
    let bytes = vec![
        0x0a, 0x01, 0x6d, // name "m"
        0x12, 0x06, 0x0a, 0x01, 0x6b, 0x12, 0x01, 0x78, // label k -> x
        0x12, 0x06, 0x0a, 0x01, 0x6b, 0x12, 0x01, 0x79, // label k -> y
        0x1a, 0x0b, 0x08, 0x01, 0x11, 0x00, 0x00, 0x00, 0x00, 0x00, 0x00, 0xf0, 0x3f,
    ];
    assert_eq!(decode_operation(&bytes), None);
}

#[test]
fn decode_accepts_distinct_label_keys() {
    // name "m" | labels j->x, k->y | counter payload: inc
    let bytes = vec![
        0x0a, 0x01, 0x6d, // name "m"
        0x12, 0x06, 0x0a, 0x01, 0x6a, 0x12, 0x01, 0x78, // label j -> x
        0x12, 0x06, 0x0a, 0x01, 0x6b, 0x12, 0x01, 0x79, // label k -> y
        0x1a, 0x0b, 0x08, 0x01, 0x11, 0x00, 0x00, 0x00, 0x00, 0x00, 0x00, 0xf0, 0x3f,
    ];
    let op = decode_operation(&bytes).expect("well-formed bytes decode");
    assert_eq!(op.name, "m");
    assert_eq!(
        *op.labels.pairs(),
        vec![
            ("j".to_string(), "x".to_string()),
            ("k".to_string(), "y".to_string()),
        ]
    );
}

#[test]
fn decode_rejects_unassigned_action_code() {
    // name "m" | counter payload with action code 9
    let bytes = vec![
        0x0a, 0x01, 0x6d, 0x1a, 0x0b, 0x08, 0x09, 0x11, 0x00, 0x00, 0x00, 0x00, 0x00, 0x00, 0xf0,
        0x3f,
    ];
    assert_eq!(decode_operation(&bytes), None);
}

#[test]
fn decode_rejects_zero_action_code() {
    // code zero stays reserved for "unset": a defaulted action never decodes
    let bytes = vec![
        0x0a, 0x01, 0x6d, 0x1a, 0x0b, 0x08, 0x00, 0x11, 0x00, 0x00, 0x00, 0x00, 0x00, 0x00, 0xf0,
        0x3f,
    ];
    assert_eq!(decode_operation(&bytes), None);
}

#[test]
fn decode_rejects_missing_payload() {
    // name "m" and nothing more
    let bytes = vec![0x0a, 0x01, 0x6d];
    assert_eq!(decode_operation(&bytes), None);
}

#[test]
fn action_codes_stay_kind_local() {
    // the same action code decodes against each kind's own table: code 3 is
    // reset for a counter but dec for a gauge
    let mut counter = Counter::from("m");
    let counter_bytes = encode_operation(&counter.reset());
    let mut gauge = Gauge::from("m");
    let gauge_bytes = encode_operation(&gauge.dec());
    assert_eq!(counter_bytes[5], 0x08);
    assert_eq!(gauge_bytes[5], 0x08);
    assert_eq!(counter_bytes[6], gauge_bytes[6]);
    assert_eq!(decode_operation(&counter_bytes), Some(Counter::from("m").reset()));
    assert_eq!(decode_operation(&gauge_bytes), Some(Gauge::from("m").dec()));
}
