use substreams_sink_prometheus::Counter;
use substreams_sink_prometheus::CounterAction;
use substreams_sink_prometheus::CounterOp;
use substreams_sink_prometheus::Gauge;
use substreams_sink_prometheus::GaugeAction;
use substreams_sink_prometheus::Histogram;
use substreams_sink_prometheus::HistogramAction;
use substreams_sink_prometheus::LabelSet;
use substreams_sink_prometheus::OperationPayload;
use substreams_sink_prometheus::PrometheusOperation;
use substreams_sink_prometheus::PrometheusOperations;
use substreams_sink_prometheus::Summary;
use substreams_sink_prometheus::SummaryAction;
use substreams_sink_prometheus::Value;

fn label1() -> LabelSet {
    LabelSet::from_pairs(vec![("label1".to_string(), "value1".to_string())])
}

fn value_of(x: f64) -> Value {
    Value::from_bits(x.to_bits())
}

#[test]
fn test_counter() {
    let mut prom_ops: PrometheusOperations = Default::default();
    let labels = label1();
    let mut counter = Counter::from("a").with(labels.clone());

    prom_ops.push(counter.inc());
    prom_ops.push(counter.add(value_of(123.456)));
    prom_ops.push(counter.reset());
    prom_ops.push(counter.remove(labels));
    assert_eq!(prom_ops.operations.len(), 4);
}

#[test]
fn gauge_test_gauge() {
    let mut prom_ops: PrometheusOperations = Default::default();
    let labels = label1();
    let mut gauge = Gauge::from("gauge_name").with(labels.clone());

    prom_ops.push(gauge.set(value_of(88.8)));
    prom_ops.push(gauge.inc());
    prom_ops.push(gauge.dec());
    prom_ops.push(gauge.add(value_of(123.456)));
    prom_ops.push(gauge.sub(value_of(123.456)));
    prom_ops.push(gauge.set_to_current_time());
    prom_ops.push(gauge.reset());
    prom_ops.push(gauge.remove(labels));

    assert_eq!(prom_ops.operations.len(), 8);
}

#[test]
fn test_push() {
    let mut prom_ops: PrometheusOperations = Default::default();
    let mut counter = Counter::from("custom_counter");
    prom_ops.push(counter.inc());
    prom_ops.push(counter.inc());

    assert_eq!(prom_ops.operations.len(), 2);
}

#[test]
fn test_extend() {
    let mut prom_ops: PrometheusOperations = Default::default();
    let mut counter = Counter::from("custom_counter");
    prom_ops.extend(vec![counter.inc(), counter.inc()]);

    assert_eq!(prom_ops.operations.len(), 2);
}

#[test]
fn histogram_test_gauge() {
    let mut prom_ops: PrometheusOperations = Default::default();
    let labels = label1();
    let mut histogram = Histogram::from("historam_name").with(labels.clone());

    prom_ops.push(histogram.observe(value_of(88.8)));
    prom_ops.push(histogram.start_timer());
    prom_ops.push(histogram.zero());
    prom_ops.push(histogram.reset());
    prom_ops.push(histogram.remove(labels));

    assert_eq!(prom_ops.operations.len(), 5);
}

#[test]
fn test_labels_counter_1() {
    let mut prom_ops: PrometheusOperations = Default::default();
    let mut labels = LabelSet::new();
    labels.insert("label1".to_string(), "value1".to_string());
    let mut counter = Counter::from("custom_counter").with(labels);
    prom_ops.push(counter.inc());
}

#[test]
fn test_labels_counter_2() {
    let mut prom_ops: PrometheusOperations = Default::default();
    let mut labels = LabelSet::new();
    labels.insert("label1".to_string(), "value1".to_string());
    let counter = Counter::from("custom_counter");
    prom_ops.push(counter.with(labels).inc());
}

#[test]
fn test_labels_counter_3() {
    let mut prom_ops: PrometheusOperations = Default::default();
    let labels = label1();
    let counter = Counter::from("custom_counter");
    prom_ops.push(counter.with(labels).inc());
}

#[test]
fn summary_test_gauge() {
    let mut prom_ops: PrometheusOperations = Default::default();
    let labels = label1();
    let mut summary = Summary::from("summary_name").with(labels.clone());

    prom_ops.push(summary.observe(value_of(88.8)));
    prom_ops.push(summary.start_timer());
    prom_ops.push(summary.reset());
    prom_ops.push(summary.remove(labels));

    assert_eq!(prom_ops.operations.len(), 4);
}

#[test]
fn counter_inc_scenario() {
    let labels = LabelSet::from_pairs(vec![("route".to_string(), "/health".to_string())]);
    let op = Counter::from("requests_total").with(labels).inc();
    assert_eq!(op.name, "requests_total");
    assert_eq!(
        *op.labels.pairs(),
        vec![("route".to_string(), "/health".to_string())]
    );
    assert_eq!(
        op.payload,
        OperationPayload::Counter(CounterOp {
            action: CounterAction::Inc,
            value: Value::from_bits(1.0f64.to_bits()),
        })
    );
}

#[test]
fn gauge_add_negative_scenario() {
    let op = Gauge::from("queue_depth").add(value_of(-5.0));
    match op.payload {
        OperationPayload::Gauge(g) => {
            assert_eq!(g.action, GaugeAction::Add);
            assert_eq!(f64::from_bits(g.value.to_bits()), -5.0);
        }
        _ => panic!("expected a gauge payload"),
    }
}

#[test]
fn batch_order_scenario() {
    let mut batch: PrometheusOperations = Default::default();
    batch.push(Counter::from("a").inc());
    batch.push(Counter::from("b").add(value_of(123.456)));
    assert_eq!(batch.operations.len(), 2);
    assert_eq!(batch.operations[0].name, "a");
    assert_eq!(batch.operations[1].name, "b");
}

#[test]
fn push_matches_extend() {
    let mut counter = Counter::from("m");
    let o1 = counter.inc();
    let o2 = counter.add(value_of(2.5));
    let o3 = counter.reset();

    let mut pushed: PrometheusOperations = Default::default();
    pushed.push(o1);
    pushed.push(o2);
    pushed.push(o3);

    let mut counter2 = Counter::from("m");
    let p1 = counter2.inc();
    let p2 = counter2.add(value_of(2.5));
    let p3 = counter2.reset();
    let mut extended: PrometheusOperations = Default::default();
    extended.extend(vec![p1, p2, p3]);

    assert_eq!(pushed, extended);
}

fn assert_nan_payload(op: &PrometheusOperation) {
    let value = match &op.payload {
        OperationPayload::Counter(p) => p.value,
        OperationPayload::Gauge(p) => p.value,
        OperationPayload::Histogram(p) => p.value,
        OperationPayload::Summary(p) => p.value,
    };
    assert!(value.is_nan());
    assert!(f64::from_bits(value.to_bits()).is_nan());
    assert_ne!(value.to_bits(), 0u64);
    assert_ne!(value.to_bits(), 0.0f64.to_bits());
}

#[test]
fn counter_sentinels_are_nan() {
    let mut counter = Counter::from("c");
    assert_nan_payload(&counter.reset());
    assert_nan_payload(&counter.remove(label1()));
}

#[test]
fn gauge_sentinels_are_nan() {
    let mut gauge = Gauge::from("g");
    assert_nan_payload(&gauge.set_to_current_time());
    assert_nan_payload(&gauge.reset());
    assert_nan_payload(&gauge.remove(label1()));
}

#[test]
fn histogram_sentinels_are_nan() {
    let mut histogram = Histogram::from("h");
    assert_nan_payload(&histogram.start_timer());
    assert_nan_payload(&histogram.zero());
    assert_nan_payload(&histogram.reset());
    assert_nan_payload(&histogram.remove(label1()));
}

#[test]
fn summary_sentinels_are_nan() {
    let mut summary = Summary::from("s");
    assert_nan_payload(&summary.start_timer());
    assert_nan_payload(&summary.reset());
    assert_nan_payload(&summary.remove(label1()));
}

#[test]
fn with_replaces_labels() {
    let first = LabelSet::from_pairs(vec![("a".to_string(), "1".to_string())]);
    let second = LabelSet::from_pairs(vec![("b".to_string(), "2".to_string())]);
    let op = Gauge::from("g").with(first).with(second).inc();
    assert_eq!(*op.labels.pairs(), vec![("b".to_string(), "2".to_string())]);
}

#[test]
fn remove_takes_argument_labels() {
    let builder_labels = LabelSet::from_pairs(vec![("a".to_string(), "1".to_string())]);
    let target = LabelSet::from_pairs(vec![("b".to_string(), "2".to_string())]);
    let mut counter = Counter::from("c").with(builder_labels);
    let op = counter.remove(target);
    assert_eq!(*op.labels.pairs(), vec![("b".to_string(), "2".to_string())]);
}

#[test]
fn zero_uses_builder_labels() {
    let builder_labels = LabelSet::from_pairs(vec![("aa".to_string(), "1".to_string())]);
    let mut histogram = Histogram::from("h").with(builder_labels);
    let op = histogram.zero();
    assert_eq!(*op.labels.pairs(), vec![("aa".to_string(), "1".to_string())]);
    match op.payload {
        OperationPayload::Histogram(p) => {
            assert_eq!(p.action, HistogramAction::Zero);
            assert!(p.value.is_nan());
        }
        _ => panic!("expected a histogram payload"),
    }
}

#[test]
fn reset_has_empty_labels() {
    let labels = LabelSet::from_pairs(vec![("a".to_string(), "1".to_string())]);
    let mut summary = Summary::from("s").with(labels);
    let op = summary.reset();
    assert_eq!(op.labels.len(), 0);
}

#[test]
fn from_pairs_last_write_wins() {
    let labels = LabelSet::from_pairs(vec![
        ("k".to_string(), "first".to_string()),
        ("other".to_string(), "kept".to_string()),
        ("k".to_string(), "second".to_string()),
    ]);
    assert_eq!(labels.len(), 2);
    assert_eq!(
        *labels.pairs(),
        vec![
            ("k".to_string(), "second".to_string()),
            ("other".to_string(), "kept".to_string()),
        ]
    );
}

#[test]
fn insert_replaces_existing_key() {
    let mut labels = LabelSet::new();
    labels.insert("k".to_string(), "first".to_string());
    labels.insert("k".to_string(), "second".to_string());
    assert_eq!(labels.len(), 1);
    assert_eq!(*labels.pairs(), vec![("k".to_string(), "second".to_string())]);
}

#[test]
fn gauge_inc_dec_carry_one() {
    let mut gauge = Gauge::from("g");
    match gauge.inc().payload {
        OperationPayload::Gauge(p) => {
            assert_eq!(p.action, GaugeAction::Inc);
            assert_eq!(f64::from_bits(p.value.to_bits()), 1.0);
        }
        _ => panic!("expected a gauge payload"),
    }
    match gauge.dec().payload {
        OperationPayload::Gauge(p) => {
            assert_eq!(p.action, GaugeAction::Dec);
            assert_eq!(f64::from_bits(p.value.to_bits()), 1.0);
        }
        _ => panic!("expected a gauge payload"),
    }
}

#[test]
fn observe_carries_value() {
    let mut histogram = Histogram::from("h");
    match histogram.observe(value_of(88.8)).payload {
        OperationPayload::Histogram(p) => {
            assert_eq!(p.action, HistogramAction::Observe);
            assert_eq!(f64::from_bits(p.value.to_bits()), 88.8);
        }
        _ => panic!("expected a histogram payload"),
    }
    let mut summary = Summary::from("s");
    match summary.observe(value_of(0.0)).payload {
        OperationPayload::Summary(p) => {
            assert_eq!(p.action, SummaryAction::Observe);
            assert_eq!(p.value.to_bits(), 0.0f64.to_bits());
            assert!(!p.value.is_nan());
        }
        _ => panic!("expected a summary payload"),
    }
}
