//! Builders for Prometheus metric mutation operations.
//!
//! An upstream producer describes intended mutations to Prometheus-style
//! metrics (counters, gauges, histograms, summaries) without holding a live
//! connection to a metrics registry. Each mutation is captured as an
//! immutable [`PrometheusOperation`] record; operations accumulate, in order,
//! into a [`PrometheusOperations`] batch that a downstream sink later replays
//! against a real metrics backend.
//!
//! Each metric kind has a fluent builder ([`Counter`], [`Gauge`],
//! [`Histogram`], [`Summary`]) restricted to that kind's legal action
//! vocabulary, so that illegal kind/action combinations cannot be
//! represented. The batch travels as a length-delimited binary message; the
//! codec functions encode it and decode it exactly.

mod codec;
mod counter;
mod gauge;
mod helpers;
mod histogram;
mod labels;
mod pb;
mod summary;
mod value;
pub mod wire;

pub use codec::decode_operation;
pub use codec::decode_operations;
pub use codec::encode_operation;
pub use codec::encode_operations;
pub use counter::Counter;
pub use gauge::Gauge;
pub use helpers::lemma_extend_is_repeated_push;
pub use helpers::push_all;
pub use histogram::Histogram;
pub use labels::LabelSet;
pub use labels::keys_unique;
pub use labels::lemma_collapse_of_unique;
pub use labels::spec_collapse;
pub use labels::spec_find_key;
pub use labels::spec_upsert;
pub use labels::unique_keys;
pub use pb::CounterAction;
pub use pb::CounterOp;
pub use pb::GaugeAction;
pub use pb::GaugeOp;
pub use pb::HistogramAction;
pub use pb::HistogramOp;
pub use pb::OperationPayload;
pub use pb::OperationView;
pub use pb::PrometheusOperation;
pub use pb::PrometheusOperations;
pub use pb::SummaryAction;
pub use pb::SummaryOp;
pub use summary::Summary;
pub use value::NAN_BITS;
pub use value::ONE_BITS;
pub use value::Value;
pub use value::lemma_nan_sentinel_distinct;
pub use value::spec_is_nan;
