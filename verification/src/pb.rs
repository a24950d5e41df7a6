use vstd::prelude::*;

use crate::labels::LabelSet;
use crate::labels::unique_keys;
use crate::value::Value;

verus! {

/// The legal actions of a Counter metric.
#[derive(Clone, Copy, Debug, PartialEq, Eq, Structural)]
pub enum CounterAction {
    Inc,
    Add,
    Reset,
    Remove,
}

/// The legal actions of a Gauge metric.
#[derive(Clone, Copy, Debug, PartialEq, Eq, Structural)]
pub enum GaugeAction {
    SetValue,
    Inc,
    Dec,
    Add,
    Sub,
    SetToCurrentTime,
    Reset,
    Remove,
}

/// The legal actions of a Histogram metric.
#[derive(Clone, Copy, Debug, PartialEq, Eq, Structural)]
pub enum HistogramAction {
    Observe,
    StartTimer,
    Zero,
    Reset,
    Remove,
}

/// The legal actions of a Summary metric.
#[derive(Clone, Copy, Debug, PartialEq, Eq, Structural)]
pub enum SummaryAction {
    Observe,
    StartTimer,
    Reset,
    Remove,
}

/// A Counter mutation: an action and its numeric argument. The argument is
/// meaningful only for `Add`; the parameterless actions carry the NaN
/// sentinel.
#[derive(Clone, Copy, Debug, PartialEq, Eq, Structural)]
pub struct CounterOp {
    pub action: CounterAction,
    pub value: Value,
}

/// A Gauge mutation: an action and its numeric argument. The argument is
/// meaningful only for `Set`, `Add` and `Sub`; the parameterless actions
/// carry the NaN sentinel.
#[derive(Clone, Copy, Debug, PartialEq, Eq, Structural)]
pub struct GaugeOp {
    pub action: GaugeAction,
    pub value: Value,
}

/// A Histogram mutation: an action and its numeric argument. The argument is
/// meaningful only for `Observe`; the parameterless actions carry the NaN
/// sentinel.
#[derive(Clone, Copy, Debug, PartialEq, Eq, Structural)]
pub struct HistogramOp {
    pub action: HistogramAction,
    pub value: Value,
}

/// A Summary mutation: an action and its numeric argument. The argument is
/// meaningful only for `Observe`; the parameterless actions carry the NaN
/// sentinel.
#[derive(Clone, Copy, Debug, PartialEq, Eq, Structural)]
pub struct SummaryOp {
    pub action: SummaryAction,
    pub value: Value,
}

/// The payload of one operation: exactly one metric kind's mutation. Keeping
/// the action vocabularies kind-local removes any cross-kind action-code
/// collision: a decoder never interprets one kind's action table against
/// another kind.
#[derive(Clone, Copy, Debug, PartialEq, Eq, Structural)]
pub enum OperationPayload {
    Counter(CounterOp),
    Gauge(GaugeOp),
    Histogram(HistogramOp),
    Summary(SummaryOp),
}

/// The mathematical content of a [`PrometheusOperation`]: the name as a
/// character sequence, the labels as a sequence of key/value pairs, and the
/// payload (already plain data).
#[verifier::ext_equal]
pub struct OperationView {
    pub name: Seq<char>,
    pub labels: Seq<(Seq<char>, Seq<char>)>,
    pub payload: OperationPayload,
}

impl OperationView {
    /// A well-formed operation names a metric and keeps its label keys
    /// unique.
    pub open spec fn well_formed(&self) -> bool {
        self.name.len() > 0 && unique_keys(self.labels)
    }
}

/// One unit of intended mutation: a metric name, the label set identifying a
/// series within that metric family, and exactly one kind-specific payload.
#[derive(Debug, PartialEq, Eq)]
pub struct PrometheusOperation {
    pub name: String,
    pub labels: LabelSet,
    pub payload: OperationPayload,
}

impl View for PrometheusOperation {
    type V = OperationView;

    open spec fn view(&self) -> OperationView {
        OperationView { name: self.name@, labels: self.labels@, payload: self.payload }
    }
}

impl DeepView for PrometheusOperation {
    type V = OperationView;

    open spec fn deep_view(&self) -> OperationView {
        self.view()
    }
}

impl PrometheusOperation {
    /// A well-formed operation names a metric and keeps its label keys
    /// unique.
    pub open spec fn well_formed(&self) -> bool {
        self@.well_formed()
    }
}

/// An ordered, appendable sequence of operations: the unit transmitted to the
/// consumer. Insertion order is preserved and is the order of application;
/// nothing is deduplicated, so two operations against the same series are
/// both kept and both applied, in order.
#[derive(Debug, PartialEq, Eq)]
pub struct PrometheusOperations {
    pub operations: Vec<PrometheusOperation>,
}

impl View for PrometheusOperations {
    type V = Seq<OperationView>;

    open spec fn view(&self) -> Seq<OperationView> {
        self.operations.deep_view()
    }
}

impl Default for PrometheusOperations {
    /// The empty batch.
    fn default() -> (r: Self)
        ensures
            r@ == Seq::<OperationView>::empty(),
    {
        let r = PrometheusOperations { operations: Vec::new() };
        proof {
            assert(r@ =~= Seq::<OperationView>::empty());
        }
        r
    }
}

} // verus!
