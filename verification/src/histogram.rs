use vstd::prelude::*;

use crate::labels::LabelSet;
use crate::labels::unique_keys;
use crate::pb::HistogramAction;
use crate::pb::HistogramOp;
use crate::pb::OperationPayload;
use crate::pb::OperationView;
use crate::pb::PrometheusOperation;
use crate::value::NAN_BITS;
use crate::value::Value;

verus! {

/// Fluent constructor of Histogram operations. The builder holds a metric
/// name and a label set, both immutable once chosen; each action method is a
/// pure factory that returns a freshly constructed operation and leaves the
/// builder unchanged.
#[derive(Debug, PartialEq, Eq)]
pub struct Histogram {
    pub name: String,
    pub labels: LabelSet,
}

impl Histogram {
    /// The builder names a metric and keeps its label keys unique.
    pub open spec fn well_formed(&self) -> bool {
        self.name@.len() > 0 && unique_keys(self.labels@)
    }

    /// A new Histogram builder for the metric `name`, with no labels.
    pub fn from(name: &str) -> (r: Self)
        requires
            name@.len() > 0,
        ensures
            r.name@ == name@,
            r.labels@ == Seq::<(Seq<char>, Seq<char>)>::empty(),
            r.well_formed(),
    {
        Histogram { name: name.to_owned(), labels: LabelSet::new() }
    }

    /// The builder with its label set replaced by `labels` — a full
    /// replacement, not a merge: a second `with` discards the first set.
    pub fn with(self, labels: LabelSet) -> (r: Self)
        ensures
            r.name@ == self.name@,
            r.labels@ == labels@,
            self.well_formed() && labels.well_formed() ==> r.well_formed(),
    {
        Histogram { name: self.name, labels }
    }

    /// An operation that adds one observation of `value` to the Histogram.
    /// Observations are usually positive or zero; a negative observation is
    /// representable and left to the consumer to police.
    pub fn observe(&mut self, value: Value) -> (r: PrometheusOperation)
        ensures
            *final(self) == *old(self),
            r@ == (OperationView {
                name: old(self).name@,
                labels: old(self).labels@,
                payload: OperationPayload::Histogram(
                    HistogramOp { action: HistogramAction::Observe, value },
                ),
            }),
            old(self).well_formed() ==> r.well_formed(),
    {
        PrometheusOperation {
            name: self.name.clone(),
            labels: self.labels.clone(),
            payload: OperationPayload::Histogram(
                HistogramOp { action: HistogramAction::Observe, value },
            ),
        }
    }

    /// An operation that starts a timer whose eventual duration, in seconds,
    /// is observed in the Histogram. The duration is measured by the
    /// consumer, so the payload carries no number: its value field is the NaN
    /// sentinel.
    pub fn start_timer(&mut self) -> (r: PrometheusOperation)
        ensures
            *final(self) == *old(self),
            r@ == (OperationView {
                name: old(self).name@,
                labels: old(self).labels@,
                payload: OperationPayload::Histogram(
                    HistogramOp {
                        action: HistogramAction::StartTimer,
                        value: Value { bits: NAN_BITS },
                    },
                ),
            }),
            old(self).well_formed() ==> r.well_formed(),
    {
        PrometheusOperation {
            name: self.name.clone(),
            labels: self.labels.clone(),
            payload: OperationPayload::Histogram(
                HistogramOp { action: HistogramAction::StartTimer, value: Value::nan() },
            ),
        }
    }

    /// An operation that initializes the series selected by the builder's own
    /// labels to zero. It takes no argument: `remove` is the only action
    /// whose labels come from the call rather than the builder.
    pub fn zero(&mut self) -> (r: PrometheusOperation)
        ensures
            *final(self) == *old(self),
            r@ == (OperationView {
                name: old(self).name@,
                labels: old(self).labels@,
                payload: OperationPayload::Histogram(
                    HistogramOp { action: HistogramAction::Zero, value: Value { bits: NAN_BITS } },
                ),
            }),
            old(self).well_formed() ==> r.well_formed(),
    {
        PrometheusOperation {
            name: self.name.clone(),
            labels: self.labels.clone(),
            payload: OperationPayload::Histogram(
                HistogramOp { action: HistogramAction::Zero, value: Value::nan() },
            ),
        }
    }

    /// An operation that removes the series selected by `labels`. The labels
    /// come from the argument, not from the builder, so a removal can target
    /// a series whose labels differ from the builder's own.
    pub fn remove(&mut self, labels: LabelSet) -> (r: PrometheusOperation)
        ensures
            *final(self) == *old(self),
            r@ == (OperationView {
                name: old(self).name@,
                labels: labels@,
                payload: OperationPayload::Histogram(
                    HistogramOp {
                        action: HistogramAction::Remove,
                        value: Value { bits: NAN_BITS },
                    },
                ),
            }),
            old(self).name@.len() > 0 && labels.well_formed() ==> r.well_formed(),
    {
        PrometheusOperation {
            name: self.name.clone(),
            labels,
            payload: OperationPayload::Histogram(
                HistogramOp { action: HistogramAction::Remove, value: Value::nan() },
            ),
        }
    }

    /// An operation that resets the whole Histogram family. Reset applies to
    /// the metric as a whole, so its label set is always empty, whatever the
    /// builder holds.
    pub fn reset(&mut self) -> (r: PrometheusOperation)
        ensures
            *final(self) == *old(self),
            r@ == (OperationView {
                name: old(self).name@,
                labels: Seq::<(Seq<char>, Seq<char>)>::empty(),
                payload: OperationPayload::Histogram(
                    HistogramOp { action: HistogramAction::Reset, value: Value { bits: NAN_BITS } },
                ),
            }),
            old(self).name@.len() > 0 ==> r.well_formed(),
    {
        PrometheusOperation {
            name: self.name.clone(),
            labels: LabelSet::new(),
            payload: OperationPayload::Histogram(
                HistogramOp { action: HistogramAction::Reset, value: Value::nan() },
            ),
        }
    }
}

} // verus!
