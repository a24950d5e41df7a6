use vstd::prelude::*;

use crate::labels::LabelSet;
use crate::labels::unique_keys;
use crate::pb::GaugeAction;
use crate::pb::GaugeOp;
use crate::pb::OperationPayload;
use crate::pb::OperationView;
use crate::pb::PrometheusOperation;
use crate::value::NAN_BITS;
use crate::value::ONE_BITS;
use crate::value::Value;

verus! {

/// Fluent constructor of Gauge operations. The builder holds a metric name
/// and a label set, both immutable once chosen; each action method is a pure
/// factory that returns a freshly constructed operation and leaves the
/// builder unchanged.
#[derive(Debug, PartialEq, Eq)]
pub struct Gauge {
    pub name: String,
    pub labels: LabelSet,
}

impl Gauge {
    /// The builder names a metric and keeps its label keys unique.
    pub open spec fn well_formed(&self) -> bool {
        self.name@.len() > 0 && unique_keys(self.labels@)
    }

    /// A new Gauge builder for the metric `name`, with no labels.
    pub fn from(name: &str) -> (r: Self)
        requires
            name@.len() > 0,
        ensures
            r.name@ == name@,
            r.labels@ == Seq::<(Seq<char>, Seq<char>)>::empty(),
            r.well_formed(),
    {
        Gauge { name: name.to_owned(), labels: LabelSet::new() }
    }

    /// The builder with its label set replaced by `labels` — a full
    /// replacement, not a merge: a second `with` discards the first set.
    pub fn with(self, labels: LabelSet) -> (r: Self)
        ensures
            r.name@ == self.name@,
            r.labels@ == labels@,
            self.well_formed() && labels.well_formed() ==> r.well_formed(),
    {
        Gauge { name: self.name, labels }
    }

    /// An operation that sets the Gauge to `value`.
    pub fn set(&mut self, value: Value) -> (r: PrometheusOperation)
        ensures
            *final(self) == *old(self),
            r@ == (OperationView {
                name: old(self).name@,
                labels: old(self).labels@,
                payload: OperationPayload::Gauge(
                    GaugeOp { action: GaugeAction::SetValue, value },
                ),
            }),
            old(self).well_formed() ==> r.well_formed(),
    {
        PrometheusOperation {
            name: self.name.clone(),
            labels: self.labels.clone(),
            payload: OperationPayload::Gauge(GaugeOp { action: GaugeAction::SetValue, value }),
        }
    }

    /// An operation that increments the Gauge by 1.
    pub fn inc(&mut self) -> (r: PrometheusOperation)
        ensures
            *final(self) == *old(self),
            r@ == (OperationView {
                name: old(self).name@,
                labels: old(self).labels@,
                payload: OperationPayload::Gauge(
                    GaugeOp { action: GaugeAction::Inc, value: Value { bits: ONE_BITS } },
                ),
            }),
            old(self).well_formed() ==> r.well_formed(),
    {
        PrometheusOperation {
            name: self.name.clone(),
            labels: self.labels.clone(),
            payload: OperationPayload::Gauge(
                GaugeOp { action: GaugeAction::Inc, value: Value::one() },
            ),
        }
    }

    /// An operation that decrements the Gauge by 1.
    pub fn dec(&mut self) -> (r: PrometheusOperation)
        ensures
            *final(self) == *old(self),
            r@ == (OperationView {
                name: old(self).name@,
                labels: old(self).labels@,
                payload: OperationPayload::Gauge(
                    GaugeOp { action: GaugeAction::Dec, value: Value { bits: ONE_BITS } },
                ),
            }),
            old(self).well_formed() ==> r.well_formed(),
    {
        PrometheusOperation {
            name: self.name.clone(),
            labels: self.labels.clone(),
            payload: OperationPayload::Gauge(
                GaugeOp { action: GaugeAction::Dec, value: Value::one() },
            ),
        }
    }

    /// An operation that adds `value` to the Gauge; a negative value
    /// decreases it.
    pub fn add(&mut self, value: Value) -> (r: PrometheusOperation)
        ensures
            *final(self) == *old(self),
            r@ == (OperationView {
                name: old(self).name@,
                labels: old(self).labels@,
                payload: OperationPayload::Gauge(GaugeOp { action: GaugeAction::Add, value }),
            }),
            old(self).well_formed() ==> r.well_formed(),
    {
        PrometheusOperation {
            name: self.name.clone(),
            labels: self.labels.clone(),
            payload: OperationPayload::Gauge(GaugeOp { action: GaugeAction::Add, value }),
        }
    }

    /// An operation that subtracts `value` from the Gauge; a negative value
    /// increases it.
    pub fn sub(&mut self, value: Value) -> (r: PrometheusOperation)
        ensures
            *final(self) == *old(self),
            r@ == (OperationView {
                name: old(self).name@,
                labels: old(self).labels@,
                payload: OperationPayload::Gauge(GaugeOp { action: GaugeAction::Sub, value }),
            }),
            old(self).well_formed() ==> r.well_formed(),
    {
        PrometheusOperation {
            name: self.name.clone(),
            labels: self.labels.clone(),
            payload: OperationPayload::Gauge(GaugeOp { action: GaugeAction::Sub, value }),
        }
    }

    /// An operation that sets the Gauge to the current Unix time in seconds.
    /// The time is read by the consumer when the operation is applied, so the
    /// payload carries no number: its value field is the NaN sentinel.
    pub fn set_to_current_time(&mut self) -> (r: PrometheusOperation)
        ensures
            *final(self) == *old(self),
            r@ == (OperationView {
                name: old(self).name@,
                labels: old(self).labels@,
                payload: OperationPayload::Gauge(
                    GaugeOp {
                        action: GaugeAction::SetToCurrentTime,
                        value: Value { bits: NAN_BITS },
                    },
                ),
            }),
            old(self).well_formed() ==> r.well_formed(),
    {
        PrometheusOperation {
            name: self.name.clone(),
            labels: self.labels.clone(),
            payload: OperationPayload::Gauge(
                GaugeOp { action: GaugeAction::SetToCurrentTime, value: Value::nan() },
            ),
        }
    }

    /// An operation that removes the series selected by `labels`. The labels
    /// come from the argument, not from the builder, so a removal can target
    /// a series whose labels differ from the builder's own.
    pub fn remove(&mut self, labels: LabelSet) -> (r: PrometheusOperation)
        ensures
            *final(self) == *old(self),
            r@ == (OperationView {
                name: old(self).name@,
                labels: labels@,
                payload: OperationPayload::Gauge(
                    GaugeOp { action: GaugeAction::Remove, value: Value { bits: NAN_BITS } },
                ),
            }),
            old(self).name@.len() > 0 && labels.well_formed() ==> r.well_formed(),
    {
        PrometheusOperation {
            name: self.name.clone(),
            labels,
            payload: OperationPayload::Gauge(
                GaugeOp { action: GaugeAction::Remove, value: Value::nan() },
            ),
        }
    }

    /// An operation that resets the whole Gauge family. Reset applies to the
    /// metric as a whole, so its label set is always empty, whatever the
    /// builder holds.
    pub fn reset(&mut self) -> (r: PrometheusOperation)
        ensures
            *final(self) == *old(self),
            r@ == (OperationView {
                name: old(self).name@,
                labels: Seq::<(Seq<char>, Seq<char>)>::empty(),
                payload: OperationPayload::Gauge(
                    GaugeOp { action: GaugeAction::Reset, value: Value { bits: NAN_BITS } },
                ),
            }),
            old(self).name@.len() > 0 ==> r.well_formed(),
    {
        PrometheusOperation {
            name: self.name.clone(),
            labels: LabelSet::new(),
            payload: OperationPayload::Gauge(
                GaugeOp { action: GaugeAction::Reset, value: Value::nan() },
            ),
        }
    }
}

} // verus!
