use vstd::prelude::*;

use crate::pb::OperationView;
use crate::pb::PrometheusOperation;
use crate::pb::PrometheusOperations;

verus! {

impl PrometheusOperations {
    /// Append one operation at the end of the batch. Nothing is checked and
    /// nothing is dropped: the batch keeps every operation in insertion
    /// order.
    pub fn push(&mut self, operation: PrometheusOperation)
        ensures
            final(self)@ == old(self)@.push(operation@),
    {
        self.operations.push(operation);
        proof {
            assert(self@ =~= old(self)@.push(operation@));
        }
    }

    /// Append a sequence of operations in order; equivalent to pushing each
    /// in turn.
    pub fn extend(&mut self, operations: Vec<PrometheusOperation>)
        ensures
            final(self)@ == old(self)@ + operations.deep_view(),
    {
        let ghost incoming = operations.deep_view();
        let mut rest = operations;
        self.operations.append(&mut rest);
        proof {
            assert(self@ =~= old(self)@ + incoming);
        }
    }
}

/// `s` with each element of `ops` pushed at its end, in order.
pub open spec fn push_all(s: Seq<OperationView>, ops: Seq<OperationView>) -> Seq<OperationView>
    decreases ops.len(),
{
    if ops.len() == 0 {
        s
    } else {
        push_all(s.push(ops[0]), ops.drop_first())
    }
}

/// Appending a sequence of operations is the same as pushing them one at a
/// time, in order: a batch built by repeated `push` equals the batch built by
/// one `extend` of the same operations.
pub proof fn lemma_extend_is_repeated_push(s: Seq<OperationView>, ops: Seq<OperationView>)
    ensures
        push_all(s, ops) == s + ops,
    decreases ops.len(),
{
    if ops.len() == 0 {
        assert(push_all(s, ops) =~= s + ops);
    } else {
        lemma_extend_is_repeated_push(s.push(ops[0]), ops.drop_first());
        assert(s.push(ops[0]) + ops.drop_first() =~= s + ops);
    }
}

} // verus!
