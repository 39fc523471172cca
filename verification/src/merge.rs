//! The merge engine: how two operand histories combine under an operator.
//!
//! Applying an operator never nests more than it has to. A running total
//! that absorbs one more source stays flat, two anonymous partial totals of
//! the same operator are joined, and everything else is kept as two distinct
//! operands. The numeric result is always the operator applied to the left
//! value and the right value, in that order.

use vstd::prelude::*;
use std::ops::{Add, Div, Mul, Sub};
use vstd::std_specs::ops::{AddSpec, DivSpec, MulSpec, SubSpec};
use crate::arena::{OpArena, TraceError};
use crate::node::{text_of, OpKind, Operation, OperationType, OperationView};

verus! {

/// One of the four built-in operators.
#[derive(Clone, Copy, Debug, PartialEq, Eq, Structural)]
pub enum Arithmetic {
    Sum,
    Difference,
    Product,
    Quotient,
}

impl Arithmetic {
    /// The kind of the node that the operator produces.
    pub open spec fn spec_kind(self) -> OpKind {
        match self {
            Arithmetic::Sum => OpKind::Sum,
            Arithmetic::Difference => OpKind::Difference,
            Arithmetic::Product => OpKind::Product,
            Arithmetic::Quotient => OpKind::Quotient,
        }
    }

    /// The kind of the node that the operator produces.
    pub fn kind(self) -> (k: OpKind)
        ensures
            k == self.spec_kind(),
            k.is_arithmetic(),
    {
        match self {
            Arithmetic::Sum => OpKind::Sum,
            Arithmetic::Difference => OpKind::Difference,
            Arithmetic::Product => OpKind::Product,
            Arithmetic::Quotient => OpKind::Quotient,
        }
    }
}

/// The rows of the decision table, in the order in which they are tried.
#[derive(Clone, Copy, Debug, PartialEq, Eq, Structural)]
pub enum MergeCase {
    /// One operand is a source and the other was produced by the operator
    /// being applied: the source is appended to the other's history.
    Absorb,
    /// Both operands are sources.
    Pair,
    /// Both operands were produced by the operator being applied and at
    /// least one of them has no reason: their histories are joined.
    Flatten,
    /// Anything else: the two operands are kept as they are.
    Nest,
}

/// The first row of the table that matches.
pub open spec fn merge_case(
    op: Arithmetic,
    lhs_kind: OpKind,
    lhs_has_reason: bool,
    rhs_kind: OpKind,
    rhs_has_reason: bool,
) -> MergeCase {
    let k = op.spec_kind();
    if (lhs_kind == OpKind::Source && rhs_kind == k) || (lhs_kind == k && rhs_kind
        == OpKind::Source) {
        MergeCase::Absorb
    } else if lhs_kind == OpKind::Source && rhs_kind == OpKind::Source {
        MergeCase::Pair
    } else if lhs_kind == k && rhs_kind == k && !(lhs_has_reason && rhs_has_reason) {
        MergeCase::Flatten
    } else {
        MergeCase::Nest
    }
}

/// The row that applies to two nodes.
pub open spec fn case_of<Num>(
    op: Arithmetic,
    lhs: OperationView<Num>,
    rhs: OperationView<Num>,
) -> MergeCase {
    merge_case(op, lhs.kind, lhs.reason is Some, rhs.kind, rhs.reason is Some)
}

/// The history of `lhs op rhs`, where `l` and `r` are the operands' indices.
pub open spec fn merged_history<Num>(
    op: Arithmetic,
    lhs: OperationView<Num>,
    rhs: OperationView<Num>,
    l: usize,
    r: usize,
) -> Seq<usize> {
    match case_of(op, lhs, rhs) {
        MergeCase::Absorb => if lhs.kind == OpKind::Source {
            rhs.history.push(l)
        } else {
            lhs.history.push(r)
        },
        MergeCase::Pair => seq![l, r],
        MergeCase::Flatten => lhs.history + rhs.history,
        MergeCase::Nest => seq![l, r],
    }
}

/// The reason that `lhs op rhs` inherits when the caller gives none.
pub open spec fn merged_reason<Num>(
    op: Arithmetic,
    lhs: OperationView<Num>,
    rhs: OperationView<Num>,
) -> Option<Seq<char>> {
    match case_of(op, lhs, rhs) {
        MergeCase::Absorb => if lhs.kind == OpKind::Source {
            rhs.reason
        } else {
            lhs.reason
        },
        MergeCase::Pair => None,
        MergeCase::Flatten => if lhs.reason is Some {
            lhs.reason
        } else {
            rhs.reason
        },
        MergeCase::Nest => None,
    }
}

/// The node that stands for `lhs op rhs` with the given value. A `note`
/// from the caller replaces the inherited reason.
pub open spec fn merged<Num>(
    op: Arithmetic,
    lhs: OperationView<Num>,
    rhs: OperationView<Num>,
    l: usize,
    r: usize,
    value: Num,
    note: Option<Seq<char>>,
) -> OperationView<Num> {
    OperationView {
        kind: op.spec_kind(),
        value,
        history: merged_history(op, lhs, rhs, l, r),
        reason: if note is Some {
            note
        } else {
            merged_reason(op, lhs, rhs)
        },
        symbol: op.spec_kind().symbol(),
    }
}

/// What applying `op` to the nodes `l` and `r` does to an arena: where both
/// are nodes of it, exactly one node is appended, the merged one, and its
/// index is returned; otherwise nothing changes and the call is refused.
pub open spec fn merge_outcome<Num>(
    op: Arithmetic,
    before: Seq<OperationView<Num>>,
    after: Seq<OperationView<Num>>,
    l: usize,
    r: usize,
    note: Option<Seq<char>>,
    result: Result<usize, TraceError>,
) -> bool {
    if l < before.len() && r < before.len() {
        &&& result == Ok::<usize, TraceError>(before.len() as usize)
        &&& after.len() == before.len() + 1
        &&& after == before.push(
            merged(op, before[l as int], before[r as int], l, r, after.last().value, note),
        )
    } else {
        &&& result == Err::<usize, TraceError>(TraceError::UnknownNode)
        &&& after == before
    }
}

/// `out` is what `+` gives for `lhs` on the left and `rhs` on the right.
pub open spec fn is_sum<Num: Add<Output = Num>>(lhs: Num, rhs: Num, out: Num) -> bool {
    &&& call_ensures(<Num as Add>::add, (lhs, rhs), out)
    &&& Num::obeys_add_spec() ==> out == lhs.add_spec(rhs)
}

/// `out` is what `-` gives for `lhs` on the left and `rhs` on the right.
pub open spec fn is_difference<Num: Sub<Output = Num>>(lhs: Num, rhs: Num, out: Num) -> bool {
    &&& call_ensures(<Num as Sub>::sub, (lhs, rhs), out)
    &&& Num::obeys_sub_spec() ==> out == lhs.sub_spec(rhs)
}

/// `out` is what `*` gives for `lhs` on the left and `rhs` on the right.
pub open spec fn is_product<Num: Mul<Output = Num>>(lhs: Num, rhs: Num, out: Num) -> bool {
    &&& call_ensures(<Num as Mul>::mul, (lhs, rhs), out)
    &&& Num::obeys_mul_spec() ==> out == lhs.mul_spec(rhs)
}

/// `out` is what `/` gives for `lhs` on the left and `rhs` on the right.
pub open spec fn is_quotient<Num: Div<Output = Num>>(lhs: Num, rhs: Num, out: Num) -> bool {
    &&& call_ensures(<Num as Div>::div, (lhs, rhs), out)
    &&& Num::obeys_div_spec() ==> out == lhs.div_spec(rhs)
}

/// The row of the decision table that applies to operands of these kinds.
pub fn decide(
    op: Arithmetic,
    lhs_kind: OpKind,
    lhs_has_reason: bool,
    rhs_kind: OpKind,
    rhs_has_reason: bool,
) -> (case: MergeCase)
    ensures
        case == merge_case(op, lhs_kind, lhs_has_reason, rhs_kind, rhs_has_reason),
{
    let k = op.kind();
    if (lhs_kind == OpKind::Source && rhs_kind == k) || (lhs_kind == k && rhs_kind
        == OpKind::Source) {
        MergeCase::Absorb
    } else if lhs_kind == OpKind::Source && rhs_kind == OpKind::Source {
        MergeCase::Pair
    } else if lhs_kind == k && rhs_kind == k && !(lhs_has_reason && rhs_has_reason) {
        MergeCase::Flatten
    } else {
        MergeCase::Nest
    }
}

fn joined(front: &Vec<usize>, back: &Vec<usize>) -> (all: Vec<usize>)
    ensures
        all@ == front@ + back@,
{
    let mut all: Vec<usize> = Vec::new();
    let mut i: usize = 0;
    while i < front.len()
        invariant
            i <= front.len(),
            all@ == front@.take(i as int),
        decreases front.len() - i,
    {
        all.push(front[i]);
        i += 1;
        assert(all@ =~= front@.take(i as int));
    }
    assert(front@.take(front.len() as int) =~= front@);
    let mut j: usize = 0;
    while j < back.len()
        invariant
            j <= back.len(),
            all@ == front@ + back@.take(j as int),
        decreases back.len() - j,
    {
        all.push(back[j]);
        j += 1;
        assert(all@ =~= front@ + back@.take(j as int));
    }
    assert(back@.take(back.len() as int) =~= back@);
    all
}

fn extended(front: &Vec<usize>, last: usize) -> (all: Vec<usize>)
    ensures
        all@ == front@.push(last),
{
    let mut all = joined(front, &Vec::new());
    assert(all@ =~= front@);
    all.push(last);
    all
}

fn pair(l: usize, r: usize) -> (both: Vec<usize>)
    ensures
        both@ == seq![l, r],
{
    let mut both: Vec<usize> = Vec::new();
    both.push(l);
    both.push(r);
    assert(both@ =~= seq![l, r]);
    both
}

fn same_text(reason: &Option<String>) -> (copy: Option<String>)
    ensures
        copy is Some <==> reason is Some,
        copy is Some ==> copy.unwrap()@ == reason.unwrap()@,
{
    match reason {
        Some(text) => Some(text.clone()),
        None => None,
    }
}

fn history_of<Num>(node: &Operation<Num>) -> (h: Vec<usize>)
    ensures
        h@ == node@.history,
{
    match node.op.history() {
        Some(h) => joined(h, &Vec::new()),
        None => Vec::new(),
    }
}

impl<Num> OpArena<Num> {
    /// Appends the node for `lhs op rhs`, whose value the caller computed.
    fn fold(&mut self, op: Arithmetic, lhs: usize, rhs: usize, value: Num, note: Option<String>) -> (index: usize)
        requires
            old(self).wf(),
            lhs < old(self)@.len(),
            rhs < old(self)@.len(),
        ensures
            final(self).wf(),
            index == old(self)@.len(),
            final(self)@ == old(self)@.push(
                merged(
                    op,
                    old(self)@[lhs as int],
                    old(self)@[rhs as int],
                    lhs,
                    rhs,
                    value,
                    text_of(note),
                ),
            ),
    {
        let ghost before = self@;
        let ghost note_view = text_of(note);
        let a = self.get(lhs).unwrap();
        let b = self.get(rhs).unwrap();
        let a_kind = a.op.kind();
        let b_kind = b.op.kind();
        let case = decide(op, a_kind, a.reason.is_some(), b_kind, b.reason.is_some());
        let (history, inherited) = match case {
            MergeCase::Absorb => {
                if a_kind == OpKind::Source {
                    (extended(&history_of(b), lhs), same_text(&b.reason))
                } else {
                    (extended(&history_of(a), rhs), same_text(&a.reason))
                }
            },
            MergeCase::Pair => (pair(lhs, rhs), None),
            MergeCase::Flatten => {
                let reason = if a.reason.is_some() {
                    same_text(&a.reason)
                } else {
                    same_text(&b.reason)
                };
                (joined(&history_of(a), &history_of(b)), reason)
            },
            MergeCase::Nest => (pair(lhs, rhs), None),
        };
        let reason = match note {
            Some(n) => Some(n),
            None => inherited,
        };
        let operation = match op {
            Arithmetic::Sum => OperationType::make_sum(value, history),
            Arithmetic::Difference => OperationType::make_difference(value, history),
            Arithmetic::Product => OperationType::make_product(value, history),
            Arithmetic::Quotient => OperationType::make_quotient(value, history),
        };
        let node = Operation { op: operation, reason };
        proof {
            let want = merged(
                op,
                before[lhs as int],
                before[rhs as int],
                lhs,
                rhs,
                value,
                note_view,
            );
            assert(node@.history == want.history);
            assert(node@.reason == want.reason);
            assert(node@ == want);
            assert forall|k: int| 0 <= k < node@.history.len() implies #[trigger] node@.history[k]
                < before.len() by {
                if k < before[lhs as int].history.len() {
                    assert(before[lhs as int].history[k] < lhs);
                }
                if k < before[rhs as int].history.len() {
                    assert(before[rhs as int].history[k] < rhs);
                }
                if 0 <= k - before[lhs as int].history.len() < before[rhs as int].history.len() {
                    assert(before[rhs as int].history[k - before[lhs as int].history.len()] < rhs);
                }
            }
        }
        self.append(node)
    }

    fn sum_noted(&mut self, lhs: usize, rhs: usize, note: Option<String>) -> (result: Result<
        usize,
        TraceError,
    >) where Num: Copy + Add<Output = Num>
        requires
            old(self).wf(),
            lhs < old(self)@.len() && rhs < old(self)@.len() ==> old(self)@[lhs as int].value.add_req(
                old(self)@[rhs as int].value,
            ),
        ensures
            final(self).wf(),
            merge_outcome(
                Arithmetic::Sum,
                old(self)@,
                final(self)@,
                lhs,
                rhs,
                text_of(note),
                result,
            ),
            result is Ok ==> is_sum(
                old(self)@[lhs as int].value,
                old(self)@[rhs as int].value,
                final(self)@.last().value,
            ),
    {
        if lhs >= self.len() || rhs >= self.len() {
            return Err(TraceError::UnknownNode);
        }
        let left: Num = *self.get(lhs).unwrap().value();
        let right: Num = *self.get(rhs).unwrap().value();
        let value: Num = left + right;
        Ok(self.fold(Arithmetic::Sum, lhs, rhs, value, note))
    }

    /// Appends the node for `lhs + rhs` and returns its index. The value is
    /// the sum of the two operands' values, left operand first, whatever
    /// shape the history takes. A handle that names no node is refused and
    /// leaves the arena as it was.
    pub fn sum(&mut self, lhs: usize, rhs: usize) -> (result: Result<usize, TraceError>) where
        Num: Copy + Add<Output = Num>,

        requires
            old(self).wf(),
            lhs < old(self)@.len() && rhs < old(self)@.len() ==> old(self)@[lhs as int].value.add_req(
                old(self)@[rhs as int].value,
            ),
        ensures
            final(self).wf(),
            merge_outcome(Arithmetic::Sum, old(self)@, final(self)@, lhs, rhs, None, result),
            result is Ok ==> is_sum(
                old(self)@[lhs as int].value,
                old(self)@[rhs as int].value,
                final(self)@.last().value,
            ),
    {
        self.sum_noted(lhs, rhs, None)
    }

    /// As [`OpArena::sum`], and the new node carries `reason` in place of
    /// whatever reason it would have inherited.
    pub fn sum_with_reason(&mut self, lhs: usize, rhs: usize, reason: &str) -> (result: Result<
        usize,
        TraceError,
    >) where Num: Copy + Add<Output = Num>
        requires
            old(self).wf(),
            lhs < old(self)@.len() && rhs < old(self)@.len() ==> old(self)@[lhs as int].value.add_req(
                old(self)@[rhs as int].value,
            ),
        ensures
            final(self).wf(),
            merge_outcome(
                Arithmetic::Sum,
                old(self)@,
                final(self)@,
                lhs,
                rhs,
                Some(reason@),
                result,
            ),
            result is Ok ==> is_sum(
                old(self)@[lhs as int].value,
                old(self)@[rhs as int].value,
                final(self)@.last().value,
            ),
    {
        self.sum_noted(lhs, rhs, Some(reason.to_owned()))
    }

    fn difference_noted(&mut self, lhs: usize, rhs: usize, note: Option<String>) -> (result: Result<
        usize,
        TraceError,
    >) where Num: Copy + Sub<Output = Num>
        requires
            old(self).wf(),
            lhs < old(self)@.len() && rhs < old(self)@.len() ==> old(self)@[lhs as int].value.sub_req(
                old(self)@[rhs as int].value,
            ),
        ensures
            final(self).wf(),
            merge_outcome(
                Arithmetic::Difference,
                old(self)@,
                final(self)@,
                lhs,
                rhs,
                text_of(note),
                result,
            ),
            result is Ok ==> is_difference(
                old(self)@[lhs as int].value,
                old(self)@[rhs as int].value,
                final(self)@.last().value,
            ),
    {
        if lhs >= self.len() || rhs >= self.len() {
            return Err(TraceError::UnknownNode);
        }
        let left: Num = *self.get(lhs).unwrap().value();
        let right: Num = *self.get(rhs).unwrap().value();
        let value: Num = left - right;
        Ok(self.fold(Arithmetic::Difference, lhs, rhs, value, note))
    }

    /// Appends the node for `lhs - rhs` and returns its index. The value is
    /// the difference of the two operands' values, left operand first, whatever
    /// shape the history takes. A handle that names no node is refused and
    /// leaves the arena as it was.
    pub fn difference(&mut self, lhs: usize, rhs: usize) -> (result: Result<usize, TraceError>) where
        Num: Copy + Sub<Output = Num>,

        requires
            old(self).wf(),
            lhs < old(self)@.len() && rhs < old(self)@.len() ==> old(self)@[lhs as int].value.sub_req(
                old(self)@[rhs as int].value,
            ),
        ensures
            final(self).wf(),
            merge_outcome(Arithmetic::Difference, old(self)@, final(self)@, lhs, rhs, None, result),
            result is Ok ==> is_difference(
                old(self)@[lhs as int].value,
                old(self)@[rhs as int].value,
                final(self)@.last().value,
            ),
    {
        self.difference_noted(lhs, rhs, None)
    }

    /// As [`OpArena::difference`], and the new node carries `reason` in place of
    /// whatever reason it would have inherited.
    pub fn difference_with_reason(&mut self, lhs: usize, rhs: usize, reason: &str) -> (result: Result<
        usize,
        TraceError,
    >) where Num: Copy + Sub<Output = Num>
        requires
            old(self).wf(),
            lhs < old(self)@.len() && rhs < old(self)@.len() ==> old(self)@[lhs as int].value.sub_req(
                old(self)@[rhs as int].value,
            ),
        ensures
            final(self).wf(),
            merge_outcome(
                Arithmetic::Difference,
                old(self)@,
                final(self)@,
                lhs,
                rhs,
                Some(reason@),
                result,
            ),
            result is Ok ==> is_difference(
                old(self)@[lhs as int].value,
                old(self)@[rhs as int].value,
                final(self)@.last().value,
            ),
    {
        self.difference_noted(lhs, rhs, Some(reason.to_owned()))
    }

    fn product_noted(&mut self, lhs: usize, rhs: usize, note: Option<String>) -> (result: Result<
        usize,
        TraceError,
    >) where Num: Copy + Mul<Output = Num>
        requires
            old(self).wf(),
            lhs < old(self)@.len() && rhs < old(self)@.len() ==> old(self)@[lhs as int].value.mul_req(
                old(self)@[rhs as int].value,
            ),
        ensures
            final(self).wf(),
            merge_outcome(
                Arithmetic::Product,
                old(self)@,
                final(self)@,
                lhs,
                rhs,
                text_of(note),
                result,
            ),
            result is Ok ==> is_product(
                old(self)@[lhs as int].value,
                old(self)@[rhs as int].value,
                final(self)@.last().value,
            ),
    {
        if lhs >= self.len() || rhs >= self.len() {
            return Err(TraceError::UnknownNode);
        }
        let left: Num = *self.get(lhs).unwrap().value();
        let right: Num = *self.get(rhs).unwrap().value();
        let value: Num = left * right;
        Ok(self.fold(Arithmetic::Product, lhs, rhs, value, note))
    }

    /// Appends the node for `lhs * rhs` and returns its index. The value is
    /// the product of the two operands' values, left operand first, whatever
    /// shape the history takes. A handle that names no node is refused and
    /// leaves the arena as it was.
    pub fn product(&mut self, lhs: usize, rhs: usize) -> (result: Result<usize, TraceError>) where
        Num: Copy + Mul<Output = Num>,

        requires
            old(self).wf(),
            lhs < old(self)@.len() && rhs < old(self)@.len() ==> old(self)@[lhs as int].value.mul_req(
                old(self)@[rhs as int].value,
            ),
        ensures
            final(self).wf(),
            merge_outcome(Arithmetic::Product, old(self)@, final(self)@, lhs, rhs, None, result),
            result is Ok ==> is_product(
                old(self)@[lhs as int].value,
                old(self)@[rhs as int].value,
                final(self)@.last().value,
            ),
    {
        self.product_noted(lhs, rhs, None)
    }

    /// As [`OpArena::product`], and the new node carries `reason` in place of
    /// whatever reason it would have inherited.
    pub fn product_with_reason(&mut self, lhs: usize, rhs: usize, reason: &str) -> (result: Result<
        usize,
        TraceError,
    >) where Num: Copy + Mul<Output = Num>
        requires
            old(self).wf(),
            lhs < old(self)@.len() && rhs < old(self)@.len() ==> old(self)@[lhs as int].value.mul_req(
                old(self)@[rhs as int].value,
            ),
        ensures
            final(self).wf(),
            merge_outcome(
                Arithmetic::Product,
                old(self)@,
                final(self)@,
                lhs,
                rhs,
                Some(reason@),
                result,
            ),
            result is Ok ==> is_product(
                old(self)@[lhs as int].value,
                old(self)@[rhs as int].value,
                final(self)@.last().value,
            ),
    {
        self.product_noted(lhs, rhs, Some(reason.to_owned()))
    }

    fn quotient_noted(&mut self, lhs: usize, rhs: usize, note: Option<String>) -> (result: Result<
        usize,
        TraceError,
    >) where Num: Copy + Div<Output = Num>
        requires
            old(self).wf(),
            lhs < old(self)@.len() && rhs < old(self)@.len() ==> old(self)@[lhs as int].value.div_req(
                old(self)@[rhs as int].value,
            ),
        ensures
            final(self).wf(),
            merge_outcome(
                Arithmetic::Quotient,
                old(self)@,
                final(self)@,
                lhs,
                rhs,
                text_of(note),
                result,
            ),
            result is Ok ==> is_quotient(
                old(self)@[lhs as int].value,
                old(self)@[rhs as int].value,
                final(self)@.last().value,
            ),
    {
        if lhs >= self.len() || rhs >= self.len() {
            return Err(TraceError::UnknownNode);
        }
        let left: Num = *self.get(lhs).unwrap().value();
        let right: Num = *self.get(rhs).unwrap().value();
        let value: Num = left / right;
        Ok(self.fold(Arithmetic::Quotient, lhs, rhs, value, note))
    }

    /// Appends the node for `lhs / rhs` and returns its index. The value is
    /// the quotient of the two operands' values, left operand first, whatever
    /// shape the history takes. A handle that names no node is refused and
    /// leaves the arena as it was.
    pub fn quotient(&mut self, lhs: usize, rhs: usize) -> (result: Result<usize, TraceError>) where
        Num: Copy + Div<Output = Num>,

        requires
            old(self).wf(),
            lhs < old(self)@.len() && rhs < old(self)@.len() ==> old(self)@[lhs as int].value.div_req(
                old(self)@[rhs as int].value,
            ),
        ensures
            final(self).wf(),
            merge_outcome(Arithmetic::Quotient, old(self)@, final(self)@, lhs, rhs, None, result),
            result is Ok ==> is_quotient(
                old(self)@[lhs as int].value,
                old(self)@[rhs as int].value,
                final(self)@.last().value,
            ),
    {
        self.quotient_noted(lhs, rhs, None)
    }

    /// As [`OpArena::quotient`], and the new node carries `reason` in place of
    /// whatever reason it would have inherited.
    pub fn quotient_with_reason(&mut self, lhs: usize, rhs: usize, reason: &str) -> (result: Result<
        usize,
        TraceError,
    >) where Num: Copy + Div<Output = Num>
        requires
            old(self).wf(),
            lhs < old(self)@.len() && rhs < old(self)@.len() ==> old(self)@[lhs as int].value.div_req(
                old(self)@[rhs as int].value,
            ),
        ensures
            final(self).wf(),
            merge_outcome(
                Arithmetic::Quotient,
                old(self)@,
                final(self)@,
                lhs,
                rhs,
                Some(reason@),
                result,
            ),
            result is Ok ==> is_quotient(
                old(self)@[lhs as int].value,
                old(self)@[rhs as int].value,
                final(self)@.last().value,
            ),
    {
        self.quotient_noted(lhs, rhs, Some(reason.to_owned()))
    }
}

} // verus!
