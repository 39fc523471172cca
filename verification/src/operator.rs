//! Operators beyond the built-in four.
//!
//! A custom operator computes a value from the values of any number of
//! operands. Its node records exactly the operands it was given, in the
//! order given: the histories of custom nodes are never folded.

use vstd::prelude::*;
use crate::arena::{OpArena, TraceError};
use crate::node::{OpKind, Operation, OperationType, OperationView};

verus! {

/// A function that callers add to the built-in operators, such as a square
/// root.
pub trait Operator<Num> {
    /// How this operator is displayed.
    fn symbol(&self) -> &'static str;

    /// The operator's value on the given operand values.
    fn operate(&self, operands: &Vec<Num>) -> Num;
}

/// The values of the nodes that `operands` names, in order.
pub open spec fn values_at<Num>(arena: Seq<OperationView<Num>>, operands: Seq<usize>) -> Seq<Num> {
    Seq::new(operands.len(), |i: int| arena[operands[i] as int].value)
}

/// Every operand names a node of the arena.
pub open spec fn all_known<Num>(arena: Seq<OperationView<Num>>, operands: Seq<usize>) -> bool {
    forall|i: int| 0 <= i < operands.len() ==> #[trigger] operands[i] < arena.len()
}

/// The node of a custom operator.
pub open spec fn custom_view<Num>(
    value: Num,
    symbol: Seq<char>,
    operands: Seq<usize>,
) -> OperationView<Num> {
    OperationView { kind: OpKind::Custom, value, history: operands, reason: None, symbol }
}

/// `operator` shows itself as `symbol` and gave `out` for `values`.
pub open spec fn applied<Num, O: Operator<Num>>(
    operator: &O,
    values: Vec<Num>,
    symbol: &'static str,
    out: Num,
) -> bool {
    &&& call_ensures(O::operate, (operator, &values), out)
    &&& call_ensures(O::symbol, (operator,), symbol)
}

fn copied(operands: &Vec<usize>) -> (copy: Vec<usize>)
    ensures
        copy@ == operands@,
{
    let mut copy: Vec<usize> = Vec::new();
    let mut i: usize = 0;
    while i < operands.len()
        invariant
            i <= operands@.len(),
            copy@ == operands@.take(i as int),
        decreases operands@.len() - i,
    {
        copy.push(operands[i]);
        i += 1;
        assert(copy@ =~= operands@.take(i as int));
    }
    assert(operands@.take(operands@.len() as int) =~= operands@);
    copy
}

impl<Num> OpArena<Num> {
    /// Whether every operand names a node of this arena.
    pub fn knows_all(&self, operands: &Vec<usize>) -> (known: bool)
        ensures
            known == all_known(self@, operands@),
    {
        let mut i: usize = 0;
        while i < operands.len()
            invariant
                i <= operands@.len(),
                forall|q: int| 0 <= q < i ==> #[trigger] operands@[q] < self@.len(),
            decreases operands@.len() - i,
        {
            if operands[i] >= self.len() {
                return false;
            }
            i += 1;
        }
        true
    }

    /// Appends the node of a custom operator shown as `symbol`, with the
    /// given value and with exactly `operands` as its history, and returns
    /// its index. Refused, with the arena unchanged, where an operand names
    /// no node.
    pub fn custom(&mut self, symbol: &str, value: Num, operands: &Vec<usize>) -> (result: Result<
        usize,
        TraceError,
    >)
        requires
            old(self).wf(),
        ensures
            final(self).wf(),
            all_known(old(self)@, operands@) ==> result == Ok::<usize, TraceError>(
                old(self)@.len() as usize,
            ) && final(self)@ == old(self)@.push(custom_view(value, symbol@, operands@)),
            !all_known(old(self)@, operands@) ==> result == Err::<usize, TraceError>(
                TraceError::UnknownNode,
            ) && final(self)@ == old(self)@,
    {
        if !self.knows_all(operands) {
            return Err(TraceError::UnknownNode);
        }
        let node = Operation {
            op: OperationType::Other {
                value,
                symbol: symbol.to_owned(),
                history: copied(operands),
            },
            reason: None,
        };
        assert(node@ == custom_view(value, symbol@, operands@));
        Ok(self.append(node))
    }

    /// Applies `operator` to the values of `operands` and appends the node
    /// of the result: its value is what the operator returned for those
    /// values, its symbol the operator's, its history `operands` as given.
    /// Refused, with the arena unchanged and the operator not called, where
    /// an operand names no node.
    pub fn apply<O: Operator<Num>>(&mut self, operator: &O, operands: &Vec<usize>) -> (result:
        Result<usize, TraceError>) where Num: Copy
        requires
            old(self).wf(),
        ensures
            final(self).wf(),
            all_known(old(self)@, operands@) ==> result == Ok::<usize, TraceError>(
                old(self)@.len() as usize,
            ) && exists|values: Vec<Num>, symbol: &'static str|
                values@ == values_at(old(self)@, operands@) && #[trigger] applied(
                    operator,
                    values,
                    symbol,
                    final(self)@.last().value,
                ) && final(self)@ == old(self)@.push(
                    custom_view(final(self)@.last().value, symbol@, operands@),
                ),
            !all_known(old(self)@, operands@) ==> result == Err::<usize, TraceError>(
                TraceError::UnknownNode,
            ) && final(self)@ == old(self)@,
    {
        if !self.knows_all(operands) {
            return Err(TraceError::UnknownNode);
        }
        let mut values: Vec<Num> = Vec::new();
        let mut i: usize = 0;
        while i < operands.len()
            invariant
                i <= operands@.len(),
                all_known(self@, operands@),
                values@ == values_at(self@, operands@.take(i as int)),
            decreases operands@.len() - i,
        {
            let value: Num = *self.get(operands[i]).unwrap().value();
            values.push(value);
            i += 1;
            assert(values@ =~= values_at(self@, operands@.take(i as int)));
        }
        assert(operands@.take(operands@.len() as int) =~= operands@);
        let out = operator.operate(&values);
        let symbol = operator.symbol();
        let result = self.custom(symbol, out, operands);
        assert(applied(operator, values, symbol, self@.last().value));
        result
    }
}

} // verus!
