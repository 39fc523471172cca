//! The arena: the append-only owner of every node of one computation.

use vstd::prelude::*;
use crate::node::{OpKind, Operation, OperationType, OperationView};

verus! {

/// Why the arena refused a request.
#[derive(Clone, Copy, Debug, PartialEq, Eq, Structural)]
pub enum TraceError {
    /// An operand or a root names no node of this arena.
    UnknownNode,
}

impl TraceError {
    /// What went wrong, in words.
    pub fn message(&self) -> (text: &'static str)
        ensures
            *self == TraceError::UnknownNode ==> text@ == "the handle names no node of this arena"@,
    {
        match self {
            TraceError::UnknownNode => "the handle names no node of this arena",
        }
    }
}

/// Owns the nodes of one computation. Nodes are only ever appended, so an
/// index handed out once names the same node for as long as the arena lives.
pub struct OpArena<Num> {
    nodes: Vec<Operation<Num>>,
}

/// The view of a source node.
pub open spec fn source_view<Num>(value: Num, reason: Option<Seq<char>>) -> OperationView<Num> {
    OperationView {
        kind: OpKind::Source,
        value,
        history: Seq::empty(),
        reason,
        symbol: OpKind::Source.symbol(),
    }
}

/// Every operand of every node was there before the node itself, so the
/// history edges can form no cycle.
pub open spec fn acyclic<Num>(nodes: Seq<OperationView<Num>>) -> bool {
    forall|i: int, k: int|
        0 <= i < nodes.len() && 0 <= k < nodes[i].history.len() ==> (
        #[trigger] nodes[i].history[k]) < i
}

impl<Num> View for OpArena<Num> {
    type V = Seq<OperationView<Num>>;

    closed spec fn view(&self) -> Seq<OperationView<Num>> {
        Seq::new(self.nodes@.len(), |i: int| self.nodes@[i]@)
    }
}

impl<Num> OpArena<Num> {
    /// The arena's invariant.
    pub open spec fn wf(&self) -> bool {
        acyclic(self@)
    }

    /// An arena without nodes.
    pub fn new() -> (arena: Self)
        ensures
            arena@ == Seq::<OperationView<Num>>::empty(),
            arena.wf(),
    {
        let arena = OpArena { nodes: Vec::new() };
        assert(arena@ =~= Seq::<OperationView<Num>>::empty());
        arena
    }

    /// How many nodes the arena owns.
    pub fn len(&self) -> (n: usize)
        ensures
            n == self@.len(),
    {
        self.nodes.len()
    }

    /// The node at `index`, where there is one.
    pub fn get(&self, index: usize) -> (node: Option<&Operation<Num>>)
        ensures
            node is Some <==> index < self@.len(),
            node is Some ==> node.unwrap()@ == self@[index as int],
    {
        if index < self.nodes.len() {
            Some(&self.nodes[index])
        } else {
            None
        }
    }

    /// Appends a node whose operands are all in the arena already.
    pub(crate) fn append(&mut self, node: Operation<Num>) -> (index: usize)
        requires
            old(self).wf(),
            forall|k: int| 0 <= k < node@.history.len() ==> #[trigger] node@.history[k] < old(self)@.len(),
        ensures
            final(self).wf(),
            index == old(self)@.len(),
            final(self)@ == old(self)@.push(node@),
    {
        let index = self.nodes.len();
        self.nodes.push(node);
        assert(self@ =~= old(self)@.push(node@));
        index
    }
}

impl<Num> Operation<Num> {
    /// Creates a source without a reason and returns its index.
    pub fn new(i: Num, arena: &mut OpArena<Num>) -> (index: usize)
        requires
            old(arena).wf(),
        ensures
            final(arena).wf(),
            index == old(arena)@.len(),
            final(arena)@ == old(arena)@.push(source_view(i, None)),
    {
        arena.append(Operation { op: OperationType::Source { value: i }, reason: None })
    }

    /// Creates a source that carries `reason` and returns its index.
    pub fn new_with_reason(i: Num, reason: &str, arena: &mut OpArena<Num>) -> (index: usize)
        requires
            old(arena).wf(),
        ensures
            final(arena).wf(),
            index == old(arena)@.len(),
            final(arena)@ == old(arena)@.push(source_view(i, Some(reason@))),
    {
        arena.append(
            Operation { op: OperationType::Source { value: i }, reason: Some(reason.to_owned()) },
        )
    }
}

} // verus!
