//! The raw derivation of a node as a nested document: every node written
//! out in full wherever it is used, nothing shared and nothing flattened.
//! Where the graph is for drawing, the document is for reading and diffing.

use vstd::prelude::*;
use crate::arena::{OpArena, TraceError};
use crate::node::{text_of, OpKind, OperationView};

verus! {

/// A node and, nested in it, the nodes it was computed from.
#[derive(Debug)]
pub struct Document<Num> {
    pub kind: OpKind,
    /// The token of the node's operator.
    pub symbol: String,
    pub value: Num,
    pub reason: Option<String>,
    /// The operands, in the order of the node's history. A source has none,
    /// which is not the same as an empty list.
    pub history: Option<Vec<Document<Num>>>,
}

/// `doc` is the node `n` of `arena` written out in full: it holds what the
/// node holds, and its operands are the node's operands written out in
/// full, one for each entry of the history and in the same order.
pub open spec fn mirrors<Num>(arena: Seq<OperationView<Num>>, n: usize, doc: Document<Num>) -> bool
    decreases doc,
{
    &&& n < arena.len()
    &&& doc.kind == arena[n as int].kind
    &&& doc.symbol@ == arena[n as int].symbol
    &&& doc.value == arena[n as int].value
    &&& text_of(doc.reason) == arena[n as int].reason
    &&& match doc.history {
        None => arena[n as int].kind == OpKind::Source,
        Some(operands) => {
            &&& arena[n as int].kind != OpKind::Source
            &&& operands@.len() == arena[n as int].history.len()
            &&& forall|k: int|
                0 <= k < operands@.len() ==> mirrors(
                    arena,
                    arena[n as int].history[k],
                    #[trigger] operands@[k],
                )
        },
    }
}

impl<Num: Copy> OpArena<Num> {
    fn dump_node(&self, n: usize) -> (doc: Document<Num>)
        requires
            self.wf(),
            n < self@.len(),
        ensures
            mirrors(self@, n, doc),
        decreases n,
    {
        let node = self.get(n).unwrap();
        let history = match node.op.history() {
            None => None,
            Some(h) => {
                let mut operands: Vec<Document<Num>> = Vec::new();
                let mut k: usize = 0;
                while k < h.len()
                    invariant
                        self.wf(),
                        n < self@.len(),
                        h@ == self@[n as int].history,
                        k <= h@.len(),
                        operands@.len() == k,
                        forall|q: int|
                            0 <= q < k ==> mirrors(self@, h@[q], #[trigger] operands@[q]),
                    decreases h@.len() - k,
                {
                    assert(self@[n as int].history[k as int] < n);
                    let operand = self.dump_node(h[k]);
                    operands.push(operand);
                    k += 1;
                }
                Some(operands)
            },
        };
        let reason = match node.reason() {
            Some(text) => Some(text.to_owned()),
            None => None,
        };
        Document {
            kind: node.op.kind(),
            symbol: node.op.variant_symbol().to_owned(),
            value: *node.value(),
            reason,
            history,
        }
    }

    /// The node `root` written out in full, with everything it was computed
    /// from nested inside it. A root that names no node is refused.
    pub fn dump(&self, root: usize) -> (result: Result<Document<Num>, TraceError>)
        requires
            self.wf(),
        ensures
            root >= self@.len() <==> result is Err,
            result is Err ==> result == Err::<Document<Num>, TraceError>(TraceError::UnknownNode),
            result is Ok ==> mirrors(self@, root, result.unwrap()),
    {
        if root >= self.len() {
            return Err(TraceError::UnknownNode);
        }
        Ok(self.dump_node(root))
    }
}

} // verus!
