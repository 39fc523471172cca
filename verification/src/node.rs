//! The node model: a value together with the record of how it was derived.

use vstd::prelude::*;

verus! {

/// What produced a node.
#[derive(Clone, Copy, Debug, PartialEq, Eq, Structural)]
pub enum OpKind {
    Source,
    Sum,
    Difference,
    Product,
    Quotient,
    Custom,
}

impl OpKind {
    /// The four built-in operators, the only kinds whose histories are folded.
    pub open spec fn is_arithmetic(self) -> bool {
        self == OpKind::Sum || self == OpKind::Difference || self == OpKind::Product
            || self == OpKind::Quotient
    }

    /// The display token of a built-in kind. A custom node carries its own.
    pub open spec fn symbol(self) -> Seq<char> {
        match self {
            OpKind::Source => seq![' '],
            OpKind::Sum => seq![' ', '(', '+', ')', ' '],
            OpKind::Difference => seq![' ', '(', '-', ')', ' '],
            OpKind::Product => seq![' ', '(', '*', ')', ' '],
            OpKind::Quotient => seq![' ', '(', '/', ')', ' '],
            OpKind::Custom => Seq::empty(),
        }
    }
}

/// A value and the operands it was computed from. Operands are named by
/// their index in the arena that owns the node.
#[derive(Debug, Clone)]
pub enum OperationType<Num> {
    Source { value: Num },
    Sum { value: Num, history: Vec<usize> },
    Difference { value: Num, history: Vec<usize> },
    Product { value: Num, history: Vec<usize> },
    Quotient { value: Num, history: Vec<usize> },
    Other { value: Num, symbol: String, history: Vec<usize> },
}

/// A node: its operation and, optionally, the reason it exists.
#[derive(Debug, Clone)]
pub struct Operation<Num> {
    pub op: OperationType<Num>,
    pub reason: Option<String>,
}

/// The mathematical content of a node.
pub ghost struct OperationView<Num> {
    pub kind: OpKind,
    pub value: Num,
    /// Arena indices of the operands, in the order they were folded in.
    /// Empty for a source.
    pub history: Seq<usize>,
    pub reason: Option<Seq<char>>,
    /// The token shown for the node's operator when it is rendered.
    pub symbol: Seq<char>,
}

/// The characters of an optional text.
pub open spec fn text_of(text: Option<String>) -> Option<Seq<char>> {
    match text {
        Some(t) => Some(t@),
        None => None,
    }
}

impl<Num> OperationType<Num> {
    pub open spec fn spec_kind(&self) -> OpKind {
        match self {
            OperationType::Source { .. } => OpKind::Source,
            OperationType::Sum { .. } => OpKind::Sum,
            OperationType::Difference { .. } => OpKind::Difference,
            OperationType::Product { .. } => OpKind::Product,
            OperationType::Quotient { .. } => OpKind::Quotient,
            OperationType::Other { .. } => OpKind::Custom,
        }
    }

    pub open spec fn spec_value(&self) -> Num {
        match self {
            OperationType::Source { value } => *value,
            OperationType::Sum { value, .. } => *value,
            OperationType::Difference { value, .. } => *value,
            OperationType::Product { value, .. } => *value,
            OperationType::Quotient { value, .. } => *value,
            OperationType::Other { value, .. } => *value,
        }
    }

    pub open spec fn spec_history(&self) -> Seq<usize> {
        match self {
            OperationType::Source { .. } => Seq::empty(),
            OperationType::Sum { history, .. } => history@,
            OperationType::Difference { history, .. } => history@,
            OperationType::Product { history, .. } => history@,
            OperationType::Quotient { history, .. } => history@,
            OperationType::Other { history, .. } => history@,
        }
    }

    pub open spec fn spec_symbol(&self) -> Seq<char> {
        match self {
            OperationType::Other { symbol, .. } => symbol@,
            _ => self.spec_kind().symbol(),
        }
    }

    /// Which operator produced this node.
    pub fn kind(&self) -> (k: OpKind)
        ensures
            k == self.spec_kind(),
    {
        match self {
            OperationType::Source { .. } => OpKind::Source,
            OperationType::Sum { .. } => OpKind::Sum,
            OperationType::Difference { .. } => OpKind::Difference,
            OperationType::Product { .. } => OpKind::Product,
            OperationType::Quotient { .. } => OpKind::Quotient,
            OperationType::Other { .. } => OpKind::Custom,
        }
    }

    /// The token that stands for the operator in a rendered label.
    pub fn variant_symbol(&self) -> (s: &str)
        ensures
            s@ == self.spec_symbol(),
    {
        proof {
            reveal_strlit(" ");
            reveal_strlit(" (+) ");
            reveal_strlit(" (-) ");
            reveal_strlit(" (*) ");
            reveal_strlit(" (/) ");
        }
        match self {
            OperationType::Source { .. } => {
                assert(" "@ =~= OpKind::Source.symbol());
                " "
            },
            OperationType::Sum { .. } => {
                assert(" (+) "@ =~= OpKind::Sum.symbol());
                " (+) "
            },
            OperationType::Difference { .. } => {
                assert(" (-) "@ =~= OpKind::Difference.symbol());
                " (-) "
            },
            OperationType::Product { .. } => {
                assert(" (*) "@ =~= OpKind::Product.symbol());
                " (*) "
            },
            OperationType::Quotient { .. } => {
                assert(" (/) "@ =~= OpKind::Quotient.symbol());
                " (/) "
            },
            OperationType::Other { symbol, .. } => symbol.as_str(),
        }
    }

    /// The operands this node was computed from, in the order they were
    /// folded in. A source has no history, and asking for it yields `None`:
    /// an operation always yields `Some`, even where the list is empty.
    pub fn history(&self) -> (h: Option<&Vec<usize>>)
        ensures
            h is None <==> self.spec_kind() == OpKind::Source,
            h is Some ==> h.unwrap()@ == self.spec_history(),
    {
        match self {
            OperationType::Source { .. } => None,
            OperationType::Sum { history, .. } => Some(history),
            OperationType::Difference { history, .. } => Some(history),
            OperationType::Product { history, .. } => Some(history),
            OperationType::Quotient { history, .. } => Some(history),
            OperationType::Other { history, .. } => Some(history),
        }
    }

    /// The stored result.
    pub fn value(&self) -> (v: &Num)
        ensures
            *v == self.spec_value(),
    {
        match self {
            OperationType::Source { value } => value,
            OperationType::Sum { value, .. } => value,
            OperationType::Difference { value, .. } => value,
            OperationType::Product { value, .. } => value,
            OperationType::Quotient { value, .. } => value,
            OperationType::Other { value, .. } => value,
        }
    }

    pub fn make_sum(value: Num, history: Vec<usize>) -> (op: OperationType<Num>)
        ensures
            op == (OperationType::Sum { value, history }),
    {
        OperationType::Sum { value, history }
    }

    pub fn make_difference(value: Num, history: Vec<usize>) -> (op: OperationType<Num>)
        ensures
            op == (OperationType::Difference { value, history }),
    {
        OperationType::Difference { value, history }
    }

    pub fn make_product(value: Num, history: Vec<usize>) -> (op: OperationType<Num>)
        ensures
            op == (OperationType::Product { value, history }),
    {
        OperationType::Product { value, history }
    }

    pub fn make_quotient(value: Num, history: Vec<usize>) -> (op: OperationType<Num>)
        ensures
            op == (OperationType::Quotient { value, history }),
    {
        OperationType::Quotient { value, history }
    }
}

impl<Num> View for Operation<Num> {
    type V = OperationView<Num>;

    open spec fn view(&self) -> OperationView<Num> {
        OperationView {
            kind: self.op.spec_kind(),
            value: self.op.spec_value(),
            history: self.op.spec_history(),
            reason: text_of(self.reason),
            symbol: self.op.spec_symbol(),
        }
    }
}

impl<Num> Operation<Num> {
    /// The stored result.
    pub fn value(&self) -> (v: &Num)
        ensures
            *v == self@.value,
    {
        self.op.value()
    }

    /// The reason attached to this node, if any.
    pub fn reason(&self) -> (r: Option<&str>)
        ensures
            r is Some <==> self@.reason is Some,
            r is Some ==> r.unwrap()@ == self@.reason.unwrap(),
    {
        match &self.reason {
            Some(text) => Some(text.as_str()),
            None => None,
        }
    }
}

} // verus!
