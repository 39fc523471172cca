//! A drawing in plain words: the name of the graph, a name and a label for
//! each node, and the edges between them. This is what is handed to the
//! renderer.

use vstd::prelude::*;
use crate::text::is_identifier;

verus! {

/// `dot::Id`, the renderer's own type for a name it has accepted. Nothing
/// is known here of what a value of it holds.
#[verifier::external_type_specification]
#[verifier::external_body]
pub struct ExId<'a>(dot::Id<'a>);

/// `dot::LabelText`, the renderer's own type for the text of a label.
/// Nothing is known here of what a value of it holds.
#[verifier::external_type_specification]
#[verifier::external_body]
pub struct ExLabelText<'a>(dot::LabelText<'a>);

/// Makes an identifier with `dot::Id::new`, which accepts a name exactly
/// when it is made of letters, digits and underscores, is not empty and
/// does not begin with a digit.
#[verifier::external_body]
fn dot_id(name: String) -> (id: Result<dot::Id<'static>, ()>)
    ensures
        id is Ok <==> is_identifier(name@),
{
    dot::Id::new(name)
}

/// Wraps a text with `dot::LabelText::label`, as a label that is escaped
/// when it is written out.
#[verifier::external_body]
fn dot_label(text: String) -> (wrapped: dot::LabelText<'static>) {
    dot::LabelText::label(text)
}

/// A name that the renderer accepts for a graph or a node.
pub struct Identifier {
    text: String,
}

impl View for Identifier {
    type V = Seq<char>;

    closed spec fn view(&self) -> Seq<char> {
        self.text@
    }
}

impl Identifier {
    #[verifier::type_invariant]
    spec fn accepted(&self) -> bool {
        is_identifier(self.text@)
    }

    /// The identifier that holds `name`, where `name` can be one.
    pub fn new(name: &str) -> (id: Option<Identifier>)
        ensures
            id is Some <==> is_identifier(name@),
            id is Some ==> id.unwrap()@ == name@,
    {
        match dot_id(name.to_owned()) {
            Ok(_) => Some(Identifier { text: name.to_owned() }),
            Err(_) => None,
        }
    }

    /// Takes a text that is known to be an identifier.
    pub(crate) fn known(text: String) -> (id: Identifier)
        requires
            is_identifier(text@),
        ensures
            id@ == text@,
    {
        Identifier { text }
    }

    /// The name as text.
    pub fn as_str(&self) -> (text: &str)
        ensures
            text@ == self@,
            is_identifier(text@),
    {
        proof {
            use_type_invariant(self);
        }
        self.text.as_str()
    }

    /// The renderer's identifier for the text of [`Identifier::as_str`].
    fn to_id(&self) -> dot::Id<'static> {
        dot_id(self.as_str().to_owned()).unwrap()
    }
}

/// The text that `dot::render` writes for a directed graph called `name`
/// whose nodes have the given names and labels, in this order, and whose
/// edges run between the given positions in that order, with everything
/// else left at the renderer's defaults.
pub uninterp spec fn dot_text(
    name: Seq<char>,
    nodes: Seq<(Seq<char>, Seq<char>)>,
    edges: Seq<(usize, usize)>,
) -> Seq<char>;

/// The positions of `n` nodes: the numbers from 0 up to `n`, without `n`.
pub open spec fn positions(n: nat) -> Seq<usize> {
    Seq::new(n, |i: int| i as usize)
}

/// A drawing that is ready to be written out.
pub struct Diagram {
    name: Identifier,
    ids: Vec<Identifier>,
    labels: Vec<String>,
    order: Vec<usize>,
    edges: Vec<(usize, usize)>,
}

impl Diagram {
    #[verifier::type_invariant]
    spec fn aligned(&self) -> bool {
        &&& self.ids@.len() == self.labels@.len()
        &&& self.ids@.len() == self.order@.len()
        &&& forall|i: int| 0 <= i < self.order@.len() ==> #[trigger] self.order@[i] == i
    }

    /// The name of the graph.
    pub closed spec fn spec_name(&self) -> Seq<char> {
        self.name@
    }

    /// The name and the label of each node.
    pub closed spec fn records(&self) -> Seq<(Seq<char>, Seq<char>)> {
        Seq::new(self.ids@.len(), |i: int| (self.ids@[i]@, self.labels@[i]@))
    }

    /// The edges, as pairs of positions among the nodes, start first.
    pub closed spec fn links(&self) -> Seq<(usize, usize)> {
        self.edges@
    }

    /// Puts a drawing together from the name of the graph, the names and
    /// the labels of its nodes, and its edges. There must be as many
    /// labels as names.
    pub fn new(
        name: Identifier,
        ids: Vec<Identifier>,
        labels: Vec<String>,
        edges: Vec<(usize, usize)>,
    ) -> (diagram: Option<Diagram>)
        ensures
            diagram is Some <==> ids@.len() == labels@.len(),
            diagram is Some ==> {
                &&& diagram.unwrap().spec_name() == name@
                &&& diagram.unwrap().records() == Seq::new(
                    ids@.len(),
                    |i: int| (ids@[i]@, labels@[i]@),
                )
                &&& diagram.unwrap().links() == edges@
            },
    {
        if ids.len() != labels.len() {
            return None;
        }
        let mut order: Vec<usize> = Vec::new();
        let mut i: usize = 0;
        while i < ids.len()
            invariant
                i <= ids@.len(),
                order@.len() == i,
                forall|q: int| 0 <= q < i ==> #[trigger] order@[q] == q,
            decreases ids@.len() - i,
        {
            order.push(i);
            i += 1;
        }
        Some(Diagram { name, ids, labels, order, edges })
    }

    /// The name under which the node at position `n` is written: its own,
    /// or `_` for a position beyond the last node.
    pub fn name_at(&self, n: usize) -> (name: &str)
        ensures
            n < self.records().len() ==> name@ == self.records()[n as int].0,
            n >= self.records().len() ==> name@ == seq!['_'],
            is_identifier(name@),
    {
        proof {
            use_type_invariant(self);
            reveal_strlit("_");
        }
        if n < self.ids.len() {
            self.ids[n].as_str()
        } else {
            assert("_"@ =~= seq!['_']);
            "_"
        }
    }

    /// The label with which the node at position `n` is written: its own,
    /// or the empty one for a position beyond the last node.
    pub fn label_at(&self, n: usize) -> (text: &str)
        ensures
            n < self.records().len() ==> text@ == self.records()[n as int].1,
            n >= self.records().len() ==> text@ == Seq::<char>::empty(),
    {
        proof {
            use_type_invariant(self);
            reveal_strlit("");
        }
        if n < self.labels.len() {
            self.labels[n].as_str()
        } else {
            assert(""@ =~= Seq::<char>::empty());
            ""
        }
    }

    /// The drawing as a description that a layout tool can read.
    pub fn to_text(&self) -> (text: String)
        ensures
            text@ == dot_text(self.spec_name(), self.records(), self.links()),
    {
        render(self)
    }
}

/// What the renderer asks of a drawing: where its nodes and edges are. A
/// node is its position, an edge a pair of positions.
impl<'b> dot::GraphWalk<'b, usize, (usize, usize)> for Diagram {
    /// The nodes: the positions from the first to the last.
    fn nodes(&'b self) -> (nodes: dot::Nodes<'b, usize>)
        ensures
            nodes matches std::borrow::Cow::Borrowed(listed) && listed@ == positions(
                self.records().len(),
            ),
    {
        proof {
            use_type_invariant(self);
            assert(self.order@ =~= positions(self.records().len()));
        }
        std::borrow::Cow::Borrowed(self.order.as_slice())
    }

    /// The edges, as the drawing holds them.
    fn edges(&'b self) -> (edges: dot::Edges<'b, (usize, usize)>)
        ensures
            edges matches std::borrow::Cow::Borrowed(listed) && listed@ == self.links(),
    {
        std::borrow::Cow::Borrowed(self.edges.as_slice())
    }

    /// The position an edge starts from.
    fn source(&'b self, edge: &(usize, usize)) -> (node: usize)
        ensures
            node == edge.0,
    {
        edge.0
    }

    /// The position an edge leads to.
    fn target(&'b self, edge: &(usize, usize)) -> (node: usize)
        ensures
            node == edge.1,
    {
        edge.1
    }
}

/// What the renderer asks of a drawing: how it and its nodes are named and
/// labelled. Edges carry no label. Each answer is made by the renderer's
/// own constructor from a text of the drawing, and is opaque here.
impl<'b> dot::Labeller<'b, usize, (usize, usize)> for Diagram {
    /// The renderer's identifier for the name of the graph.
    fn graph_id(&'b self) -> dot::Id<'b> {
        self.name.to_id()
    }

    /// The renderer's identifier for the text of [`Diagram::name_at`].
    fn node_id(&'b self, n: &usize) -> dot::Id<'b> {
        dot_id(self.name_at(*n).to_owned()).unwrap()
    }

    /// The renderer's label for the text of [`Diagram::label_at`].
    fn node_label(&'b self, n: &usize) -> dot::LabelText<'b> {
        dot_label(self.label_at(*n).to_owned())
    }
}

/// Writes a drawing out with `dot::render`, into memory, and returns the
/// text. The renderer asks the drawing for its name, for its nodes, which
/// it is handed as the positions from the first to the last, for its edges
/// and for the names and labels of the nodes, and writes one line for
/// each; what it writes depends on nothing else, and writing into memory
/// cannot fail.
#[verifier::external_body]
fn render(diagram: &Diagram) -> (text: String)
    ensures
        text@ == dot_text(diagram.spec_name(), diagram.records(), diagram.links()),
{
    let mut writer = Vec::new();
    dot::render(diagram, &mut writer).unwrap();
    String::from_utf8(writer).unwrap()
}

} // verus!
