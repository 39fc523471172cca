use std::fmt::Display;

use backtraced::arena::{OpArena, TraceError};
use backtraced::node::Operation;
use backtraced::operator::Operator;
use backtraced::text::{decimal_text, label, node_name_text};
use backtraced::diagram::{Diagram, Identifier};
use backtraced::visualization::OperationGraph;

fn as_graphviz<Num: Display>(arena: &OpArena<Num>, root: usize) -> String {
    Operation::as_graphviz(arena, root).unwrap()
}

struct Sqrt;

impl Operator<f32> for Sqrt {
    fn symbol(&self) -> &'static str {
        " sqrt "
    }

    fn operate(&self, operands: &Vec<f32>) -> f32 {
        f32::sqrt(operands[0])
    }
}

fn running_sum(arena: &mut OpArena<f32>) -> usize {
    let a = Operation::new_with_reason(1.0, "a", arena);
    let b = Operation::new(2.0, arena);
    let a_plus_b = arena.sum_with_reason(a, b, "b").unwrap();
    let continuing_sum = arena.sum(a_plus_b, a).unwrap();
    let c = Operation::new_with_reason(3.0, "c", arena);
    arena.sum(continuing_sum, c).unwrap()
}

#[test]
fn graph_render() {
    let mut arena = OpArena::new();
    let continuing_sum = running_sum(&mut arena);
    println!("{}", as_graphviz(&arena, continuing_sum));
}

fn fibonacci(steps: u32, alloc: &mut OpArena<f32>) -> usize {
    assert!(steps > 0);
    let a = Operation::new_with_reason(0.0, "definitional", alloc);
    if steps == 1 {
        return a;
    }
    let b = Operation::new_with_reason(1.0, "definitional", alloc);
    if steps == 2 {
        return b;
    }
    let previous = fibonacci(steps - 1, alloc);
    let before = fibonacci(steps - 2, alloc);
    alloc.sum_with_reason(previous, before, &format!("fib({steps})")).unwrap()
}

#[test]
fn test_fib() {
    let mut alloc = OpArena::new();
    let fib5 = fibonacci(5, &mut alloc);
    println!("{}", as_graphviz(&alloc, fib5));
    assert_eq!(*alloc.get(fib5).unwrap().value(), 3.0);
    assert_eq!(alloc.get(fib5).unwrap().reason(), Some("fib(5)"));
}

fn newton_sqrt(target: usize, iters: u32, alloc: &mut OpArena<f32>) -> usize {
    let mut guess = target;
    let two = Operation::new_with_reason(2.0, "constant", alloc);
    for n in 0..iters {
        let ratio = alloc.quotient(target, guess).unwrap();
        let total = alloc.sum(guess, ratio).unwrap();
        guess = alloc.quotient_with_reason(total, two, &format!("iteration {n} approx")).unwrap();
    }
    guess
}

#[test]
fn approx_sqrt() {
    let mut alloc = OpArena::new();
    let target = Operation::new_with_reason(42., "initial", &mut alloc);
    let actual_sqrt = alloc.apply(&Sqrt, &vec![target]).unwrap();
    let guess = newton_sqrt(target, 6, &mut alloc);
    let square_root_approx_error = alloc.difference_with_reason(guess, actual_sqrt, "error").unwrap();
    println!("{}", as_graphviz(&alloc, square_root_approx_error));
    let error = *alloc.get(square_root_approx_error).unwrap().value();
    assert!(error.abs() < 0.001);
    assert_eq!(alloc.get(square_root_approx_error).unwrap().reason(), Some("error"));
}

#[test]
fn chained_add() {
    let mut alloc = OpArena::new();
    let mut chain_sum = Operation::new(0., &mut alloc);
    for n in 1..=10 {
        let x = Operation::new(n as f32, &mut alloc);
        chain_sum = alloc.sum(chain_sum, x).unwrap();
    }
    println!("{}", as_graphviz(&alloc, chain_sum));
    assert_eq!(*alloc.get(chain_sum).unwrap().value(), 55.0);
    // the running total stays flat: every source is a direct operand
    let history = alloc.get(chain_sum).unwrap().op.history().unwrap();
    assert_eq!(history.len(), 11);
    let graph = OperationGraph::from_op(&alloc, chain_sum).unwrap();
    assert_eq!(graph.nodes().len(), 12);
    assert_eq!(graph.edges().len(), 11);
}

#[test]
fn running_sum_is_drawn_flat() {
    let mut arena = OpArena::new();
    let root = running_sum(&mut arena);
    let text = as_graphviz(&arena, root);
    let expected = "digraph backtraced {\n    \
        op5[label=\"7 (+)  \\\"b\\\"\"];\n    \
        op0[label=\"1  \\\"a\\\"\"];\n    \
        op1[label=\"2 \"];\n    \
        op4[label=\"3  \\\"c\\\"\"];\n    \
        op0 -> op5[label=\"\"];\n    \
        op1 -> op5[label=\"\"];\n    \
        op4 -> op5[label=\"\"];\n\
        }\n";
    assert_eq!(text, expected);
}

#[test]
fn shared_operand_is_drawn_once() {
    let mut arena = OpArena::new();
    let s = Operation::new(1.0, &mut arena);
    let x = arena.sum(s, s).unwrap();
    let text = as_graphviz(&arena, x);
    let expected = "digraph backtraced {\n    \
        op1[label=\"2 (+) \"];\n    \
        op0[label=\"1 \"];\n    \
        op0 -> op1[label=\"\"];\n\
        }\n";
    assert_eq!(text, expected);
}

#[test]
fn drawing_twice_gives_the_same_text() {
    let mut arena = OpArena::new();
    let target = Operation::new_with_reason(42., "initial", &mut arena);
    let guess = newton_sqrt(target, 3, &mut arena);
    let first = as_graphviz(&arena, guess);
    let second = as_graphviz(&arena, guess);
    assert_eq!(first, second);
    assert_eq!(first.as_bytes(), second.as_bytes());

    let mut again = OpArena::new();
    let target = Operation::new_with_reason(42., "initial", &mut again);
    let guess = newton_sqrt(target, 3, &mut again);
    assert_eq!(as_graphviz(&again, guess), first);
}

#[test]
fn labels_show_value_operator_and_reason() {
    let mut arena = OpArena::new();
    let a = Operation::new_with_reason(1.5, "a", &mut arena);
    let b = Operation::new(2.0, &mut arena);
    let sum = arena.sum(a, b).unwrap();
    let difference = arena.difference_with_reason(a, b, "gap").unwrap();
    let product = arena.product(a, b).unwrap();
    let quotient = arena.quotient(a, b).unwrap();
    let root = arena.apply(&Sqrt, &vec![b]).unwrap();
    assert_eq!(arena.get(a).unwrap().label(), "1.5  \"a\"");
    assert_eq!(arena.get(b).unwrap().label(), "2 ");
    assert_eq!(arena.get(sum).unwrap().label(), "3.5 (+) ");
    assert_eq!(arena.get(difference).unwrap().label(), "-0.5 (-)  \"gap\"");
    assert_eq!(arena.get(product).unwrap().label(), "3 (*) ");
    assert_eq!(arena.get(quotient).unwrap().label(), "0.75 (/) ");
    assert_eq!(arena.get(root).unwrap().label(), "1.4142135 sqrt ");
    assert_eq!(label("7", " (+) ", Some("b")), "7 (+)  \"b\"");
    assert_eq!(label("7", " ", None), "7 ");
    assert_eq!(label("", "", Some("")), " \"\"");
}

#[test]
fn node_label_needs_a_node() {
    let mut arena = OpArena::new();
    let a = Operation::new_with_reason(1.5, "a", &mut arena);
    let graph = OperationGraph::from_op(&arena, a).unwrap();
    assert!(graph.node_label(1).is_none());
    assert_eq!(graph.node_label(a).unwrap(), "1.5  \"a\"");
}

#[test]
fn names_are_identifiers() {
    assert_eq!(node_name_text(0), "op0");
    assert_eq!(node_name_text(7), "op7");
    assert_eq!(node_name_text(10), "op10");
    assert_eq!(node_name_text(1234567890), "op1234567890");
    assert_eq!(decimal_text(0), "0");
    assert_eq!(decimal_text(9), "9");
    assert_eq!(decimal_text(305), "305");
    assert_eq!(decimal_text(usize::MAX), usize::MAX.to_string());
    let mut arena = OpArena::new();
    let a = Operation::new(1.0, &mut arena);
    let graph = OperationGraph::from_op(&arena, a).unwrap();
    assert_eq!(graph.graph_name(), "backtraced");
    assert_eq!(graph.graph_id().as_str(), "backtraced");
    assert_eq!(graph.node_id(42).as_str(), "op42");
}

#[test]
fn unknown_root_is_not_drawn() {
    let mut arena = OpArena::new();
    let a = Operation::new(1.0, &mut arena);
    assert_eq!(Operation::as_graphviz(&arena, a + 1), Err(TraceError::UnknownNode));
    assert_eq!(
        Operation::as_graphviz(&arena, a),
        Ok("digraph backtraced {\n    op0[label=\"1 \"];\n}\n".to_string())
    );
    let graph = OperationGraph::from_op(&arena, a).unwrap();
    assert_eq!(graph.to_graphviz(), "digraph backtraced {\n    op0[label=\"1 \"];\n}\n");
}

#[test]
fn renderer_sees_the_drawing_through_its_traits() {
    let mut arena = OpArena::new();
    let s = Operation::new_with_reason(1.0, "s", &mut arena);
    let x = arena.sum(s, s).unwrap();
    let graph = OperationGraph::from_op(&arena, x).unwrap();
    let drawing = graph.diagram();
    assert_eq!(dot::GraphWalk::nodes(&drawing).into_owned(), vec![0, 1]);
    assert_eq!(dot::GraphWalk::edges(&drawing).into_owned(), vec![(1, 0)]);
    assert_eq!(dot::GraphWalk::source(&drawing, &(1, 0)), 1);
    assert_eq!(dot::GraphWalk::target(&drawing, &(1, 0)), 0);
    assert_eq!(dot::Labeller::graph_id(&drawing).as_slice(), "backtraced");
    assert_eq!(dot::Labeller::node_id(&drawing, &0).as_slice(), "op1");
    assert_eq!(dot::Labeller::node_id(&drawing, &1).as_slice(), "op0");
    assert_eq!(dot::Labeller::node_id(&drawing, &7).as_slice(), "_");
    assert_eq!(dot::Labeller::node_label(&drawing, &0).to_dot_string(), "\"2 (+) \"");
    assert_eq!(dot::Labeller::node_label(&drawing, &1).to_dot_string(), "\"1  \\\"s\\\"\"");
    assert_eq!(dot::Labeller::node_label(&drawing, &7).to_dot_string(), "\"\"");
    assert_eq!(drawing.to_text(), graph.to_graphviz());
    assert_eq!(drawing.name_at(0), "op1");
    assert_eq!(drawing.name_at(1), "op0");
    assert_eq!(drawing.name_at(2), "_");
    assert_eq!(drawing.label_at(0), "2 (+) ");
    assert_eq!(drawing.label_at(1), "1  \"s\"");
    assert_eq!(drawing.label_at(2), "");
}

#[test]
fn only_identifiers_become_ids() {
    assert_eq!(Identifier::new("op1").unwrap().as_str(), "op1");
    assert_eq!(Identifier::new("_").unwrap().as_str(), "_");
    assert_eq!(Identifier::new("A_z09").unwrap().as_str(), "A_z09");
    assert!(Identifier::new("").is_none());
    assert!(Identifier::new("1op").is_none());
    assert!(Identifier::new("op 1").is_none());
    assert!(Identifier::new("op-1").is_none());
    assert!(Identifier::new("op\"").is_none());
}

#[test]
fn drawing_from_plain_words() {
    let name = Identifier::new("g").unwrap();
    let ids = vec![Identifier::new("a").unwrap(), Identifier::new("b_2").unwrap()];
    let labels = vec!["first".to_string(), "say \"hi\"".to_string()];
    let drawing = Diagram::new(name, ids, labels, vec![(0, 1), (1, 1)]).unwrap();
    let expected = "digraph g {\n    \
        a[label=\"first\"];\n    \
        b_2[label=\"say \\\"hi\\\"\"];\n    \
        a -> b_2[label=\"\"];\n    \
        b_2 -> b_2[label=\"\"];\n\
        }\n";
    assert_eq!(drawing.to_text(), expected);
    let name = Identifier::new("g").unwrap();
    let ids = vec![Identifier::new("a").unwrap()];
    assert!(Diagram::new(name, ids, vec![], vec![]).is_none());
}
