use backtraced::arena::{OpArena, TraceError};
use backtraced::merge::{decide, Arithmetic, MergeCase};
use backtraced::node::{OpKind, Operation, OperationType};
use backtraced::operator::Operator;

fn within_point1(val: f32, target: f32) -> bool {
    target - 0.1 < val && val < target + 0.1
}

fn reason_of(arena: &OpArena<f32>, node: usize) -> Option<String> {
    arena.get(node).unwrap().reason().map(|r| r.to_string())
}

fn history_of(arena: &OpArena<f32>, node: usize) -> Vec<usize> {
    arena.get(node).unwrap().op.history().unwrap().clone()
}

fn value_of(arena: &OpArena<f32>, node: usize) -> f32 {
    *arena.get(node).unwrap().value()
}

#[test]
fn test_sum_reasons() {
    let mut arena = OpArena::new();
    let a = Operation::new_with_reason(1.0, "a", &mut arena);
    let b = Operation::new(2.0, &mut arena);
    let a_plus_b = arena.sum(a, b).unwrap();
    assert!(matches!(arena.get(a_plus_b).unwrap().op, OperationType::Sum { .. }));
    assert!(matches!(arena.get(a_plus_b).unwrap().reason, None));
    let a_plus_b = arena.sum_with_reason(a, b, "b").unwrap();
    assert!(matches!(&arena.get(a_plus_b).unwrap().reason, Some(r) if r == "b"));
    let continuing_sum = arena.sum(a_plus_b, a).unwrap();
    assert!(matches!(
        &arena.get(continuing_sum).unwrap().op,
        OperationType::Sum { value, history } if history.len() == 3 && *value < 4.1
    ));
    assert!(matches!(&arena.get(continuing_sum).unwrap().reason, Some(r) if r == "b"));
    let c = Operation::new_with_reason(3.0, "c", &mut arena);
    let continuing_sum = arena.sum(continuing_sum, c).unwrap();
    let node = arena.get(continuing_sum).unwrap();
    assert!(matches!(&node.reason, Some(r) if r == "b"));
    assert!(matches!(&node.op, OperationType::Sum { value, .. } if within_point1(*value, 7.)));
    let history = node.op.history().unwrap();
    assert_eq!(history.len(), 4);
    let reasons: Vec<Option<&str>> =
        history.iter().map(|&h| arena.get(h).unwrap().reason()).collect();
    assert_eq!(reasons, vec![Some("a"), None, Some("a"), Some("c")]);
    for &h in history.iter() {
        assert!(matches!(arena.get(h).unwrap().op, OperationType::Source { .. }));
    }
}

#[test]
fn non_commutative() {
    let mut alloc = OpArena::new();
    let six = Operation::new(6., &mut alloc);
    let three = Operation::new(3., &mut alloc);
    let a = alloc.quotient(six, three).unwrap();
    assert_eq!(*alloc.get(a).unwrap().value(), 6. / 3.);
    let three_again = Operation::new(3., &mut alloc);
    let c = alloc.quotient(a, three_again).unwrap();
    assert_eq!(*alloc.get(c).unwrap().value(), 6. / 3. / 3.);
}

#[test]
fn walkthrough_histories_and_values() {
    let mut arena = OpArena::new();
    let a = Operation::new_with_reason(1.0, "a", &mut arena);
    let b = Operation::new(2.0, &mut arena);
    let c = Operation::new_with_reason(3.0, "c", &mut arena);
    let ab = arena.sum(a, b).unwrap();
    assert_eq!(value_of(&arena, ab), 3.0);
    assert_eq!(history_of(&arena, ab), vec![a, b]);
    assert_eq!(reason_of(&arena, ab), None);
    let ab = arena.sum_with_reason(a, b, "b").unwrap();
    assert_eq!(reason_of(&arena, ab), Some("b".to_string()));
    let aba = arena.sum(ab, a).unwrap();
    assert_eq!(history_of(&arena, aba), vec![a, b, a]);
    assert_eq!(value_of(&arena, aba), 4.0);
    assert_eq!(reason_of(&arena, aba), Some("b".to_string()));
    let abac = arena.sum(aba, c).unwrap();
    assert_eq!(history_of(&arena, abac), vec![a, b, a, c]);
    assert_eq!(value_of(&arena, abac), 7.0);
    assert_eq!(reason_of(&arena, abac), Some("b".to_string()));
}

#[test]
fn quotient_is_left_to_right() {
    let mut arena: OpArena<f64> = OpArena::new();
    let a = Operation::new(6.0, &mut arena);
    let b = Operation::new(3.0, &mut arena);
    let ab = arena.quotient(a, b).unwrap();
    let abb = arena.quotient(ab, b).unwrap();
    let bb = arena.quotient(b, b).unwrap();
    let a_bb = arena.quotient(a, bb).unwrap();
    let left = *arena.get(abb).unwrap().value();
    let right = *arena.get(a_bb).unwrap().value();
    assert!((left - 0.6667).abs() < 0.0001);
    assert_eq!(right, 6.0);
    assert_ne!(left, right);
    // the running quotient absorbed the source without changing the value
    assert_eq!(arena.get(abb).unwrap().op.history().unwrap(), &vec![a, b, b]);
}

#[test]
fn source_on_the_left_is_absorbed_too() {
    let mut arena = OpArena::new();
    let a = Operation::new(10.0, &mut arena);
    let b = Operation::new(4.0, &mut arena);
    let named = Operation::new_with_reason(1.0, "leaf", &mut arena);
    let diff = arena.difference_with_reason(a, b, "gap").unwrap();
    assert_eq!(value_of(&arena, diff), 6.0);
    let folded = arena.difference(named, diff).unwrap();
    assert_eq!(value_of(&arena, folded), 1.0 - 6.0);
    assert_eq!(history_of(&arena, folded), vec![a, b, named]);
    assert_eq!(reason_of(&arena, folded), Some("gap".to_string()));
    assert_eq!(arena.get(folded).unwrap().op.kind(), OpKind::Difference);
}

#[test]
fn anonymous_totals_are_joined() {
    let mut arena = OpArena::new();
    let a = Operation::new(2.0, &mut arena);
    let b = Operation::new(3.0, &mut arena);
    let c = Operation::new(5.0, &mut arena);
    let d = Operation::new(7.0, &mut arena);
    let ab = arena.product(a, b).unwrap();
    let cd = arena.product_with_reason(c, d, "cd").unwrap();
    let both = arena.product(ab, cd).unwrap();
    assert_eq!(value_of(&arena, both), 210.0);
    assert_eq!(history_of(&arena, both), vec![a, b, c, d]);
    assert_eq!(reason_of(&arena, both), Some("cd".to_string()));
    let swapped = arena.product(cd, ab).unwrap();
    assert_eq!(history_of(&arena, swapped), vec![c, d, a, b]);
    assert_eq!(reason_of(&arena, swapped), Some("cd".to_string()));
    let ab2 = arena.product(a, b).unwrap();
    let plain = arena.product(ab, ab2).unwrap();
    assert_eq!(history_of(&arena, plain), vec![a, b, a, b]);
    assert_eq!(reason_of(&arena, plain), None);
    assert_eq!(value_of(&arena, plain), 36.0);
}

#[test]
fn named_totals_are_kept_apart() {
    let mut arena = OpArena::new();
    let a = Operation::new(2.0, &mut arena);
    let b = Operation::new(3.0, &mut arena);
    let left = arena.sum_with_reason(a, b, "left").unwrap();
    let right = arena.sum_with_reason(b, a, "right").unwrap();
    let both = arena.sum(left, right).unwrap();
    assert_eq!(history_of(&arena, both), vec![left, right]);
    assert_eq!(reason_of(&arena, both), None);
    assert_eq!(value_of(&arena, both), 10.0);
}

#[test]
fn other_kinds_are_kept_apart() {
    let mut arena = OpArena::new();
    let a = Operation::new(2.0, &mut arena);
    let b = Operation::new(3.0, &mut arena);
    let sum = arena.sum(a, b).unwrap();
    let product = arena.product(sum, a).unwrap();
    assert_eq!(history_of(&arena, product), vec![sum, a]);
    assert_eq!(reason_of(&arena, product), None);
    assert_eq!(value_of(&arena, product), 10.0);
    let mixed = arena.sum(sum, product).unwrap();
    assert_eq!(history_of(&arena, mixed), vec![sum, product]);
    assert_eq!(value_of(&arena, mixed), 15.0);
}

#[test]
fn override_replaces_the_inherited_reason() {
    let mut arena = OpArena::new();
    let a = Operation::new(2.0, &mut arena);
    let b = Operation::new(3.0, &mut arena);
    let sum = arena.sum_with_reason(a, b, "first").unwrap();
    let more = arena.sum_with_reason(sum, a, "second").unwrap();
    assert_eq!(history_of(&arena, more), vec![a, b, a]);
    assert_eq!(reason_of(&arena, more), Some("second".to_string()));
    // the earlier node keeps its reason
    assert_eq!(reason_of(&arena, sum), Some("first".to_string()));
}

#[test]
fn absorbed_source_loses_its_reason() {
    let mut arena = OpArena::new();
    let a = Operation::new(2.0, &mut arena);
    let b = Operation::new(3.0, &mut arena);
    let named = Operation::new_with_reason(4.0, "named", &mut arena);
    let sum = arena.sum(a, b).unwrap();
    let more = arena.sum(sum, named).unwrap();
    assert_eq!(reason_of(&arena, more), None);
    assert_eq!(history_of(&arena, more), vec![a, b, named]);
}

#[test]
fn unknown_operand_is_refused() {
    let mut arena = OpArena::new();
    let a = Operation::new(2.0, &mut arena);
    assert_eq!(arena.sum(a, 5), Err(TraceError::UnknownNode));
    assert_eq!(arena.difference(5, a), Err(TraceError::UnknownNode));
    assert_eq!(arena.product_with_reason(1, 1, "x"), Err(TraceError::UnknownNode));
    assert_eq!(arena.quotient(a, 1), Err(TraceError::UnknownNode));
    assert_eq!(arena.len(), 1);
    assert!(arena.get(1).is_none());
    assert_eq!(value_of(&arena, a), 2.0);
    assert_eq!(TraceError::UnknownNode.message(), "the handle names no node of this arena");
}

#[test]
fn nodes_are_only_appended() {
    let mut arena = OpArena::new();
    assert_eq!(arena.len(), 0);
    let a = Operation::new(2.0, &mut arena);
    let b = Operation::new_with_reason(3.0, "b", &mut arena);
    assert_eq!((a, b), (0, 1));
    let s = arena.sum(a, b).unwrap();
    assert_eq!(s, 2);
    assert_eq!(arena.len(), 3);
    assert_eq!(value_of(&arena, a), 2.0);
    assert_eq!(reason_of(&arena, b), Some("b".to_string()));
    assert_eq!(reason_of(&arena, a), None);
}

#[test]
fn source_has_no_history() {
    let mut arena = OpArena::new();
    let a = Operation::new(2.0, &mut arena);
    let b = Operation::new_with_reason(3.0, "b", &mut arena);
    assert!(arena.get(a).unwrap().op.history().is_none());
    assert!(arena.get(b).unwrap().op.history().is_none());
    assert_eq!(arena.get(a).unwrap().op.kind(), OpKind::Source);
    let s = arena.sum(a, b).unwrap();
    assert!(arena.get(s).unwrap().op.history().is_some());
}

#[test]
fn decision_table_rows_in_order() {
    let op = Arithmetic::Sum;
    assert_eq!(decide(op, OpKind::Source, true, OpKind::Sum, true), MergeCase::Absorb);
    assert_eq!(decide(op, OpKind::Sum, false, OpKind::Source, true), MergeCase::Absorb);
    assert_eq!(decide(op, OpKind::Source, true, OpKind::Source, false), MergeCase::Pair);
    assert_eq!(decide(op, OpKind::Sum, true, OpKind::Sum, false), MergeCase::Flatten);
    assert_eq!(decide(op, OpKind::Sum, false, OpKind::Sum, true), MergeCase::Flatten);
    assert_eq!(decide(op, OpKind::Sum, false, OpKind::Sum, false), MergeCase::Flatten);
    assert_eq!(decide(op, OpKind::Sum, true, OpKind::Sum, true), MergeCase::Nest);
    assert_eq!(decide(op, OpKind::Product, false, OpKind::Source, false), MergeCase::Nest);
    assert_eq!(decide(op, OpKind::Product, false, OpKind::Product, false), MergeCase::Nest);
    assert_eq!(decide(op, OpKind::Custom, false, OpKind::Source, false), MergeCase::Nest);
    assert_eq!(decide(Arithmetic::Product, OpKind::Product, false, OpKind::Source, false), MergeCase::Absorb);
    assert_eq!(decide(Arithmetic::Quotient, OpKind::Quotient, false, OpKind::Quotient, false), MergeCase::Flatten);
    assert_eq!(decide(Arithmetic::Difference, OpKind::Source, false, OpKind::Difference, true), MergeCase::Absorb);
    assert_eq!(Arithmetic::Difference.kind(), OpKind::Difference);
}

struct Sqrt;

impl Operator<f32> for Sqrt {
    fn symbol(&self) -> &'static str {
        " sqrt "
    }

    fn operate(&self, operands: &Vec<f32>) -> f32 {
        f32::sqrt(operands[0])
    }
}

struct Largest;

impl Operator<f32> for Largest {
    fn symbol(&self) -> &'static str {
        " max "
    }

    fn operate(&self, operands: &Vec<f32>) -> f32 {
        operands.iter().cloned().fold(f32::MIN, f32::max)
    }
}

#[test]
fn custom_operator_records_its_operands_as_given() {
    let mut arena = OpArena::new();
    let a = Operation::new(16.0, &mut arena);
    let b = Operation::new(9.0, &mut arena);
    let sum = arena.sum_with_reason(a, b, "total").unwrap();
    let root = arena.apply(&Sqrt, &vec![sum]).unwrap();
    assert_eq!(value_of(&arena, root), 5.0);
    assert_eq!(history_of(&arena, root), vec![sum]);
    assert_eq!(reason_of(&arena, root), None);
    assert_eq!(arena.get(root).unwrap().op.kind(), OpKind::Custom);
    assert_eq!(arena.get(root).unwrap().op.variant_symbol(), " sqrt ");
    let most = arena.apply(&Largest, &vec![b, a, b, sum]).unwrap();
    assert_eq!(value_of(&arena, most), 25.0);
    assert_eq!(history_of(&arena, most), vec![b, a, b, sum]);
    // a custom node is never folded into a total
    let more = arena.sum(root, a).unwrap();
    assert_eq!(history_of(&arena, more), vec![root, a]);
    assert_eq!(value_of(&arena, more), 21.0);
}

#[test]
fn custom_operator_with_unknown_operand_is_refused() {
    let mut arena = OpArena::new();
    let a = Operation::new(16.0, &mut arena);
    assert_eq!(arena.apply(&Sqrt, &vec![a, 3]), Err(TraceError::UnknownNode));
    assert_eq!(arena.custom(" f ", 1.0, &vec![7]), Err(TraceError::UnknownNode));
    assert_eq!(arena.len(), 1);
    assert!(arena.knows_all(&vec![a, a]));
    assert!(!arena.knows_all(&vec![a, 1]));
    let made = arena.custom(" f ", 1.5, &vec![a, a]).unwrap();
    assert_eq!(value_of(&arena, made), 1.5);
    assert_eq!(history_of(&arena, made), vec![a, a]);
    assert_eq!(arena.get(made).unwrap().op.variant_symbol(), " f ");
}

#[test]
fn builders_make_the_kind_they_name() {
    let sum: OperationType<f32> = OperationType::make_sum(1.0, vec![0, 1]);
    assert_eq!(sum.kind(), OpKind::Sum);
    assert_eq!(sum.variant_symbol(), " (+) ");
    assert_eq!(*sum.value(), 1.0);
    let difference: OperationType<f32> = OperationType::make_difference(2.0, vec![0]);
    assert_eq!(difference.kind(), OpKind::Difference);
    assert_eq!(difference.variant_symbol(), " (-) ");
    let product: OperationType<f32> = OperationType::make_product(3.0, vec![]);
    assert_eq!(product.kind(), OpKind::Product);
    assert_eq!(product.variant_symbol(), " (*) ");
    assert_eq!(product.history(), Some(&vec![]));
    let quotient: OperationType<f32> = OperationType::make_quotient(4.0, vec![2, 2]);
    assert_eq!(quotient.kind(), OpKind::Quotient);
    assert_eq!(quotient.variant_symbol(), " (/) ");
    assert_eq!(quotient.history(), Some(&vec![2, 2]));
    let source: OperationType<f32> = OperationType::Source { value: 5.0 };
    assert_eq!(source.variant_symbol(), " ");
}

#[test]
fn integers_work_as_values() {
    let mut arena: OpArena<u64> = OpArena::new();
    let a = Operation::new(6, &mut arena);
    let b = Operation::new(3, &mut arena);
    let q = arena.quotient(a, b).unwrap();
    let d = arena.difference(q, b).unwrap();
    assert_eq!(*arena.get(q).unwrap().value(), 2);
    assert_eq!(arena.get(d).unwrap().op.history().unwrap(), &vec![q, b]);
    let p = arena.product(a, b).unwrap();
    assert_eq!(*arena.get(p).unwrap().value(), 18);
}
