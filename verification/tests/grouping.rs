use fasteval::parser::{BinaryOp, ExprPair, Expression, Value};
use fasteval::precedence::{group_operands, is_comparison, OpTree};

fn leaf(i: usize) -> OpTree {
    OpTree::Leaf(i)
}

fn node(op: BinaryOp, l: OpTree, r: OpTree) -> OpTree {
    OpTree::Node(op, Box::new(l), Box::new(r))
}

#[test]
fn no_operator_is_a_single_value() {
    assert_eq!(group_operands(&vec![]), leaf(0));
}

#[test]
fn exponentiation_groups_from_the_right() {
    // 2^3^4 = 2^(3^4)
    let t = group_operands(&vec![BinaryOp::EExp, BinaryOp::EExp]);
    assert_eq!(t, node(BinaryOp::EExp, leaf(0), node(BinaryOp::EExp, leaf(1), leaf(2))));
}

#[test]
fn subtraction_groups_from_the_left() {
    // 6-5-4-3 = ((6-5)-4)-3
    let t = group_operands(&vec![BinaryOp::ESub, BinaryOp::ESub, BinaryOp::ESub]);
    assert_eq!(
        t,
        node(
            BinaryOp::ESub,
            node(BinaryOp::ESub, node(BinaryOp::ESub, leaf(0), leaf(1)), leaf(2)),
            leaf(3)
        )
    );
}

#[test]
fn division_groups_from_the_left() {
    let t = group_operands(&vec![BinaryOp::EDiv, BinaryOp::EDiv]);
    assert_eq!(t, node(BinaryOp::EDiv, node(BinaryOp::EDiv, leaf(0), leaf(1)), leaf(2)));
}

#[test]
fn multiplication_binds_tighter_than_addition() {
    // 1+2*3
    let t = group_operands(&vec![BinaryOp::EAdd, BinaryOp::EMul]);
    assert_eq!(t, node(BinaryOp::EAdd, leaf(0), node(BinaryOp::EMul, leaf(1), leaf(2))));
    // 1*2+3
    let t = group_operands(&vec![BinaryOp::EMul, BinaryOp::EAdd]);
    assert_eq!(t, node(BinaryOp::EAdd, node(BinaryOp::EMul, leaf(0), leaf(1)), leaf(2)));
}

#[test]
fn subtraction_binds_tighter_than_addition() {
    // a+b-c groups as a+(b-c); a-b+c as (a-b)+c
    let t = group_operands(&vec![BinaryOp::EAdd, BinaryOp::ESub]);
    assert_eq!(t, node(BinaryOp::EAdd, leaf(0), node(BinaryOp::ESub, leaf(1), leaf(2))));
    let t = group_operands(&vec![BinaryOp::ESub, BinaryOp::EAdd]);
    assert_eq!(t, node(BinaryOp::EAdd, node(BinaryOp::ESub, leaf(0), leaf(1)), leaf(2)));
}

#[test]
fn modulo_binds_tighter_than_division() {
    // a/b%c = a/(b%c)
    let t = group_operands(&vec![BinaryOp::EDiv, BinaryOp::EMod]);
    assert_eq!(t, node(BinaryOp::EDiv, leaf(0), node(BinaryOp::EMod, leaf(1), leaf(2))));
}

#[test]
fn comparisons_group_from_the_left() {
    // a<b==c = (a<b)==c
    let t = group_operands(&vec![BinaryOp::ELT, BinaryOp::EEQ]);
    assert_eq!(t, node(BinaryOp::EEQ, node(BinaryOp::ELT, leaf(0), leaf(1)), leaf(2)));
}

#[test]
fn and_binds_tighter_than_or() {
    // a||b&&c = a||(b&&c)
    let t = group_operands(&vec![BinaryOp::EOR, BinaryOp::EAND]);
    assert_eq!(t, node(BinaryOp::EOR, leaf(0), node(BinaryOp::EAND, leaf(1), leaf(2))));
}

#[test]
fn mixed_expression_groups_by_all_levels() {
    // 1 + 2 * 3 ^ 4 < 5 || 6
    let ops = vec![BinaryOp::EAdd, BinaryOp::EMul, BinaryOp::EExp, BinaryOp::ELT, BinaryOp::EOR];
    let t = group_operands(&ops);
    let pow = node(BinaryOp::EExp, leaf(2), leaf(3));
    let mul = node(BinaryOp::EMul, leaf(1), pow);
    let add = node(BinaryOp::EAdd, leaf(0), mul);
    let lt = node(BinaryOp::ELT, add, leaf(4));
    assert_eq!(t, node(BinaryOp::EOR, lt, leaf(5)));
}

#[test]
fn expression_grouping_reads_the_pair_operators() {
    let e = Expression {
        first: Value::EConstant(1f64.to_bits()),
        pairs: vec![
            ExprPair(BinaryOp::ESub, Value::EConstant(2f64.to_bits())),
            ExprPair(BinaryOp::EMul, Value::EConstant(3f64.to_bits())),
        ],
    };
    assert_eq!(e.grouping(), node(BinaryOp::ESub, leaf(0), node(BinaryOp::EMul, leaf(1), leaf(2))));
}

#[test]
fn comparison_operators_are_recognised() {
    assert!(is_comparison(BinaryOp::ELT));
    assert!(is_comparison(BinaryOp::ENE));
    assert!(is_comparison(BinaryOp::EGTE));
    assert!(!is_comparison(BinaryOp::EAND));
    assert!(!is_comparison(BinaryOp::EAdd));
}
