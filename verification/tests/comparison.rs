//! Expressions and how they compare.
use scriptir::ir::instruction::instructions_equal;
use scriptir::ir::Assignable;
use scriptir::ir::BinOp;
use scriptir::ir::Expr;
use scriptir::ir::ExprBuiltin;
use scriptir::ir::Instruction;
use scriptir::ir::Literal;
use scriptir::ir::Script;
use scriptir::ir::UnaryOp;

fn number(value: f64) -> Expr {
    Expr::Literal(Literal::Number(value.to_bits()))
}

fn binary(op: BinOp, left: Expr, right: Expr) -> Expr {
    Expr::Builtin(ExprBuiltin::Binary { op, operand: Box::new((left, right)) })
}

fn unary(op: UnaryOp, operand: Expr) -> Expr {
    Expr::Builtin(ExprBuiltin::Unary { op, operand: Box::new(operand) })
}

fn dynamic(operator: &str) -> Expr {
    Expr::Dynamic { operator: operator.to_string(), args: vec![] }
}

#[test]
fn literal_expressions_compare_as_their_literals() {
    assert!(number(10.0).eq(&number(10.0)));
    assert!(!number(10.0).eq(&number(11.0)));
    assert!(!number(f64::NAN).eq(&number(f64::NAN)));
    assert!(!number(1.0).eq(&Expr::Literal(Literal::Bool(true))));
}

#[test]
fn builtin_expressions_compare_operator_and_operands() {
    let sum = binary(BinOp::Add, number(1.0), number(2.0));
    assert!(sum.eq(&binary(BinOp::Add, number(1.0), number(2.0))));
    assert!(!sum.eq(&binary(BinOp::Sub, number(1.0), number(2.0))));
    assert!(!sum.eq(&binary(BinOp::Add, number(2.0), number(1.0))));
    assert!(!sum.eq(&binary(BinOp::Add, number(1.0), number(3.0))));
    assert!(unary(UnaryOp::Not, number(1.0)).eq(&unary(UnaryOp::Not, number(1.0))));
    assert!(!unary(UnaryOp::Not, number(1.0)).eq(&unary(UnaryOp::BitNot, number(1.0))));
    assert!(!unary(UnaryOp::Not, number(1.0)).eq(&unary(UnaryOp::Not, number(2.0))));
    assert!(!unary(UnaryOp::Not, number(1.0)).eq(&sum));
    assert!(!sum.eq(&unary(UnaryOp::Not, number(1.0))));
}

#[test]
fn expressions_of_different_kinds_differ() {
    assert!(!number(1.0).eq(&unary(UnaryOp::Not, number(1.0))));
    assert!(!unary(UnaryOp::Not, number(1.0)).eq(&number(1.0)));
}

#[test]
fn dynamic_operator_differs_from_anything_that_is_none() {
    assert!(!dynamic("f").eq(&number(1.0)));
    assert!(!number(1.0).eq(&dynamic("f")));
    assert!(!dynamic("f").eq(&unary(UnaryOp::Not, number(1.0))));
    assert!(!unary(UnaryOp::Not, number(1.0)).eq(&dynamic("f")));
}

#[test]
fn comparison_stops_before_two_dynamic_operators() {
    // The operators differ: the operands are not compared.
    assert!(!binary(BinOp::Add, dynamic("f"), dynamic("g"))
        .eq(&binary(BinOp::Sub, dynamic("f"), dynamic("g"))));
    // The left operands differ: the right ones are not compared.
    assert!(!binary(BinOp::Add, number(1.0), dynamic("f"))
        .eq(&binary(BinOp::Add, number(2.0), dynamic("f"))));
    assert!(!unary(UnaryOp::Not, dynamic("f")).eq(&unary(UnaryOp::BitNot, dynamic("f"))));
    // A dynamic operator on one side alone is compared, and differs.
    assert!(!binary(BinOp::Add, number(1.0), dynamic("f"))
        .eq(&binary(BinOp::Add, number(1.0), number(2.0))));
}

fn exit(scope: Option<&str>, value: Expr) -> Instruction {
    Instruction::Exit { scope: scope.map(|name| name.to_string()), value }
}

fn assign(name: &str, value: Expr) -> Instruction {
    Instruction::Assign { name: name.to_string(), assignment: Assignable::Expression(value) }
}

fn function(name: &str, arguments: &[&str], instructions: Vec<Instruction>) -> Instruction {
    Instruction::Assign {
        name: name.to_string(),
        assignment: Assignable::Function {
            arguments: arguments.iter().map(|argument| argument.to_string()).collect(),
            instructions,
        },
    }
}

fn scope(name: &str, instructions: Vec<Instruction>) -> Instruction {
    Instruction::Scope { name: name.to_string(), instructions }
}

#[test]
fn script_with_one_exit_equals_its_like() {
    let Script { instructions } =
        Script { instructions: vec![exit(None, number(10.))] };
    assert!(instructions_equal(&instructions, &vec![exit(None, number(10.))]));
    assert!(!instructions_equal(&instructions, &vec![exit(None, number(11.))]));
    assert!(!instructions_equal(&instructions, &vec![exit(Some("s"), number(10.))]));
    assert!(!instructions_equal(&instructions, &vec![]));
    assert!(!instructions_equal(&instructions, &vec![exit(None, number(10.)), exit(None, number(10.))]));
}

#[test]
fn instructions_compare_kind_names_and_parts() {
    assert!(exit(Some("a"), number(1.)).eq(&exit(Some("a"), number(1.))));
    assert!(!exit(Some("a"), number(1.)).eq(&exit(Some("b"), number(1.))));
    assert!(!exit(Some("a"), number(1.)).eq(&exit(None, number(1.))));
    assert!(!exit(None, number(1.)).eq(&exit(Some("a"), number(1.))));
    assert!(assign("x", number(1.)).eq(&assign("x", number(1.))));
    assert!(!assign("x", number(1.)).eq(&assign("y", number(1.))));
    assert!(!assign("x", number(1.)).eq(&assign("x", number(2.))));
    assert!(!assign("x", number(1.)).eq(&exit(None, number(1.))));
    assert!(!assign("x", number(1.)).eq(&function("x", &[], vec![])));
    assert!(!function("x", &[], vec![]).eq(&assign("x", number(1.))));
    assert!(function("f", &["a", "b"], vec![exit(None, number(1.))])
        .eq(&function("f", &["a", "b"], vec![exit(None, number(1.))])));
    assert!(!function("f", &["a", "b"], vec![]).eq(&function("f", &["b", "a"], vec![])));
    assert!(!function("f", &["a", "b"], vec![]).eq(&function("f", &["a"], vec![])));
    assert!(!function("f", &["a"], vec![exit(None, number(1.))])
        .eq(&function("f", &["a"], vec![exit(None, number(2.))])));
    assert!(scope("s", vec![assign("x", number(1.))]).eq(&scope("s", vec![assign("x", number(1.))])));
    assert!(!scope("s", vec![]).eq(&scope("t", vec![])));
    assert!(!scope("s", vec![assign("x", number(1.))]).eq(&scope("s", vec![])));
    assert!(!scope("s", vec![]).eq(&exit(None, number(1.))));
}

#[test]
fn scripts_compare_instruction_by_instruction() {
    let first = Script {
        instructions: vec![
            assign("x", binary(BinOp::Mul, number(2.), number(3.))),
            scope("s", vec![exit(Some("s"), unary(UnaryOp::Not, number(1.)))]),
            exit(None, number(0.)),
        ],
    };
    let same = Script {
        instructions: vec![
            assign("x", binary(BinOp::Mul, number(2.), number(3.))),
            scope("s", vec![exit(Some("s"), unary(UnaryOp::Not, number(1.)))]),
            exit(None, number(-0.)),
        ],
    };
    let other = Script {
        instructions: vec![
            assign("x", binary(BinOp::Mul, number(2.), number(3.))),
            scope("s", vec![exit(Some("s"), unary(UnaryOp::BitNot, number(1.)))]),
            exit(None, number(0.)),
        ],
    };
    assert!(first.eq(&same));
    assert!(same.eq(&first));
    assert!(!first.eq(&other));
    assert!(first.eq(&first));
}

#[test]
fn comparison_of_instructions_stops_at_the_first_difference() {
    // The first instructions differ: the dynamic operators behind them are
    // not compared.
    let first = vec![exit(None, number(1.)), exit(None, dynamic("f"))];
    let second = vec![exit(None, number(2.)), exit(None, dynamic("f"))];
    assert!(!instructions_equal(&first, &second));
    // The names differ: the values are not compared.
    assert!(!assign("x", dynamic("f")).eq(&assign("y", dynamic("f"))));
    assert!(!exit(Some("a"), dynamic("f")).eq(&exit(Some("b"), dynamic("f"))));
    // The lengths differ: nothing is compared.
    assert!(!instructions_equal(&vec![exit(None, dynamic("f"))], &vec![]));
}
