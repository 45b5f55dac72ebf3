//! What a lowering takes, counted beforehand.
use scriptir::ir::Assignable;
use scriptir::ir::BinOp;
use scriptir::ir::Expr;
use scriptir::ir::ExprBuiltin;
use scriptir::ir::Instruction;
use scriptir::ir::Literal;
use scriptir::ir::Script;
use scriptir::ir::UnaryOp;
use scriptir::lowering::measure::block_demand;
use scriptir::target::Environment;

fn leaf() -> Expr {
    Expr::Literal(Literal::Bool(true))
}

#[test]
fn size_counts_the_nodes_of_an_expression() {
    assert_eq!(leaf().size(), Some(1));
    let unary = Expr::Builtin(ExprBuiltin::Unary { op: UnaryOp::Not, operand: Box::new(leaf()) });
    assert_eq!(unary.size(), Some(2));
    let binary =
        Expr::Builtin(ExprBuiltin::Binary { op: BinOp::And, operand: Box::new((unary, leaf())) });
    assert_eq!(binary.size(), Some(4));
    let dynamic = Expr::Dynamic { operator: "f".to_string(), args: vec![binary, leaf(), leaf()] };
    assert_eq!(dynamic.size(), Some(7));
    assert_eq!(Expr::Dynamic { operator: "f".to_string(), args: vec![] }.size(), Some(1));
    // A literal is one node, whatever it holds.
    let list = Expr::Literal(Literal::List(vec![Literal::Bool(true), Literal::Bool(false)]));
    assert_eq!(list.size(), Some(1));
}

#[test]
fn demand_counts_variables_and_labels() {
    let exit = Instruction::Exit { scope: None, value: leaf() };
    assert_eq!(exit.demand(), Some((1, 0)));
    let assign = Instruction::Assign { name: "x".to_string(), assignment: Assignable::Expression(leaf()) };
    assert_eq!(assign.demand(), Some((1, 0)));
    let scope = Instruction::Scope { name: "s".to_string(), instructions: vec![exit, assign] };
    assert_eq!(scope.demand(), Some((2, 1)));
    let function = Instruction::Assign {
        name: "f".to_string(),
        assignment: Assignable::Function {
            arguments: vec!["a".to_string(), "b".to_string()],
            instructions: vec![
                scope,
                Instruction::Scope { name: "t".to_string(), instructions: vec![] },
            ],
        },
    };
    assert_eq!(function.demand(), Some((4, 2)));
    assert_eq!(block_demand(&vec![]), Some((0, 0)));
}

#[test]
fn counted_demand_is_what_the_lowering_takes() {
    let instructions = vec![
        Instruction::Scope {
            name: "s".to_string(),
            instructions: vec![Instruction::Assign {
                name: "f".to_string(),
                assignment: Assignable::Function {
                    arguments: vec!["a".to_string()],
                    instructions: vec![Instruction::Exit { scope: None, value: leaf() }],
                },
            }],
        },
        Instruction::Exit {
            scope: None,
            value: Expr::Builtin(ExprBuiltin::Unary { op: UnaryOp::Not, operand: Box::new(leaf()) }),
        },
    ];
    assert_eq!(block_demand(&instructions), Some((4, 1)));
    let script = Script { instructions };
    assert!(script.is_compilable());
    let mut environment = Environment::empty();
    assert_eq!(script.compile(&mut environment).unwrap().variables, 4);
}
