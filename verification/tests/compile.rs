//! The code that scripts are lowered to, operation by operation.
use scriptir::ir::Assignable;
use scriptir::ir::BinOp;
use scriptir::ir::Expr;
use scriptir::ir::ExprBuiltin;
use scriptir::ir::Instruction;
use scriptir::ir::Literal;
use scriptir::ir::Script;
use scriptir::ir::UnaryOp;
use scriptir::target::Constant;
use scriptir::target::Environment;
use scriptir::target::Function;
use scriptir::target::Label;
use scriptir::target::LinkedCode;
use scriptir::target::Operand;
use scriptir::target::Operation;
use scriptir::target::Variable;

fn number(value: f64) -> Expr {
    Expr::Literal(Literal::Number(value.to_bits()))
}

fn constant(value: f64) -> Operand {
    Operand::Constant(Constant::Real(value.to_bits()))
}

fn variable(index: usize) -> Variable {
    Variable { index }
}

fn at(index: usize) -> Operand {
    Operand::Variable(Variable { index })
}

fn load(index: usize, value: f64) -> Operation<usize> {
    Operation::Load { variable: variable(index), value: constant(value) }
}

fn compile(instructions: Vec<Instruction>) -> LinkedCode {
    let script = Script { instructions };
    assert!(script.is_compilable());
    let mut environment = Environment::new(vec!["f".to_string(), "g".to_string()]);
    script.compile(&mut environment).unwrap()
}

#[test]
fn exit_lowers_to_load_and_return() {
    let code = compile(vec![Instruction::Exit { scope: None, value: number(10.0) }]);
    assert_eq!(code.code, vec![load(0, 10.0), Operation::Return(at(0))]);
    assert_eq!(code.variables, 1);
    assert!(code.functions.is_empty());
}

#[test]
fn empty_script_lowers_to_no_code() {
    let code = compile(vec![]);
    assert!(code.code.is_empty());
    assert_eq!(code.variables, 0);
    assert!(code.functions.is_empty());
}

#[test]
fn binary_takes_its_variable_before_its_operands() {
    let code = compile(vec![Instruction::Exit {
        scope: None,
        value: Expr::Builtin(ExprBuiltin::Binary {
            op: BinOp::Add,
            operand: Box::new((number(1.0), number(2.0))),
        }),
    }]);
    assert_eq!(
        code.code,
        vec![
            load(1, 1.0),
            load(2, 2.0),
            Operation::Binary { op: BinOp::Add, left: at(1), right: at(2), destination: variable(0) },
            Operation::Return(at(0)),
        ]
    );
    assert_eq!(code.variables, 3);
}

#[test]
fn nested_operands_take_consecutive_variables() {
    // (1 * 2) - !true
    let code = compile(vec![Instruction::Exit {
        scope: None,
        value: Expr::Builtin(ExprBuiltin::Binary {
            op: BinOp::Sub,
            operand: Box::new((
                Expr::Builtin(ExprBuiltin::Binary {
                    op: BinOp::Mul,
                    operand: Box::new((number(1.0), number(2.0))),
                }),
                Expr::Builtin(ExprBuiltin::Unary {
                    op: UnaryOp::Not,
                    operand: Box::new(Expr::Literal(Literal::Bool(true))),
                }),
            )),
        }),
    }]);
    assert_eq!(
        code.code,
        vec![
            load(2, 1.0),
            load(3, 2.0),
            Operation::Binary { op: BinOp::Mul, left: at(2), right: at(3), destination: variable(1) },
            Operation::Load {
                variable: variable(5),
                value: Operand::Constant(Constant::Boolean(true)),
            },
            Operation::Unary { op: UnaryOp::Not, operand: at(5), destination: variable(4) },
            Operation::Binary { op: BinOp::Sub, left: at(1), right: at(4), destination: variable(0) },
            Operation::Return(at(0)),
        ]
    );
    assert_eq!(code.variables, 6);
}

#[test]
fn every_binary_operator_keeps_its_kind() {
    let operators = [
        BinOp::Add,
        BinOp::Sub,
        BinOp::Mul,
        BinOp::Div,
        BinOp::And,
        BinOp::Or,
        BinOp::Xor,
        BinOp::BitAnd,
        BinOp::BitOr,
        BinOp::BitXor,
        BinOp::ShiftLeft,
        BinOp::ShiftRight,
    ];
    for op in operators {
        let code = compile(vec![Instruction::Exit {
            scope: None,
            value: Expr::Builtin(ExprBuiltin::Binary {
                op,
                operand: Box::new((number(1.0), number(2.0))),
            }),
        }]);
        assert_eq!(
            code.code[2],
            Operation::Binary { op, left: at(1), right: at(2), destination: variable(0) }
        );
    }
    for op in [UnaryOp::Not, UnaryOp::BitNot] {
        let code = compile(vec![Instruction::Exit {
            scope: None,
            value: Expr::Builtin(ExprBuiltin::Unary { op, operand: Box::new(number(1.0)) }),
        }]);
        assert_eq!(code.code[1], Operation::Unary { op, operand: at(1), destination: variable(0) });
    }
}

#[test]
fn dynamic_lowers_its_arguments_in_order() {
    let code = compile(vec![Instruction::Exit {
        scope: None,
        value: Expr::Dynamic {
            operator: "g".to_string(),
            args: vec![
                number(1.0),
                Expr::Builtin(ExprBuiltin::Unary {
                    op: UnaryOp::BitNot,
                    operand: Box::new(number(2.0)),
                }),
                Expr::Dynamic { operator: "f".to_string(), args: vec![] },
            ],
        },
    }]);
    assert_eq!(
        code.code,
        vec![
            load(1, 1.0),
            load(3, 2.0),
            Operation::Unary { op: UnaryOp::BitNot, operand: at(3), destination: variable(2) },
            Operation::Call { intrinsic: 0, arguments: vec![], destination: variable(4) },
            Operation::Call {
                intrinsic: 1,
                arguments: vec![at(1), at(2), at(4)],
                destination: variable(0),
            },
            Operation::Return(at(0)),
        ]
    );
    assert_eq!(code.variables, 5);
}

#[test]
fn assignment_of_an_expression_emits_the_expression_alone() {
    let code = compile(vec![
        Instruction::Assign { name: "x".to_string(), assignment: Assignable::Expression(number(3.0)) },
        Instruction::Assign { name: "x".to_string(), assignment: Assignable::Expression(number(4.0)) },
    ]);
    assert_eq!(code.code, vec![load(0, 3.0), load(1, 4.0)]);
    assert_eq!(code.variables, 2);
}

#[test]
fn function_is_a_unit_of_its_own() {
    let code = compile(vec![
        Instruction::Assign {
            name: "f".to_string(),
            assignment: Assignable::Function {
                arguments: vec!["a".to_string(), "b".to_string()],
                instructions: vec![Instruction::Exit { scope: None, value: number(1.0) }],
            },
        },
        Instruction::Exit { scope: None, value: number(2.0) },
    ]);
    assert_eq!(code.code, vec![load(3, 2.0), Operation::Return(at(3))]);
    assert_eq!(
        code.functions,
        vec![Function {
            parameters: vec![variable(0), variable(1)],
            code: vec![load(2, 1.0), Operation::Return(at(2))],
        }]
    );
    assert_eq!(code.variables, 4);
}

#[test]
fn inner_function_is_completed_before_the_outer_one() {
    let code = compile(vec![Instruction::Assign {
        name: "outer".to_string(),
        assignment: Assignable::Function {
            arguments: vec!["a".to_string()],
            instructions: vec![
                Instruction::Assign {
                    name: "inner".to_string(),
                    assignment: Assignable::Function {
                        arguments: vec!["b".to_string()],
                        instructions: vec![Instruction::Exit { scope: None, value: number(1.0) }],
                    },
                },
                Instruction::Exit { scope: None, value: number(2.0) },
            ],
        },
    }]);
    assert!(code.code.is_empty());
    assert_eq!(
        code.functions,
        vec![
            Function {
                parameters: vec![variable(1)],
                code: vec![load(2, 1.0), Operation::Return(at(2))],
            },
            Function {
                parameters: vec![variable(0)],
                code: vec![load(3, 2.0), Operation::Return(at(3))],
            },
        ]
    );
    assert_eq!(code.variables, 4);
}

#[test]
fn scope_places_its_label_behind_its_body() {
    let code = compile(vec![
        Instruction::Scope {
            name: "s".to_string(),
            instructions: vec![Instruction::Exit { scope: Some("s".to_string()), value: number(1.0) }],
        },
        Instruction::Exit { scope: None, value: number(2.0) },
    ]);
    assert_eq!(
        code.code,
        vec![
            load(0, 1.0),
            Operation::Leave { scope: Label { index: 0 }, value: at(0) },
            Operation::Label(Label { index: 0 }),
            load(1, 2.0),
            Operation::Return(at(1)),
        ]
    );
}

#[test]
fn exit_leaves_the_innermost_scope_of_its_name() {
    let code = compile(vec![Instruction::Scope {
        name: "s".to_string(),
        instructions: vec![
            Instruction::Scope {
                name: "s".to_string(),
                instructions: vec![Instruction::Exit {
                    scope: Some("s".to_string()),
                    value: number(1.0),
                }],
            },
            Instruction::Exit { scope: Some("s".to_string()), value: number(2.0) },
        ],
    }]);
    assert_eq!(
        code.code,
        vec![
            load(0, 1.0),
            Operation::Leave { scope: Label { index: 1 }, value: at(0) },
            Operation::Label(Label { index: 1 }),
            load(1, 2.0),
            Operation::Leave { scope: Label { index: 0 }, value: at(1) },
            Operation::Label(Label { index: 0 }),
        ]
    );
}

#[test]
fn exit_of_an_outer_scope_leaves_to_the_outer_label() {
    let code = compile(vec![Instruction::Scope {
        name: "outer".to_string(),
        instructions: vec![Instruction::Scope {
            name: "inner".to_string(),
            instructions: vec![Instruction::Exit {
                scope: Some("outer".to_string()),
                value: number(1.0),
            }],
        }],
    }]);
    assert_eq!(
        code.code,
        vec![
            load(0, 1.0),
            Operation::Leave { scope: Label { index: 0 }, value: at(0) },
            Operation::Label(Label { index: 1 }),
            Operation::Label(Label { index: 0 }),
        ]
    );
}

#[test]
fn exit_of_an_unknown_scope_returns() {
    let code = compile(vec![
        Instruction::Scope { name: "left".to_string(), instructions: vec![] },
        Instruction::Exit { scope: Some("left".to_string()), value: number(1.0) },
    ]);
    assert_eq!(
        code.code,
        vec![Operation::Label(Label { index: 0 }), load(0, 1.0), Operation::Return(at(0))]
    );
}

#[test]
fn exit_in_a_function_cannot_leave_a_scope_around_the_function() {
    let code = compile(vec![Instruction::Scope {
        name: "s".to_string(),
        instructions: vec![Instruction::Assign {
            name: "f".to_string(),
            assignment: Assignable::Function {
                arguments: vec![],
                instructions: vec![Instruction::Exit {
                    scope: Some("s".to_string()),
                    value: number(1.0),
                }],
            },
        }],
    }]);
    assert_eq!(code.code, vec![Operation::Label(Label { index: 0 })]);
    assert_eq!(
        code.functions,
        vec![Function { parameters: vec![], code: vec![load(0, 1.0), Operation::Return(at(0))] }]
    );
}

#[test]
fn compiling_twice_gives_the_same_code() {
    let script = Script {
        instructions: vec![
            Instruction::Scope {
                name: "s".to_string(),
                instructions: vec![Instruction::Exit {
                    scope: Some("s".to_string()),
                    value: Expr::Dynamic { operator: "f".to_string(), args: vec![number(1.0)] },
                }],
            },
            Instruction::Exit { scope: None, value: number(2.0) },
        ],
    };
    let mut environment = Environment::new(vec!["f".to_string()]);
    let first = script.compile(&mut environment).unwrap();
    let second = script.compile(&mut environment).unwrap();
    assert_eq!(first, second);
}
