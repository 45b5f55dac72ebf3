//! What holds of every compiled script, observed on one that uses every
//! construct.
use scriptir::ir::Assignable;
use scriptir::ir::BinOp;
use scriptir::ir::Expr;
use scriptir::ir::ExprBuiltin;
use scriptir::ir::Instruction;
use scriptir::ir::Literal;
use scriptir::ir::Script;
use scriptir::ir::UnaryOp;
use scriptir::target::Environment;
use scriptir::target::LinkedCode;
use scriptir::target::Operand;
use scriptir::target::Operation;

fn number(value: f64) -> Expr {
    Expr::Literal(Literal::Number(value.to_bits()))
}

fn sample() -> Script {
    let sum = Expr::Builtin(ExprBuiltin::Binary {
        op: BinOp::Add,
        operand: Box::new((
            number(1.0),
            Expr::Dynamic {
                operator: "host".to_string(),
                args: vec![
                    number(2.0),
                    Expr::Builtin(ExprBuiltin::Unary {
                        op: UnaryOp::Not,
                        operand: Box::new(Expr::Literal(Literal::Bool(false))),
                    }),
                ],
            },
        )),
    });
    Script {
        instructions: vec![
            Instruction::Assign { name: "x".to_string(), assignment: Assignable::Expression(sum) },
            Instruction::Scope {
                name: "outer".to_string(),
                instructions: vec![
                    Instruction::Assign {
                        name: "f".to_string(),
                        assignment: Assignable::Function {
                            arguments: vec!["a".to_string(), "b".to_string()],
                            instructions: vec![
                                Instruction::Scope {
                                    name: "body".to_string(),
                                    instructions: vec![
                                        Instruction::Exit {
                                            scope: Some("body".to_string()),
                                            value: number(3.0),
                                        },
                                        Instruction::Exit {
                                            scope: Some("outer".to_string()),
                                            value: number(4.0),
                                        },
                                    ],
                                },
                                Instruction::Exit { scope: None, value: number(5.0) },
                            ],
                        },
                    },
                    Instruction::Scope {
                        name: "inner".to_string(),
                        instructions: vec![
                            Instruction::Exit { scope: Some("outer".to_string()), value: number(6.0) },
                            Instruction::Exit { scope: Some("inner".to_string()), value: number(7.0) },
                        ],
                    },
                ],
            },
            Instruction::Exit { scope: None, value: number(8.0) },
        ],
    }
}

fn compiled() -> LinkedCode {
    let mut environment = Environment::new(vec!["host".to_string()]);
    sample().compile(&mut environment).unwrap()
}

fn units(code: &LinkedCode) -> Vec<&Vec<Operation<usize>>> {
    let mut units = vec![&code.code];
    for function in &code.functions {
        units.push(&function.code);
    }
    units
}

fn destination(operation: &Operation<usize>) -> Option<usize> {
    match operation {
        Operation::Load { variable, .. } => Some(variable.index),
        Operation::Binary { destination, .. } => Some(destination.index),
        Operation::Unary { destination, .. } => Some(destination.index),
        Operation::Call { destination, .. } => Some(destination.index),
        _ => None,
    }
}

fn operands(operation: &Operation<usize>) -> Vec<&Operand> {
    match operation {
        Operation::Load { value, .. } => vec![value],
        Operation::Binary { left, right, .. } => vec![left, right],
        Operation::Unary { operand, .. } => vec![operand],
        Operation::Call { arguments, .. } => arguments.iter().collect(),
        Operation::Return(value) => vec![value],
        Operation::Leave { value, .. } => vec![value],
        Operation::Label(_) => vec![],
    }
}

#[test]
fn every_variable_is_set_exactly_once() {
    let code = compiled();
    let mut set = vec![0; code.variables];
    for function in &code.functions {
        for parameter in &function.parameters {
            set[parameter.index] += 1;
        }
    }
    for unit in units(&code) {
        for operation in unit {
            if let Some(variable) = destination(operation) {
                set[variable] += 1;
            }
        }
    }
    assert_eq!(code.variables, 14);
    assert_eq!(set, vec![1; 14]);
}

#[test]
fn every_variable_is_written_before_it_is_read() {
    let code = compiled();
    for unit in units(&code) {
        let mut written = vec![false; code.variables];
        for operation in unit {
            for operand in operands(operation) {
                if let Operand::Variable(variable) = operand {
                    assert!(written[variable.index]);
                }
            }
            if let Some(variable) = destination(operation) {
                written[variable] = true;
            }
        }
    }
}

#[test]
fn every_label_is_placed_exactly_once() {
    let code = compiled();
    let mut placed = vec![0; 3];
    for unit in units(&code) {
        for operation in unit {
            if let Operation::Label(label) = operation {
                placed[label.index] += 1;
            }
        }
    }
    assert_eq!(placed, vec![1, 1, 1]);
}

#[test]
fn every_leave_finds_its_label_later_in_its_unit() {
    let code = compiled();
    let mut leaves = 0;
    for unit in units(&code) {
        for (position, operation) in unit.iter().enumerate() {
            if let Operation::Leave { scope, .. } = operation {
                leaves += 1;
                assert!(unit[position + 1..].contains(&Operation::Label(*scope)));
            }
        }
    }
    // The exit of `outer` inside the function cannot leave the function and
    // returns; the other three exits of named scopes leave their blocks.
    assert_eq!(leaves, 3);
}

#[test]
fn compilation_fails_exactly_if_an_operator_is_missing() {
    let mut without = Environment::new(vec!["other".to_string()]);
    assert!(sample().compile(&mut without).is_err());
    let mut with = Environment::new(vec!["other".to_string(), "host".to_string()]);
    assert!(sample().compile(&mut with).is_ok());
}

#[test]
fn compilation_is_repeatable() {
    assert_eq!(compiled(), compiled());
}
