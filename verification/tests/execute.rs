//! Scripts are compiled and then run on a small stand-in for the virtual
//! machine, which executes linked code operation by operation.
use scriptir::ir::Assignable;
use scriptir::ir::BinOp;
use scriptir::ir::Expr;
use scriptir::ir::ExprBuiltin;
use scriptir::ir::Instruction;
use scriptir::ir::Literal;
use scriptir::ir::Script;
use scriptir::ir::UnaryOp;
use scriptir::target::Constant;
use scriptir::target::Environment;
use scriptir::target::LinkedCode;
use scriptir::target::Operand;
use scriptir::target::Operation;

#[derive(Debug, Clone, PartialEq)]
enum Value {
    Boolean(bool),
    Real(f64),
    Text(String),
    Sequence(Vec<Value>),
    Mapping(Vec<(String, Value)>),
}

fn value_of(constant: &Constant) -> Value {
    match constant {
        Constant::Boolean(b) => Value::Boolean(*b),
        Constant::Real(bits) => Value::Real(f64::from_bits(*bits)),
        Constant::Text(text) => Value::Text(text.clone()),
        Constant::Sequence(elements) => Value::Sequence(elements.iter().map(value_of).collect()),
        Constant::Mapping(entries) => {
            Value::Mapping(entries.iter().map(|(key, value)| (key.clone(), value_of(value))).collect())
        }
    }
}

fn read(operand: &Operand, variables: &[Option<Value>]) -> Value {
    match operand {
        Operand::Constant(constant) => value_of(constant),
        Operand::Variable(variable) => {
            variables[variable.index].clone().expect("a variable is read before it is written")
        }
    }
}

fn binary(op: BinOp, left: Value, right: Value) -> Value {
    match (op, left, right) {
        (BinOp::Add, Value::Real(a), Value::Real(b)) => Value::Real(a + b),
        (BinOp::Sub, Value::Real(a), Value::Real(b)) => Value::Real(a - b),
        (BinOp::Mul, Value::Real(a), Value::Real(b)) => Value::Real(a * b),
        (BinOp::Div, Value::Real(a), Value::Real(b)) => Value::Real(a / b),
        (BinOp::And, Value::Boolean(a), Value::Boolean(b)) => Value::Boolean(a && b),
        (BinOp::Or, Value::Boolean(a), Value::Boolean(b)) => Value::Boolean(a || b),
        (BinOp::Xor, Value::Boolean(a), Value::Boolean(b)) => Value::Boolean(a != b),
        (op, left, right) => panic!("{:?} is not defined on {:?} and {:?}", op, left, right),
    }
}

fn unary(op: UnaryOp, operand: Value) -> Value {
    match (op, operand) {
        (UnaryOp::Not, Value::Boolean(a)) => Value::Boolean(!a),
        (op, operand) => panic!("{:?} is not defined on {:?}", op, operand),
    }
}

/// Runs the code of the script and hands back what it returns. `host` holds
/// the intrinsics, each at the position of its handle.
fn run(code: &LinkedCode, host: &[fn(Vec<Value>) -> Value]) -> Option<Value> {
    let mut variables: Vec<Option<Value>> = vec![None; code.variables];
    let mut position = 0;
    while position < code.code.len() {
        match &code.code[position] {
            Operation::Load { variable, value } => {
                variables[variable.index] = Some(read(value, &variables));
            }
            Operation::Binary { op, left, right, destination } => {
                let result = binary(*op, read(left, &variables), read(right, &variables));
                variables[destination.index] = Some(result);
            }
            Operation::Unary { op, operand, destination } => {
                variables[destination.index] = Some(unary(*op, read(operand, &variables)));
            }
            Operation::Call { intrinsic, arguments, destination } => {
                let values = arguments.iter().map(|argument| read(argument, &variables)).collect();
                variables[destination.index] = Some(host[*intrinsic](values));
            }
            Operation::Return(value) => return Some(read(value, &variables)),
            Operation::Leave { scope, value: _ } => {
                position = code.code[position..]
                    .iter()
                    .position(|operation| *operation == Operation::Label(*scope))
                    .map(|offset| position + offset)
                    .expect("an operation leaves to a label that does not follow it");
            }
            Operation::Label(_) => {}
        }
        position += 1;
    }
    None
}

fn number(value: f64) -> Expr {
    Expr::Literal(Literal::Number(value.to_bits()))
}

fn exit(value: Expr) -> Instruction {
    Instruction::Exit { scope: None, value }
}

#[test]
fn execute() {
    let script = Script {
        instructions: vec![Instruction::Exit {
            scope: None,
            value: Expr::Literal(Literal::Number(10f64.to_bits())),
        }],
    };

    let mut vm = Environment::empty();

    let script = script.compile(&mut vm).unwrap();

    let smth: f64 = match run(&script, &[]).unwrap() {
        Value::Real(number) => number,
        other => panic!("{:?} is no number", other),
    };
    assert_eq!(smth, 10.);
}

#[test]
fn assignment_is_not_read_by_the_exit() {
    let script = Script {
        instructions: vec![
            Instruction::Assign {
                name: "x".to_string(),
                assignment: Assignable::Expression(number(3.0)),
            },
            exit(Expr::Builtin(ExprBuiltin::Unary {
                op: UnaryOp::Not,
                operand: Box::new(Expr::Literal(Literal::Bool(true))),
            })),
        ],
    };
    let mut environment = Environment::empty();
    let code = script.compile(&mut environment).unwrap();
    // The exit reads the variable of its own expression, not the one of `x`.
    assert_eq!(
        code.code.last(),
        Some(&Operation::Return(Operand::Variable(scriptir::target::Variable { index: 1 })))
    );
    assert_eq!(run(&code, &[]), Some(Value::Boolean(false)));
}

#[test]
fn binary_operands_are_evaluated_left_to_right() {
    // (8 - 2) / (1 + 2) = 2
    let script = Script {
        instructions: vec![exit(Expr::Builtin(ExprBuiltin::Binary {
            op: BinOp::Div,
            operand: Box::new((
                Expr::Builtin(ExprBuiltin::Binary {
                    op: BinOp::Sub,
                    operand: Box::new((number(8.0), number(2.0))),
                }),
                Expr::Builtin(ExprBuiltin::Binary {
                    op: BinOp::Add,
                    operand: Box::new((number(1.0), number(2.0))),
                }),
            )),
        }))],
    };
    let mut environment = Environment::empty();
    let code = script.compile(&mut environment).unwrap();
    assert_eq!(run(&code, &[]), Some(Value::Real(2.0)));
}

#[test]
fn exit_of_a_named_scope_ends_only_that_scope() {
    let script = Script {
        instructions: vec![
            Instruction::Scope {
                name: "inner".to_string(),
                instructions: vec![
                    Instruction::Exit { scope: Some("inner".to_string()), value: number(1.0) },
                    exit(number(2.0)),
                ],
            },
            exit(number(3.0)),
        ],
    };
    let mut environment = Environment::empty();
    let code = script.compile(&mut environment).unwrap();
    assert_eq!(run(&code, &[]), Some(Value::Real(3.0)));
}

#[test]
fn exit_without_a_scope_ends_the_script() {
    let script = Script {
        instructions: vec![
            Instruction::Scope {
                name: "inner".to_string(),
                instructions: vec![exit(number(1.0))],
            },
            exit(number(3.0)),
        ],
    };
    let mut environment = Environment::empty();
    let code = script.compile(&mut environment).unwrap();
    assert_eq!(run(&code, &[]), Some(Value::Real(1.0)));
}

#[test]
fn exit_of_an_outer_scope_passes_the_inner_one() {
    let script = Script {
        instructions: vec![
            Instruction::Scope {
                name: "outer".to_string(),
                instructions: vec![
                    Instruction::Scope {
                        name: "inner".to_string(),
                        instructions: vec![Instruction::Exit {
                            scope: Some("outer".to_string()),
                            value: number(1.0),
                        }],
                    },
                    exit(number(2.0)),
                ],
            },
            exit(number(3.0)),
        ],
    };
    let mut environment = Environment::empty();
    let code = script.compile(&mut environment).unwrap();
    assert_eq!(run(&code, &[]), Some(Value::Real(3.0)));
}

#[test]
fn script_without_an_exit_returns_nothing() {
    let script = Script {
        instructions: vec![Instruction::Assign {
            name: "x".to_string(),
            assignment: Assignable::Expression(number(3.0)),
        }],
    };
    let mut environment = Environment::empty();
    let code = script.compile(&mut environment).unwrap();
    assert_eq!(run(&code, &[]), None);
}

fn sum(arguments: Vec<Value>) -> Value {
    let mut total = 0.0;
    for argument in arguments {
        match argument {
            Value::Real(number) => total += number,
            other => panic!("{:?} is no number", other),
        }
    }
    Value::Real(total)
}

fn first(arguments: Vec<Value>) -> Value {
    arguments.into_iter().next().unwrap()
}

#[test]
fn dynamic_operator_is_called_through_its_handle() {
    let script = Script {
        instructions: vec![exit(Expr::Dynamic {
            operator: "sum".to_string(),
            args: vec![
                number(1.0),
                Expr::Dynamic { operator: "first".to_string(), args: vec![number(5.0), number(7.0)] },
                number(10.0),
            ],
        })],
    };
    let mut environment = Environment::new(vec!["first".to_string(), "sum".to_string()]);
    let code = script.compile(&mut environment).unwrap();
    assert_eq!(run(&code, &[first, sum]), Some(Value::Real(16.0)));
}

#[test]
fn literals_arrive_unchanged() {
    let literal = Literal::List(vec![
        Literal::Bool(true),
        Literal::Number((-0.0f64).to_bits()),
        Literal::String("text".to_string()),
        Literal::Mapping(vec![("key".to_string(), Literal::Number(f64::MAX.to_bits()))]),
    ]);
    let script = Script { instructions: vec![exit(Expr::Literal(literal))] };
    let mut environment = Environment::empty();
    let code = script.compile(&mut environment).unwrap();
    match run(&code, &[]) {
        Some(Value::Sequence(elements)) => {
            assert_eq!(elements.len(), 4);
            assert_eq!(elements[0], Value::Boolean(true));
            match elements[1] {
                Value::Real(zero) => assert_eq!(zero.to_bits(), (-0.0f64).to_bits()),
                _ => panic!("the second element is no number"),
            }
            assert_eq!(elements[2], Value::Text("text".to_string()));
            assert_eq!(
                elements[3],
                Value::Mapping(vec![("key".to_string(), Value::Real(f64::MAX))])
            );
        }
        other => panic!("{:?} is no sequence", other),
    }
}
