//! Linking against an environment: handles for the intrinsics it has, an
//! error for the first one it lacks.
use scriptir::ir::Assignable;
use scriptir::ir::Expr;
use scriptir::ir::Instruction;
use scriptir::ir::Literal;
use scriptir::ir::Script;
use scriptir::linking::LinkError;
use scriptir::lowering::Builder;
use scriptir::target::Environment;
use scriptir::target::Operand;
use scriptir::target::Operation;
use scriptir::target::Variable;

fn call(operator: &str, args: Vec<Expr>) -> Expr {
    Expr::Dynamic { operator: operator.to_string(), args }
}

fn exit(value: Expr) -> Instruction {
    Instruction::Exit { scope: None, value }
}

fn names(names: &[&str]) -> Vec<String> {
    names.iter().map(|name| name.to_string()).collect()
}

#[test]
fn environment_resolves_a_name_to_its_first_position() {
    let environment = Environment::new(names(&["a", "b", "a", "c"]));
    assert_eq!(environment.resolve(&"a".to_string()), Some(0));
    assert_eq!(environment.resolve(&"b".to_string()), Some(1));
    assert_eq!(environment.resolve(&"c".to_string()), Some(3));
    assert_eq!(environment.resolve(&"d".to_string()), None);
    assert_eq!(Environment::empty().resolve(&"a".to_string()), None);
}

#[test]
fn missing_intrinsic_fails_the_compilation() {
    let script = Script { instructions: vec![exit(call("missing", vec![]))] };
    let mut environment = Environment::empty();
    assert_eq!(
        script.compile(&mut environment),
        Err(LinkError::UnresolvedIntrinsic("missing".to_string()))
    );
}

#[test]
fn error_names_the_first_missing_intrinsic_of_the_code() {
    let script = Script {
        instructions: vec![exit(call(
            "outer",
            vec![call("known", vec![]), call("inner", vec![]), call("last", vec![])],
        ))],
    };
    let mut environment = Environment::new(names(&["known"]));
    assert_eq!(
        script.compile(&mut environment),
        Err(LinkError::UnresolvedIntrinsic("inner".to_string()))
    );
}

#[test]
fn code_of_the_script_is_linked_before_the_functions() {
    let script = Script {
        instructions: vec![
            Instruction::Assign {
                name: "f".to_string(),
                assignment: Assignable::Function {
                    arguments: vec![],
                    instructions: vec![exit(call("in_function", vec![]))],
                },
            },
            exit(call("in_script", vec![])),
        ],
    };
    let mut environment = Environment::empty();
    assert_eq!(
        script.compile(&mut environment),
        Err(LinkError::UnresolvedIntrinsic("in_script".to_string()))
    );
    let mut environment = Environment::new(names(&["in_script"]));
    assert_eq!(
        script.compile(&mut environment),
        Err(LinkError::UnresolvedIntrinsic("in_function".to_string()))
    );
    let mut environment = Environment::new(names(&["in_function", "in_script"]));
    let code = script.compile(&mut environment).unwrap();
    assert_eq!(
        code.code[0],
        Operation::Call { intrinsic: 1, arguments: vec![], destination: Variable { index: 1 } }
    );
    assert_eq!(
        code.functions[0].code[0],
        Operation::Call { intrinsic: 0, arguments: vec![], destination: Variable { index: 0 } }
    );
}

#[test]
fn linking_changes_nothing_but_the_intrinsics() {
    let mut builder = Builder::new();
    let value = Expr::Literal(Literal::Bool(true)).compile(&mut builder);
    let result = call("twice", vec![]).compile(&mut builder);
    builder.push(Operation::Return(result));
    let block = builder.finish();
    assert_eq!(value, Operand::Variable(Variable { index: 0 }));
    assert_eq!(
        block.code[1],
        Operation::Call {
            intrinsic: "twice".to_string(),
            arguments: vec![],
            destination: Variable { index: 1 },
        }
    );
    let linked = block.link(&Environment::new(names(&["once", "twice"]))).unwrap();
    assert_eq!(linked.variables, 2);
    assert_eq!(linked.code.len(), 3);
    assert_eq!(
        linked.code[1],
        Operation::Call { intrinsic: 1, arguments: vec![], destination: Variable { index: 1 } }
    );
    assert_eq!(linked.code[2], Operation::Return(Operand::Variable(Variable { index: 1 })));
}

#[test]
fn script_without_dynamic_operators_links_against_any_environment() {
    let script = Script { instructions: vec![exit(Expr::Literal(Literal::Bool(false)))] };
    let mut empty = Environment::empty();
    let mut full = Environment::new(names(&["a", "b"]));
    assert_eq!(script.compile(&mut empty), script.compile(&mut full));
    assert!(script.compile(&mut empty).is_ok());
}
