//! The builder: fresh variables, lexical scopes, and units.
use scriptir::lowering::Binding;
use scriptir::lowering::Builder;
use scriptir::target::Constant;
use scriptir::target::Function;
use scriptir::target::Label;
use scriptir::target::Operand;
use scriptir::target::Operation;
use scriptir::target::Variable;

fn name(text: &str) -> String {
    text.to_string()
}

fn marker(value: bool) -> Operation<String> {
    Operation::Return(Operand::Constant(Constant::Boolean(value)))
}

#[test]
fn fresh_variables_are_numbered_from_zero_and_never_repeat() {
    let mut builder = Builder::new();
    for expected in 0..100 {
        assert_eq!(builder.new_temporary_variable(), Variable { index: expected });
    }
    let block = builder.finish();
    assert_eq!(block.variables, 100);
    assert!(block.code.is_empty());
}

#[test]
fn pushed_operations_keep_their_order() {
    let mut builder = Builder::new();
    builder.push(marker(true));
    builder.push(marker(false));
    builder.push(Operation::Label(Label { index: 7 }));
    let block = builder.finish();
    assert_eq!(
        block.code,
        vec![marker(true), marker(false), Operation::Label(Label { index: 7 })]
    );
}

#[test]
fn last_binding_of_a_name_counts() {
    let mut builder = Builder::new();
    assert_eq!(builder.lookup(&name("x")), None);
    builder.bind(name("x"), Binding::Variable(Variable { index: 1 }));
    builder.bind(name("y"), Binding::Function(0));
    assert_eq!(builder.lookup(&name("x")), Some(Binding::Variable(Variable { index: 1 })));
    builder.bind(name("x"), Binding::Variable(Variable { index: 2 }));
    assert_eq!(builder.lookup(&name("x")), Some(Binding::Variable(Variable { index: 2 })));
    assert_eq!(builder.lookup(&name("y")), Some(Binding::Function(0)));
}

#[test]
fn names_bound_in_a_scope_are_forgotten_when_it_is_left() {
    let mut builder = Builder::new();
    builder.bind(name("x"), Binding::Variable(Variable { index: 1 }));
    let end = builder.enter_scope(name("s"));
    assert_eq!(end, Label { index: 0 });
    assert_eq!(builder.lookup(&name("x")), Some(Binding::Variable(Variable { index: 1 })));
    builder.bind(name("x"), Binding::Variable(Variable { index: 2 }));
    builder.bind(name("inner"), Binding::Variable(Variable { index: 3 }));
    assert_eq!(builder.lookup(&name("x")), Some(Binding::Variable(Variable { index: 2 })));
    assert_eq!(builder.lookup(&name("inner")), Some(Binding::Variable(Variable { index: 3 })));
    builder.leave_scope();
    assert_eq!(builder.lookup(&name("x")), Some(Binding::Variable(Variable { index: 1 })));
    assert_eq!(builder.lookup(&name("inner")), None);
}

#[test]
fn target_is_the_innermost_scope_of_the_name() {
    let mut builder = Builder::new();
    assert_eq!(builder.target(&name("a")), None);
    let outer = builder.enter_scope(name("a"));
    let middle = builder.enter_scope(name("b"));
    let inner = builder.enter_scope(name("a"));
    assert_eq!((outer, middle, inner), (Label { index: 0 }, Label { index: 1 }, Label { index: 2 }));
    assert_eq!(builder.target(&name("a")), Some(inner));
    assert_eq!(builder.target(&name("b")), Some(middle));
    assert_eq!(builder.target(&name("c")), None);
    builder.leave_scope();
    assert_eq!(builder.target(&name("a")), Some(outer));
    builder.leave_scope();
    builder.leave_scope();
    assert_eq!(builder.target(&name("a")), None);
    assert_eq!(builder.enter_scope(name("a")), Label { index: 3 });
}

#[test]
fn function_is_built_apart_from_the_unit_that_holds_it() {
    let mut builder = Builder::new();
    builder.bind(name("outside"), Binding::Variable(Variable { index: 9 }));
    builder.enter_scope(name("s"));
    builder.push(marker(true));
    builder.begin_function(&vec![name("a"), name("b"), name("a")]);
    // The parameters are bound; the last of a repeated name counts.
    assert_eq!(builder.lookup(&name("a")), Some(Binding::Variable(Variable { index: 2 })));
    assert_eq!(builder.lookup(&name("b")), Some(Binding::Variable(Variable { index: 1 })));
    // Nothing of the surrounding unit is visible.
    assert_eq!(builder.lookup(&name("outside")), None);
    assert_eq!(builder.target(&name("s")), None);
    assert_eq!(builder.new_temporary_variable(), Variable { index: 3 });
    builder.push(marker(false));
    assert_eq!(builder.end_function(), 0);
    // The surrounding unit goes on where it was.
    assert_eq!(builder.lookup(&name("outside")), Some(Binding::Variable(Variable { index: 9 })));
    assert_eq!(builder.target(&name("s")), Some(Label { index: 0 }));
    assert_eq!(builder.lookup(&name("a")), None);
    builder.begin_function(&vec![]);
    assert_eq!(builder.end_function(), 1);
    let block = builder.finish();
    assert_eq!(block.code, vec![marker(true)]);
    assert_eq!(block.variables, 4);
    assert_eq!(
        block.functions,
        vec![
            Function {
                parameters: vec![Variable { index: 0 }, Variable { index: 1 }, Variable { index: 2 }],
                code: vec![marker(false)],
            },
            Function { parameters: vec![], code: vec![] },
        ]
    );
}
