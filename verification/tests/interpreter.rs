use std::rc::Rc;

use nyash_interpreter::assoc::AssocMap;
use nyash_interpreter::ast::{ASTNode, BinaryOperator, FunctionDecl, LiteralValue, PeekArm, UnaryOperator};
use nyash_interpreter::errors::{RuntimeError, Span};
use nyash_interpreter::heap::{display_box, DISPLAY_DEPTH};
use nyash_interpreter::interp::{BoxFactory, BuiltinGroups, ControlFlow, NyashInterpreter};
use nyash_interpreter::state::{BoxDeclaration, StaticBoxState};
use nyash_interpreter::value::NyashBox;

fn span() -> Span {
    Span { line: 1, column: 1 }
}

fn var(name: &str) -> ASTNode {
    ASTNode::Variable { name: name.to_string(), span: span() }
}

fn num(i: i64) -> ASTNode {
    ASTNode::Literal { value: LiteralValue::Integer(i) }
}

fn string(s: &str) -> ASTNode {
    ASTNode::Literal { value: LiteralValue::String(s.to_string()) }
}

fn boolean(b: bool) -> ASTNode {
    ASTNode::Literal { value: LiteralValue::Bool(b) }
}

fn assign(name: &str, value: ASTNode) -> ASTNode {
    ASTNode::Assignment { target: Box::new(var(name)), value: Box::new(value) }
}

fn binop(operator: BinaryOperator, left: ASTNode, right: ASTNode) -> ASTNode {
    ASTNode::BinaryOp { operator, left: Box::new(left), right: Box::new(right) }
}

fn call(object: ASTNode, method: &str, arguments: Vec<ASTNode>) -> ASTNode {
    ASTNode::MethodCall { object: Box::new(object), method: method.to_string(), arguments }
}

fn program(statements: Vec<ASTNode>) -> ASTNode {
    ASTNode::Program { statements }
}

fn text(interp: &NyashInterpreter, v: &NyashBox) -> String {
    display_box(&interp.shared.heap, v, DISPLAY_DEPTH)
}

fn run(statements: Vec<ASTNode>) -> (NyashInterpreter, Result<NyashBox, RuntimeError>) {
    let mut interp = NyashInterpreter::new();
    let r = interp.execute(&program(statements));
    (interp, r)
}

fn method(name: &str, params: &[&str], body: Vec<ASTNode>) -> Rc<FunctionDecl> {
    Rc::new(FunctionDecl {
        name: name.to_string(),
        params: params.iter().map(|p| p.to_string()).collect(),
        body,
        is_static: false,
    })
}

fn test_box_declaration() -> BoxDeclaration {
    let mut methods = AssocMap::new();
    methods.insert(
        "getValue".to_string(),
        method("getValue", &[], vec![ASTNode::Return {
            value: Some(Box::new(ASTNode::FieldAccess { object: Box::new(ASTNode::This), field: "value".to_string() })),
        }]),
    );
    methods.insert(
        "setValue".to_string(),
        method("setValue", &["newValue"], vec![ASTNode::Assignment {
            target: Box::new(ASTNode::ThisField { field: "value".to_string() }),
            value: Box::new(var("newValue")),
        }]),
    );
    BoxDeclaration {
        name: "TestBox".to_string(),
        fields: vec!["value".to_string()],
        methods,
        constructors: AssocMap::new(),
        init_fields: Vec::new(),
        weak_fields: Vec::new(),
        is_interface: false,
        extends: Vec::new(),
        implements: Vec::new(),
        type_parameters: Vec::new(),
    }
}

#[test]
fn test_simple_execution() {
    // x = 42
    // print(x)
    let (interp, result) = run(vec![
        assign("x", num(42)),
        ASTNode::Print { expression: Box::new(var("x")) },
    ]);
    assert!(result.is_ok());
    assert_eq!(interp.output, vec!["42".to_string()]);
}

#[test]
fn test_arithmetic() {
    // result = 10 + 32
    let (interp, result) = run(vec![assign("result", binop(BinaryOperator::Add, num(10), num(32)))]);
    result.unwrap();
    let value = interp.get_variable("result").unwrap();
    assert_eq!(text(&interp, &value), "42");
}

#[test]
fn test_if_statement() {
    // x = true
    // if x { y = "success" } else { y = "failure" }
    let (interp, result) = run(vec![
        assign("x", boolean(true)),
        ASTNode::If {
            condition: Box::new(var("x")),
            then_body: vec![assign("y", string("success"))],
            else_body: Some(vec![assign("y", string("failure"))]),
        },
    ]);
    result.unwrap();
    let value = interp.get_variable("y").unwrap();
    assert_eq!(text(&interp, &value), "success");
}

#[test]
fn test_box_instance_creation() {
    // box TestBox { value  getValue() { return this.value }  setValue(newValue) { this.value = newValue } }
    // obj = new TestBox()
    // obj.value = "test123"
    // result = obj.getValue()
    let mut interp = NyashInterpreter::new();
    interp.register_box_declaration(test_box_declaration()).unwrap();
    let ast = program(vec![
        assign("obj", ASTNode::New { class: "TestBox".to_string(), arguments: vec![], type_arguments: vec![] }),
        ASTNode::Assignment {
            target: Box::new(ASTNode::FieldAccess { object: Box::new(var("obj")), field: "value".to_string() }),
            value: Box::new(string("test123")),
        },
        assign("result", call(var("obj"), "getValue", vec![])),
    ]);
    interp.execute(&ast).unwrap();
    let obj = interp.get_variable("obj").unwrap();
    assert!(matches!(obj, NyashBox::InstanceBox(_)));
    let result = interp.get_variable("result").unwrap();
    assert_eq!(text(&interp, &result), "test123");
}

#[test]
fn setter_method_changes_the_field() {
    let mut interp = NyashInterpreter::new();
    interp.register_box_declaration(test_box_declaration()).unwrap();
    let ast = program(vec![
        assign("obj", ASTNode::New { class: "TestBox".to_string(), arguments: vec![], type_arguments: vec![] }),
        ASTNode::Assignment {
            target: Box::new(ASTNode::FieldAccess { object: Box::new(var("obj")), field: "value".to_string() }),
            value: Box::new(num(0)),
        },
        call(var("obj"), "setValue", vec![num(7)]),
        assign("result", call(var("obj"), "getValue", vec![])),
    ]);
    interp.execute(&ast).unwrap();
    let result = interp.get_variable("result").unwrap();
    assert!(matches!(result, NyashBox::IntegerBox(7)));
}

#[test]
fn undefined_variable_reports_its_span() {
    let mut interp = NyashInterpreter::new();
    let ast = program(vec![ASTNode::Print {
        expression: Box::new(ASTNode::Variable { name: "nope".to_string(), span: Span { line: 3, column: 5 } }),
    }]);
    match interp.execute(&ast) {
        Err(RuntimeError::UndefinedVariableAt { name, span }) => {
            assert_eq!(name, "nope");
            assert_eq!((span.line, span.column), (3, 5));
        },
        other => panic!("unexpected: {:?}", other),
    }
}

#[test]
fn loop_with_break_and_continue() {
    // i = 0  sum = 0
    // loop(i < 10) { i = i + 1; if i == 3 { continue }; if i == 6 { break }; sum = sum + i }
    let (interp, result) = run(vec![
        assign("i", num(0)),
        assign("sum", num(0)),
        ASTNode::Loop {
            condition: Box::new(binop(BinaryOperator::Less, var("i"), num(10))),
            body: vec![
                assign("i", binop(BinaryOperator::Add, var("i"), num(1))),
                ASTNode::If {
                    condition: Box::new(binop(BinaryOperator::Equal, var("i"), num(3))),
                    then_body: vec![ASTNode::Continue],
                    else_body: None,
                },
                ASTNode::If {
                    condition: Box::new(binop(BinaryOperator::Equal, var("i"), num(6))),
                    then_body: vec![ASTNode::Break],
                    else_body: None,
                },
                assign("sum", binop(BinaryOperator::Add, var("sum"), var("i"))),
            ],
        },
    ]);
    result.unwrap();
    // 1 + 2 + 4 + 5
    assert!(matches!(interp.get_variable("sum").unwrap(), NyashBox::IntegerBox(12)));
    assert!(matches!(interp.get_variable("i").unwrap(), NyashBox::IntegerBox(6)));
}

#[test]
fn top_level_break_is_an_error() {
    let (_, result) = run(vec![ASTNode::Break]);
    assert!(matches!(result, Err(RuntimeError::BreakOutsideLoop)));
    let (_, result) = run(vec![ASTNode::Continue]);
    assert!(matches!(result, Err(RuntimeError::BreakOutsideLoop)));
    let (_, result) = run(vec![ASTNode::Return { value: None }]);
    assert!(matches!(result, Err(RuntimeError::ReturnOutsideFunction)));
}

#[test]
fn functions_return_values_and_restore_locals() {
    let f = method("double", &["n"], vec![
        ASTNode::Local { variables: vec!["t".to_string()], initial_values: vec![Some(binop(BinaryOperator::Multiply, var("n"), num(2)))] },
        ASTNode::Return { value: Some(Box::new(var("t"))) },
        assign("never", num(1)),
    ]);
    let (interp, result) = run(vec![
        ASTNode::FunctionDeclaration { decl: f },
        assign("r", ASTNode::FunctionCall { name: "double".to_string(), arguments: vec![num(21)] }),
    ]);
    result.unwrap();
    assert!(matches!(interp.get_variable("r").unwrap(), NyashBox::IntegerBox(42)));
    assert!(interp.get_variable("never").is_err());
    assert!(interp.get_variable("t").is_err());
}

#[test]
fn function_arity_and_undefined_function() {
    let f = method("one", &["a"], vec![ASTNode::Return { value: Some(Box::new(var("a"))) }]);
    let (_, result) = run(vec![
        ASTNode::FunctionDeclaration { decl: f },
        ASTNode::FunctionCall { name: "one".to_string(), arguments: vec![] },
    ]);
    match result {
        Err(RuntimeError::InvalidOperation { message }) => assert_eq!(message, "Function one expects 1 arguments, got 0"),
        other => panic!("unexpected: {:?}", other),
    }
    let (_, result) = run(vec![ASTNode::FunctionCall { name: "missing".to_string(), arguments: vec![] }]);
    assert!(matches!(result, Err(RuntimeError::UndefinedFunction { name }) if name == "missing"));
}

#[test]
fn function_redefinition_is_refused() {
    let f = method("f", &[], vec![]);
    let g = method("f", &[], vec![]);
    let (_, result) = run(vec![ASTNode::FunctionDeclaration { decl: f }, ASTNode::FunctionDeclaration { decl: g }]);
    match result {
        Err(RuntimeError::InvalidOperation { message }) => assert_eq!(message, "Function 'f' is already defined"),
        other => panic!("unexpected: {:?}", other),
    }
}

#[test]
fn peek_selects_the_matching_arm() {
    let peek = |v: ASTNode| ASTNode::PeekExpr {
        scrutinee: Box::new(v),
        arms: vec![
            PeekArm { pattern: LiteralValue::Integer(1), body: string("one") },
            PeekArm { pattern: LiteralValue::String("two".to_string()), body: string("2") },
        ],
        else_expr: Box::new(string("other")),
    };
    let (interp, result) = run(vec![
        assign("a", peek(num(1))),
        assign("b", peek(string("two"))),
        assign("c", peek(boolean(true))),
    ]);
    result.unwrap();
    assert_eq!(text(&interp, &interp.get_variable("a").unwrap()), "one");
    assert_eq!(text(&interp, &interp.get_variable("b").unwrap()), "2");
    assert_eq!(text(&interp, &interp.get_variable("c").unwrap()), "other");
}

#[test]
fn unary_operators() {
    let (interp, result) = run(vec![
        assign("n", ASTNode::UnaryOp { operator: UnaryOperator::Minus, operand: Box::new(num(5)) }),
        assign("b", ASTNode::UnaryOp { operator: UnaryOperator::Not, operand: Box::new(string("")) }),
    ]);
    result.unwrap();
    assert!(matches!(interp.get_variable("n").unwrap(), NyashBox::IntegerBox(-5)));
    assert!(matches!(interp.get_variable("b").unwrap(), NyashBox::BoolBox(true)));
}

#[test]
fn builtin_constructors() {
    let new = |class: &str, args: Vec<ASTNode>| ASTNode::New { class: class.to_string(), arguments: args, type_arguments: vec![] };
    let (interp, result) = run(vec![
        assign("s", new("StringBox", vec![num(12)])),
        assign("i", new("IntegerBox", vec![string("-34")])),
        assign("b", new("BoolBox", vec![string("false")])),
        assign("a", new("ArrayBox", vec![])),
        assign("m", new("MapBox", vec![])),
    ]);
    result.unwrap();
    assert!(matches!(interp.get_variable("s").unwrap(), NyashBox::StringBox(s) if s == "12"));
    assert!(matches!(interp.get_variable("i").unwrap(), NyashBox::IntegerBox(-34)));
    assert!(matches!(interp.get_variable("b").unwrap(), NyashBox::BoolBox(false)));
    assert!(matches!(interp.get_variable("a").unwrap(), NyashBox::ArrayBox(_)));
    assert!(matches!(interp.get_variable("m").unwrap(), NyashBox::MapBox(_)));

    let (_, result) = run(vec![new("IntegerBox", vec![string("x1")])]);
    match result {
        Err(RuntimeError::TypeError { message }) => assert_eq!(message, "Cannot convert 'x1' to integer"),
        other => panic!("unexpected: {:?}", other),
    }
    let (_, result) = run(vec![new("StringBox", vec![])]);
    match result {
        Err(RuntimeError::InvalidOperation { message }) => assert_eq!(message, "StringBox constructor expects 1 argument, got 0"),
        other => panic!("unexpected: {:?}", other),
    }
    let (_, result) = run(vec![new("ArrayBox", vec![num(1)])]);
    match result {
        Err(RuntimeError::InvalidOperation { message }) => assert_eq!(message, "ArrayBox constructor expects 0 arguments, got 1"),
        other => panic!("unexpected: {:?}", other),
    }
    let (_, result) = run(vec![new("Nothing", vec![])]);
    assert!(matches!(result, Err(RuntimeError::UndefinedClass { name }) if name == "Nothing"));
}

#[test]
fn disabled_groups_are_not_builtin() {
    let mut interp = NyashInterpreter::new_with_groups(BuiltinGroups { basic: true, collections: false });
    let r = interp.execute(&program(vec![ASTNode::New { class: "ArrayBox".to_string(), arguments: vec![], type_arguments: vec![] }]));
    assert!(matches!(r, Err(RuntimeError::UndefinedClass { .. })));
}

#[test]
fn factories_make_instances() {
    let mut interp = NyashInterpreter::new();
    interp.register_box_factory(BoxFactory { box_types: vec!["Widget".to_string()] });
    let r = interp.execute(&program(vec![assign("w", ASTNode::New { class: "Widget".to_string(), arguments: vec![], type_arguments: vec![] })]));
    r.unwrap();
    let w = interp.get_variable("w").unwrap();
    assert_eq!(text(&interp, &w), "<Widget instance #0>");
}

#[test]
fn constructor_birth_runs() {
    let mut ctors = AssocMap::new();
    ctors.insert("birth/1".to_string(), method("birth", &["v"], vec![ASTNode::Assignment {
        target: Box::new(ASTNode::MeField { field: "value".to_string() }),
        value: Box::new(var("v")),
    }]));
    let mut decl = test_box_declaration();
    decl.constructors = ctors;
    let mut interp = NyashInterpreter::new();
    interp.register_box_declaration(decl).unwrap();
    let ast = program(vec![
        assign("o", ASTNode::New { class: "TestBox".to_string(), arguments: vec![string("hi")], type_arguments: vec![] }),
        assign("r", call(var("o"), "getValue", vec![])),
    ]);
    interp.execute(&ast).unwrap();
    assert_eq!(text(&interp, &interp.get_variable("r").unwrap()), "hi");
    let bad = program(vec![ASTNode::New { class: "TestBox".to_string(), arguments: vec![], type_arguments: vec![] }]);
    assert!(interp.execute(&bad).is_ok());
    let bad = program(vec![ASTNode::New { class: "TestBox".to_string(), arguments: vec![num(1), num(2)], type_arguments: vec![] }]);
    match interp.execute(&bad) {
        Err(RuntimeError::InvalidOperation { message }) => assert_eq!(message, "No constructor found for TestBox with 2 arguments"),
        other => panic!("unexpected: {:?}", other),
    }
}

#[test]
fn constructor_overload_is_refused() {
    let mut ctors = AssocMap::new();
    ctors.insert("birth/0".to_string(), method("birth", &[], vec![]));
    ctors.insert("birth/1".to_string(), method("birth", &["a"], vec![]));
    let mut decl = test_box_declaration();
    decl.constructors = ctors;
    let mut interp = NyashInterpreter::new();
    match interp.register_box_declaration(decl) {
        Err(RuntimeError::InvalidOperation { message }) => {
            assert!(message.starts_with("\u{1F6A8} CONSTRUCTOR OVERLOAD FORBIDDEN: Box 'TestBox' has 2 constructors: [birth/0, birth/1]."));
        },
        other => panic!("unexpected: {:?}", other),
    }
}

fn register_main(interp: &mut NyashInterpreter, init: Option<Vec<ASTNode>>, main_params: &[&str]) {
    let mut methods = AssocMap::new();
    methods.insert("main".to_string(), method("main", main_params, vec![ASTNode::Return {
        value: Some(Box::new(ASTNode::MeField { field: "greeting".to_string() })),
    }]));
    interp
        .register_static_box_declaration(
            "Main".to_string(),
            vec![],
            methods,
            vec!["greeting".to_string()],
            vec![],
            init.map(Rc::new),
            vec![],
            vec![],
            vec![],
        )
        .unwrap();
}

#[test]
fn static_main_runs_after_the_program() {
    let mut interp = NyashInterpreter::new();
    register_main(&mut interp, Some(vec![ASTNode::Assignment {
        target: Box::new(ASTNode::MeField { field: "greeting".to_string() }),
        value: Box::new(string("hello")),
    }]), &[]);
    let r = interp.execute(&program(vec![])).unwrap();
    assert!(matches!(r, NyashBox::StringBox(s) if s == "hello"));
    assert!(matches!(
        interp.shared.static_box_definitions.get(&"Main".to_string()).unwrap().initialization_state,
        StaticBoxState::Initialized
    ));
}

#[test]
fn static_main_with_one_parameter_gets_an_array() {
    let mut interp = NyashInterpreter::new();
    register_main(&mut interp, None, &["args"]);
    let r = interp.execute(&program(vec![])).unwrap();
    assert!(matches!(r, NyashBox::VoidBox));
}

#[test]
fn static_box_initialized_once_and_circular_dependency() {
    let mut interp = NyashInterpreter::new();
    register_main(&mut interp, None, &[]);
    interp.ensure_static_box_initialized("Main").unwrap();
    let heap_len = interp.shared.heap.len();
    interp.ensure_static_box_initialized("Main").unwrap();
    assert_eq!(interp.shared.heap.len(), heap_len);
    assert!(matches!(interp.ensure_static_box_initialized("Other"), Err(RuntimeError::UndefinedClass { .. })));

    // A static initializer that reaches its own box is a circular dependency.
    let mut interp = NyashInterpreter::new();
    register_main(&mut interp, Some(vec![ASTNode::FieldAccess {
        object: Box::new(var("Main")),
        field: "greeting".to_string(),
    }]), &[]);
    match interp.ensure_static_box_initialized("Main") {
        Err(RuntimeError::RuntimeFailure { message }) => {
            assert_eq!(message, "Circular dependency detected during initialization of static box 'Main'")
        },
        other => panic!("unexpected: {:?}", other),
    }
}

#[test]
fn static_box_field_access() {
    let mut interp = NyashInterpreter::new();
    register_main(&mut interp, Some(vec![ASTNode::Assignment {
        target: Box::new(ASTNode::MeField { field: "greeting".to_string() }),
        value: Box::new(string("hey")),
    }]), &[]);
    let r = interp.execute_field_access(&var("Main"), &"greeting".to_string(), 100).unwrap();
    assert!(matches!(r, NyashBox::StringBox(s) if s == "hey"));
}

#[test]
fn universal_methods() {
    let (interp, result) = run(vec![
        assign("t", call(num(5), "type", vec![])),
        assign("s", call(boolean(true), "toString", vec![])),
        assign("e", call(string("a"), "equals", vec![string("a")])),
        assign("a", ASTNode::New { class: "ArrayBox".to_string(), arguments: vec![], type_arguments: vec![] }),
        call(var("a"), "push", vec![num(1)]),
        assign("c", call(var("a"), "clone", vec![])),
        call(var("c"), "push", vec![num(2)]),
        assign("la", call(var("a"), "length", vec![])),
        assign("lc", call(var("c"), "length", vec![])),
    ]);
    result.unwrap();
    assert_eq!(text(&interp, &interp.get_variable("t").unwrap()), "IntegerBox");
    assert_eq!(text(&interp, &interp.get_variable("s").unwrap()), "true");
    assert!(matches!(interp.get_variable("e").unwrap(), NyashBox::BoolBox(true)));
    assert!(matches!(interp.get_variable("la").unwrap(), NyashBox::IntegerBox(1)));
    assert!(matches!(interp.get_variable("lc").unwrap(), NyashBox::IntegerBox(2)));
    let (_, result) = run(vec![call(ASTNode::Literal { value: LiteralValue::Void }, "foo", vec![])]);
    match result {
        Err(RuntimeError::TypeError { message }) => assert_eq!(message, "Cannot call method 'foo' on non-instance type"),
        other => panic!("unexpected: {:?}", other),
    }
}

#[test]
fn weak_field_reads_null_after_fini() {
    let mut interp = NyashInterpreter::new();
    let holder = BoxDeclaration {
        name: "Holder".to_string(),
        fields: vec!["ref".to_string()],
        methods: AssocMap::new(),
        constructors: AssocMap::new(),
        init_fields: Vec::new(),
        weak_fields: vec!["ref".to_string()],
        is_interface: false,
        extends: Vec::new(),
        implements: Vec::new(),
        type_parameters: Vec::new(),
    };
    interp.register_box_declaration(holder).unwrap();
    interp.register_box_declaration(test_box_declaration()).unwrap();
    let ast = program(vec![
        assign("t", ASTNode::New { class: "TestBox".to_string(), arguments: vec![], type_arguments: vec![] }),
        assign("h", ASTNode::New { class: "Holder".to_string(), arguments: vec![], type_arguments: vec![] }),
        ASTNode::Assignment {
            target: Box::new(ASTNode::FieldAccess { object: Box::new(var("h")), field: "ref".to_string() }),
            value: Box::new(var("t")),
        },
        assign("before", ASTNode::FieldAccess { object: Box::new(var("h")), field: "ref".to_string() }),
        call(var("t"), "fini", vec![]),
        call(var("t"), "fini", vec![]),
        assign("after", ASTNode::FieldAccess { object: Box::new(var("h")), field: "ref".to_string() }),
    ]);
    interp.execute(&ast).unwrap();
    assert!(matches!(interp.get_variable("before").unwrap(), NyashBox::InstanceBox(0)));
    assert!(matches!(interp.get_variable("after").unwrap(), NyashBox::NullBox));
    assert_eq!(interp.invalidated_ids, vec![0u64]);
}

#[test]
fn missing_method_and_field_errors() {
    let mut interp = NyashInterpreter::new();
    interp.register_box_declaration(test_box_declaration()).unwrap();
    let ast = program(vec![
        assign("o", ASTNode::New { class: "TestBox".to_string(), arguments: vec![], type_arguments: vec![] }),
        call(var("o"), "nothing", vec![]),
    ]);
    match interp.execute(&ast) {
        Err(RuntimeError::InvalidOperation { message }) => assert_eq!(message, "Method 'nothing' not found in TestBox"),
        other => panic!("unexpected: {:?}", other),
    }
    let ast = program(vec![ASTNode::FieldAccess { object: Box::new(var("o")), field: "zzz".to_string() }]);
    match interp.execute(&ast) {
        Err(RuntimeError::InvalidOperation { message }) => assert_eq!(message, "Field 'zzz' not found in TestBox"),
        other => panic!("unexpected: {:?}", other),
    }
    let ast = program(vec![ASTNode::FieldAccess { object: Box::new(num(1)), field: "zzz".to_string() }]);
    match interp.execute(&ast) {
        Err(RuntimeError::TypeError { message }) => {
            assert_eq!(message, "Cannot access field 'zzz' on non-instance type. Type: IntegerBox")
        },
        other => panic!("unexpected: {:?}", other),
    }
    let ast = program(vec![call(var("o"), "getValue", vec![num(1)])]);
    match interp.execute(&ast) {
        Err(RuntimeError::InvalidOperation { message }) => assert_eq!(message, "Method getValue expects 0 arguments, got 1"),
        other => panic!("unexpected: {:?}", other),
    }
}

#[test]
fn me_outside_a_method() {
    let (_, result) = run(vec![ASTNode::Me]);
    match result {
        Err(RuntimeError::InvalidOperation { message }) => assert_eq!(message, "'me' is only available inside methods"),
        other => panic!("unexpected: {:?}", other),
    }
}

#[test]
fn fuel_runs_out() {
    let mut interp = NyashInterpreter::new();
    let r = interp.execute_expression(&num(1), 0);
    match r {
        Err(RuntimeError::RuntimeFailure { message }) => assert_eq!(message, "evaluation step limit reached"),
        other => panic!("unexpected: {:?}", other),
    }
    let r = interp.execute_statement(&ASTNode::Loop { condition: Box::new(boolean(true)), body: vec![] }, 50);
    assert!(matches!(r, Err(RuntimeError::RuntimeFailure { .. })));
    assert!(matches!(interp.control_flow, ControlFlow::Normal));
}

#[test]
fn statements_as_expressions_are_refused() {
    let mut interp = NyashInterpreter::new();
    let r = interp.execute_expression(&ASTNode::Break, 10);
    match r {
        Err(RuntimeError::InvalidOperation { message }) => assert_eq!(message, "Cannot execute Break as expression"),
        other => panic!("unexpected: {:?}", other),
    }
}

fn declaration(name: &str, fields: &[&str], methods: Vec<(&str, Rc<FunctionDecl>)>, extends: &[&str]) -> BoxDeclaration {
    let mut m = AssocMap::new();
    for (k, f) in methods {
        m.insert(k.to_string(), f);
    }
    BoxDeclaration {
        name: name.to_string(),
        fields: fields.iter().map(|f| f.to_string()).collect(),
        methods: m,
        constructors: AssocMap::new(),
        init_fields: Vec::new(),
        weak_fields: Vec::new(),
        is_interface: false,
        extends: extends.iter().map(|f| f.to_string()).collect(),
        implements: Vec::new(),
        type_parameters: Vec::new(),
    }
}

fn from_call(parent: &str, method: &str, arguments: Vec<ASTNode>) -> ASTNode {
    ASTNode::FromCall { parent: parent.to_string(), method: method.to_string(), arguments }
}

fn ret(e: ASTNode) -> ASTNode {
    ASTNode::Return { value: Some(Box::new(e)) }
}

#[test]
fn delegation_inherits_fields_and_methods() {
    let mut interp = NyashInterpreter::new();
    interp.register_box_declaration(declaration("Animal", &["name"], vec![
        ("speak", method("speak", &[], vec![ret(string("..."))])),
        ("describe", method("describe", &[], vec![ret(binop(BinaryOperator::Add, string("animal:"), call(ASTNode::Me, "speak", vec![])))])),
    ], &[])).unwrap();
    interp.register_box_declaration(declaration("Dog", &["tricks"], vec![
        ("speak", method("speak", &[], vec![ret(binop(BinaryOperator::Add, from_call("Animal", "speak", vec![]), string("woof")))])),
    ], &["Animal"])).unwrap();
    let ast = program(vec![
        assign("d", ASTNode::New { class: "Dog".to_string(), arguments: vec![], type_arguments: vec![] }),
        ASTNode::Assignment {
            target: Box::new(ASTNode::FieldAccess { object: Box::new(var("d")), field: "name".to_string() }),
            value: Box::new(string("rex")),
        },
        assign("s", call(var("d"), "speak", vec![])),
        assign("t", call(var("d"), "describe", vec![])),
        assign("n", ASTNode::FieldAccess { object: Box::new(var("d")), field: "name".to_string() }),
    ]);
    interp.execute(&ast).unwrap();
    assert_eq!(text(&interp, &interp.get_variable("s").unwrap()), "...woof");
    assert_eq!(text(&interp, &interp.get_variable("t").unwrap()), "animal:...woof");
    assert_eq!(text(&interp, &interp.get_variable("n").unwrap()), "rex");
}

#[test]
fn delegation_errors() {
    let mut interp = NyashInterpreter::new();
    let mut iface = declaration("Shape", &[], vec![], &[]);
    iface.is_interface = true;
    interp.register_box_declaration(iface).unwrap();
    interp.register_box_declaration(declaration("Square", &[], vec![
        ("bad", method("bad", &[], vec![ret(from_call("Circle", "area", vec![]))])),
    ], &["Shape"])).unwrap();
    let r = interp.execute(&program(vec![ASTNode::New { class: "Shape".to_string(), arguments: vec![], type_arguments: vec![] }]));
    match r {
        Err(RuntimeError::InvalidOperation { message }) => assert_eq!(message, "Cannot instantiate interface 'Shape'"),
        other => panic!("unexpected: {:?}", other),
    }
    let r = interp.execute(&program(vec![ASTNode::New { class: "Square".to_string(), arguments: vec![], type_arguments: vec![] }]));
    match r {
        Err(RuntimeError::InvalidOperation { message }) => assert_eq!(message, "Cannot extend interface 'Shape'. Use 'implements' instead."),
        other => panic!("unexpected: {:?}", other),
    }
    let r = interp.execute(&program(vec![from_call("Shape", "x", vec![])]));
    match r {
        Err(RuntimeError::InvalidOperation { message }) => assert_eq!(message, "'from' can only be used inside methods"),
        other => panic!("unexpected: {:?}", other),
    }
}

#[test]
fn delegation_to_a_builtin_box() {
    let mut interp = NyashInterpreter::new();
    let mut my_str = declaration("MyStr", &[], vec![], &["StringBox"]);
    let mut ctors = AssocMap::new();
    ctors.insert("birth/1".to_string(), method("birth", &["s"], vec![from_call("StringBox", "birth", vec![var("s")])]));
    my_str.constructors = ctors;
    interp.register_box_declaration(my_str).unwrap();
    let ast = program(vec![
        assign("m", ASTNode::New { class: "MyStr".to_string(), arguments: vec![string("hello")], type_arguments: vec![] }),
        assign("n", call(var("m"), "length", vec![])),
        assign("u", call(var("m"), "toUpper", vec![])),
    ]);
    interp.execute(&ast).unwrap();
    assert!(matches!(interp.get_variable("n").unwrap(), NyashBox::IntegerBox(5)));
    assert_eq!(text(&interp, &interp.get_variable("u").unwrap()), "HELLO");
}

#[test]
fn generic_boxes() {
    let mut interp = NyashInterpreter::new();
    let mut cell = declaration("Cell", &["item"], vec![], &[]);
    cell.type_parameters = vec!["T".to_string()];
    interp.register_box_declaration(cell).unwrap();
    let new_cell = |args: Vec<&str>| ASTNode::New {
        class: "Cell".to_string(),
        arguments: vec![],
        type_arguments: args.iter().map(|a| a.to_string()).collect(),
    };
    interp.execute(&program(vec![assign("c", new_cell(vec!["IntegerBox"]))])).unwrap();
    assert_eq!(text(&interp, &interp.get_variable("c").unwrap()), "<Cell_IntegerBox instance #0>");
    match interp.execute(&program(vec![new_cell(vec![])])) {
        Err(RuntimeError::TypeError { message }) => {
            assert_eq!(message, "Generic class 'Cell' expects 1 type parameters, got 0. Expected: <T>, Got: <>")
        },
        other => panic!("unexpected: {:?}", other),
    }
    match interp.execute(&program(vec![new_cell(vec!["Nope"])])) {
        Err(RuntimeError::TypeError { message }) => assert_eq!(message, "Unknown type 'Nope'"),
        other => panic!("unexpected: {:?}", other),
    }
    interp.execute(&program(vec![new_cell(vec!["Cell"])])).unwrap();
}

#[test]
fn implemented_interfaces_are_checked() {
    let mut interp = NyashInterpreter::new();
    let mut iface = declaration("Greeter", &[], vec![("greet", method("greet", &[], vec![]))], &[]);
    iface.is_interface = true;
    interp.register_box_declaration(iface).unwrap();
    interp.register_box_declaration(declaration("Plain", &[], vec![], &[])).unwrap();
    let mut good = declaration("Good", &[], vec![("greet", method("greet", &[], vec![ret(string("hi"))]))], &[]);
    good.implements = vec!["Greeter".to_string()];
    interp.register_box_declaration(good).unwrap();
    let mut lazy = declaration("Lazy", &[], vec![], &[]);
    lazy.implements = vec!["Greeter".to_string()];
    interp.register_box_declaration(lazy).unwrap();
    let mut wrong = declaration("Wrong", &[], vec![], &[]);
    wrong.implements = vec!["Plain".to_string()];
    interp.register_box_declaration(wrong).unwrap();
    let mut ghost = declaration("Ghostly", &[], vec![], &[]);
    ghost.implements = vec!["Nowhere".to_string()];
    interp.register_box_declaration(ghost).unwrap();
    let new = |c: &str| ASTNode::New { class: c.to_string(), arguments: vec![], type_arguments: vec![] };

    interp.execute(&program(vec![assign("g", new("Good")), assign("s", call(var("g"), "greet", vec![]))])).unwrap();
    assert_eq!(text(&interp, &interp.get_variable("s").unwrap()), "hi");
    match interp.execute(&program(vec![new("Lazy")])) {
        Err(RuntimeError::InvalidOperation { message }) => {
            assert_eq!(message, "Class 'Lazy' must implement method 'greet' from interface 'Greeter'")
        },
        other => panic!("unexpected: {:?}", other),
    }
    match interp.execute(&program(vec![new("Wrong")])) {
        Err(RuntimeError::InvalidOperation { message }) => assert_eq!(message, "'Plain' is not an interface"),
        other => panic!("unexpected: {:?}", other),
    }
    match interp.execute(&program(vec![new("Ghostly")])) {
        Err(RuntimeError::UndefinedClass { name }) => assert_eq!(name, "Nowhere"),
        other => panic!("unexpected: {:?}", other),
    }
}

#[test]
fn fresh_instance_fields_are_void_and_inherited() {
    let mut interp = NyashInterpreter::new();
    let mut base = declaration("Base", &["a"], vec![], &[]);
    base.init_fields = vec!["a".to_string(), "b".to_string()];
    interp.register_box_declaration(base).unwrap();
    interp.register_box_declaration(declaration("Derived", &["c"], vec![], &["Base", "StringBox"])).unwrap();
    let ast = program(vec![
        assign("d", ASTNode::New { class: "Derived".to_string(), arguments: vec![], type_arguments: vec![] }),
        assign("x", ASTNode::FieldAccess { object: Box::new(var("d")), field: "a".to_string() }),
        assign("y", ASTNode::FieldAccess { object: Box::new(var("d")), field: "b".to_string() }),
        assign("z", ASTNode::FieldAccess { object: Box::new(var("d")), field: "c".to_string() }),
    ]);
    interp.execute(&ast).unwrap();
    for v in ["x", "y", "z"] {
        assert!(matches!(interp.get_variable(v).unwrap(), NyashBox::VoidBox));
    }
    let decl = declaration("Derived", &["c"], vec![], &["Base", "StringBox"]);
    let (fields, methods) = interp.resolve_inheritance(&decl, 100).unwrap();
    assert_eq!(fields, vec!["a".to_string(), "b".to_string(), "c".to_string()]);
    assert_eq!(methods.len(), 0);
    match interp.execute(&program(vec![ASTNode::New { class: "Base".to_string(), arguments: vec![num(1)], type_arguments: vec![] }])) {
        Err(RuntimeError::InvalidOperation { message }) => assert_eq!(message, "No constructor found for Base with 1 arguments"),
        other => panic!("unexpected: {:?}", other),
    }
    match interp.execute(&program(vec![ASTNode::New { class: "Missing".to_string(), arguments: vec![], type_arguments: vec![] }])) {
        Err(RuntimeError::UndefinedClass { name }) => assert_eq!(name, "Missing"),
        other => panic!("unexpected: {:?}", other),
    }
}

#[test]
fn from_call_errors() {
    let mut interp = NyashInterpreter::new();
    interp.register_box_declaration(declaration("Base", &[], vec![("hello", method("hello", &[], vec![ret(string("base"))]))], &[])).unwrap();
    interp.register_box_declaration(declaration("Other", &[], vec![], &[])).unwrap();
    interp.register_box_declaration(declaration("Kid", &[], vec![
        ("ok", method("ok", &[], vec![ret(from_call("Base", "hello", vec![]))])),
        ("stranger", method("stranger", &[], vec![ret(from_call("Other", "hello", vec![]))])),
        ("missing", method("missing", &[], vec![ret(from_call("Base", "nothing", vec![]))])),
        ("ctor", method("ctor", &[], vec![ret(from_call("Base", "birth", vec![num(1)]))])),
    ], &["Base"])).unwrap();
    interp.execute(&program(vec![
        assign("k", ASTNode::New { class: "Kid".to_string(), arguments: vec![], type_arguments: vec![] }),
        assign("s", call(var("k"), "ok", vec![])),
    ])).unwrap();
    assert_eq!(text(&interp, &interp.get_variable("s").unwrap()), "base");
    let expect = |interp: &mut NyashInterpreter, m: &str, msg: &str| {
        match interp.execute(&program(vec![call(var("k"), m, vec![])])) {
            Err(RuntimeError::InvalidOperation { message }) => assert_eq!(message, msg),
            other => panic!("unexpected: {:?}", other),
        }
    };
    expect(&mut interp, "stranger", "Class 'Kid' does not delegate to 'Other'. Use 'box Kid from Other' to establish delegation.");
    expect(&mut interp, "missing", "Method 'nothing' not found in parent class 'Base'");
    expect(&mut interp, "ctor", "No constructor found for parent class 'Base' with 1 arguments");
}

#[test]
fn program_of_expressions_gives_its_last_value() {
    let (interp, result) = run(vec![num(1), binop(BinaryOperator::Add, num(2), num(3))]);
    assert!(matches!(result, Ok(NyashBox::IntegerBox(5))));
    assert!(interp.output.is_empty());
    let (_, result) = run(vec![]);
    assert!(matches!(result, Ok(NyashBox::VoidBox)));
    let (_, result) = run(vec![num(1), var("missing"), num(2)]);
    assert!(matches!(result, Err(RuntimeError::UndefinedVariableAt { name, .. }) if name == "missing"));
}

#[test]
fn static_box_method_calls() {
    let mut interp = NyashInterpreter::new();
    register_main(&mut interp, None, &[]);
    let mut helpers = AssocMap::new();
    helpers.insert("twice".to_string(), method("twice", &["n"], vec![ret(binop(BinaryOperator::Multiply, var("n"), num(2)))]));
    interp
        .register_static_box_declaration("Util".to_string(), vec![], helpers, vec![], vec![], None, vec![], vec![], vec![])
        .unwrap();
    interp.execute(&program(vec![assign("x", call(var("Util"), "twice", vec![num(21)]))])).unwrap();
    assert!(matches!(interp.get_variable("x").unwrap(), NyashBox::IntegerBox(42)));
    match interp.execute(&program(vec![call(var("Util"), "nope", vec![])])) {
        Err(RuntimeError::InvalidOperation { message }) => assert_eq!(message, "Method 'nope' not found in static box 'Util'"),
        other => panic!("unexpected: {:?}", other),
    }
}

#[test]
fn builtin_birth_and_constructor_errors() {
    let mut interp = NyashInterpreter::new();
    let mut my_int = declaration("MyInt", &[], vec![], &["IntegerBox"]);
    let mut ctors = AssocMap::new();
    ctors.insert("birth/1".to_string(), method("birth", &["s"], vec![from_call("IntegerBox", "birth", vec![var("s")])]));
    my_int.constructors = ctors;
    interp.register_box_declaration(my_int).unwrap();
    let mut odd = declaration("Odd", &[], vec![], &[]);
    let mut ctors = AssocMap::new();
    ctors.insert("birth/1".to_string(), method("birth", &["a", "b"], vec![]));
    odd.constructors = ctors;
    interp.register_box_declaration(odd).unwrap();
    let new = |c: &str, a: ASTNode| ASTNode::New { class: c.to_string(), arguments: vec![a], type_arguments: vec![] };
    interp.execute(&program(vec![new("MyInt", string("12"))])).unwrap();
    match interp.execute(&program(vec![new("MyInt", string("abc"))])) {
        Err(RuntimeError::TypeError { message }) => assert_eq!(message, "Cannot convert 'abc' to integer"),
        other => panic!("unexpected: {:?}", other),
    }
    match interp.execute(&program(vec![new("Odd", num(1))])) {
        Err(RuntimeError::InvalidOperation { message }) => assert_eq!(message, "Constructor expects 2 arguments, got 1"),
        other => panic!("unexpected: {:?}", other),
    }
}

#[test]
fn static_box_cannot_be_instantiated() {
    let mut interp = NyashInterpreter::new();
    interp
        .register_static_box_declaration("Util".to_string(), vec![], AssocMap::new(), vec![], vec![], None, vec![], vec![], vec![])
        .unwrap();
    match interp.execute_new(&"Util".to_string(), &vec![], &vec![], 100) {
        Err(RuntimeError::InvalidOperation { message }) => {
            assert_eq!(message, "Cannot instantiate static box 'Util'. Static boxes cannot be instantiated.")
        },
        other => panic!("unexpected: {:?}", other),
    }
}

#[test]
fn pending_return_stops_the_program() {
    let (interp, result) = run(vec![
        assign("x", num(1)),
        ASTNode::Return { value: Some(Box::new(num(2))) },
        assign("x", num(3)),
    ]);
    assert!(matches!(result, Err(RuntimeError::ReturnOutsideFunction)));
    assert!(matches!(interp.get_variable("x").unwrap(), NyashBox::IntegerBox(1)));
}

#[test]
fn program_restores_the_discard_flag() {
    let mut interp = NyashInterpreter::new();
    let before = interp.discard_context;
    let r = interp.execute(&program(vec![assign("x", num(42)), ASTNode::Print { expression: Box::new(var("x")) }]));
    assert!(matches!(r, Ok(NyashBox::VoidBox)));
    assert_eq!(interp.discard_context, before);
    assert_eq!(interp.output, vec!["42".to_string()]);
}

#[test]
fn static_box_without_initializer_gets_a_singleton() {
    let mut interp = NyashInterpreter::new();
    interp
        .register_static_box_declaration("Util".to_string(), vec![], AssocMap::new(), vec!["count".to_string()], vec![], None, vec![], vec![], vec![])
        .unwrap();
    interp.ensure_static_box_initialized("Util").unwrap();
    assert!(matches!(
        interp.shared.static_box_definitions.get(&"Util".to_string()).unwrap().initialization_state,
        StaticBoxState::Initialized
    ));
    let statics = match interp.shared.global_box.fields.get(&"statics".to_string()) {
        Some(NyashBox::InstanceBox(h)) => *h,
        other => panic!("unexpected: {:?}", other),
    };
    let singleton = match &interp.shared.heap[statics] {
        nyash_interpreter::heap::HeapObject::Instance(inst) => match inst.fields.get(&"Util".to_string()) {
            Some(NyashBox::InstanceBox(h)) => *h,
            other => panic!("unexpected: {:?}", other),
        },
        _ => panic!("statics is not an instance"),
    };
    match &interp.shared.heap[singleton] {
        nyash_interpreter::heap::HeapObject::Instance(inst) => {
            assert_eq!(inst.class_name, "Util_singleton");
            assert!(matches!(inst.fields.get(&"count".to_string()), Some(NyashBox::VoidBox)));
        },
        _ => panic!("the singleton is not an instance"),
    }
}

#[test]
fn second_fini_gives_void() {
    let mut interp = NyashInterpreter::new();
    interp.register_box_declaration(test_box_declaration()).unwrap();
    let r = interp.execute(&program(vec![
        assign("t", ASTNode::New { class: "TestBox".to_string(), arguments: vec![], type_arguments: vec![] }),
        call(var("t"), "fini", vec![]),
        call(var("t"), "fini", vec![]),
    ]));
    assert!(matches!(r, Ok(NyashBox::VoidBox)));
    assert_eq!(interp.invalidated_ids, vec![0u64]);
}

#[test]
fn instance_method_with_a_simple_body() {
    let mut interp = NyashInterpreter::new();
    interp
        .register_box_declaration(declaration("Doubler", &[], vec![(
            "twice",
            method("twice", &["n"], vec![ret(binop(BinaryOperator::Multiply, var("n"), num(2)))]),
        )], &[]))
        .unwrap();
    let r = interp.execute(&program(vec![
        assign("d", ASTNode::New { class: "Doubler".to_string(), arguments: vec![], type_arguments: vec![] }),
        assign("x", call(var("d"), "twice", vec![num(21)])),
    ]));
    assert!(matches!(r, Ok(NyashBox::IntegerBox(42))));
    assert!(matches!(interp.get_variable("x").unwrap(), NyashBox::IntegerBox(42)));
    assert!(matches!(interp.get_variable("d").unwrap(), NyashBox::InstanceBox(_)));
}

#[test]
fn clone_copies_an_array() {
    let (interp, result) = run(vec![
        assign("a", ASTNode::New { class: "ArrayBox".to_string(), arguments: vec![], type_arguments: vec![] }),
        call(var("a"), "push", vec![num(1)]),
        assign("c", call(var("a"), "clone", vec![])),
        call(var("c"), "push", vec![num(2)]),
        assign("n", call(var("a"), "length", vec![])),
        assign("m", call(var("c"), "length", vec![])),
    ]);
    assert!(result.is_ok());
    assert!(matches!(interp.get_variable("n").unwrap(), NyashBox::IntegerBox(1)));
    assert!(matches!(interp.get_variable("m").unwrap(), NyashBox::IntegerBox(2)));
}

#[test]
fn static_function_calls_with_nested_arguments() {
    let mut interp = NyashInterpreter::new();
    let mut fns = AssocMap::new();
    fns.insert("add".to_string(), method("add", &["a", "b"], vec![ret(binop(BinaryOperator::Add, var("a"), var("b")))]));
    interp.shared.static_functions.insert("Math".to_string(), fns);
    interp
        .execute(&program(vec![assign("x", call(var("Math"), "add", vec![num(1), call(var("Math"), "add", vec![num(2), num(3)])]))]))
        .unwrap();
    assert!(matches!(interp.get_variable("x").unwrap(), NyashBox::IntegerBox(6)));
    match interp.execute(&program(vec![call(var("Math"), "add", vec![num(1)])])) {
        Err(RuntimeError::InvalidOperation { message }) => assert_eq!(message, "Static method Math.add expects 2 arguments, got 1"),
        other => panic!("unexpected: {:?}", other),
    }
}

#[test]
fn method_arguments_with_calls_run_in_order() {
    let (interp, result) = run(vec![
        assign("a", ASTNode::New { class: "ArrayBox".to_string(), arguments: vec![], type_arguments: vec![] }),
        assign("b", ASTNode::New { class: "ArrayBox".to_string(), arguments: vec![], type_arguments: vec![] }),
        call(var("b"), "push", vec![num(7)]),
        call(var("a"), "push", vec![call(var("b"), "get", vec![num(0)])]),
        assign("n", call(call(var("a"), "get", vec![num(0)]), "toString", vec![])),
    ]);
    assert!(result.is_ok());
    assert!(matches!(interp.get_variable("n").unwrap(), NyashBox::StringBox(s) if s == "7"));
}

#[test]
fn redeclared_static_box_is_initialized_again() {
    let mut interp = NyashInterpreter::new();
    let init = || vec![ASTNode::Assignment {
        target: Box::new(ASTNode::MeField { field: "greeting".to_string() }),
        value: Box::new(string("hello")),
    }];
    register_main(&mut interp, Some(init()), &[]);
    interp.ensure_static_box_initialized("Main").unwrap();
    let heap_before = interp.shared.heap.len();
    register_main(&mut interp, Some(init()), &[]);
    assert!(matches!(
        interp.shared.static_box_definitions.get(&"Main".to_string()).unwrap().initialization_state,
        StaticBoxState::NotInitialized
    ));
    interp.ensure_static_box_initialized("Main").unwrap();
    assert!(interp.shared.heap.len() > heap_before);
    let r = interp.execute(&program(vec![])).unwrap();
    assert!(matches!(r, NyashBox::StringBox(s) if s == "hello"));
}

#[test]
fn local_declarations_take_their_values_in_order() {
    let (interp, result) = run(vec![
        ASTNode::Local {
            variables: vec!["a".to_string(), "b".to_string()],
            initial_values: vec![Some(num(1)), None],
        },
        assign("c", var("a")),
    ]);
    assert!(result.is_ok());
    assert!(matches!(interp.get_variable("c").unwrap(), NyashBox::IntegerBox(1)));
}
