use nyash_interpreter::ast::{BinaryOperator, UnaryOperator};
use nyash_interpreter::errors::{RuntimeError, Span};
use nyash_interpreter::heap::{display_box, HeapObject, DISPLAY_DEPTH};
use nyash_interpreter::imports::{include_decision, resolve_include_path};
use nyash_interpreter::interp::NyashInterpreter;
use nyash_interpreter::ops::{binary_op_values, compare_values, is_truthy, less_than_values, unary_op_value};
use nyash_interpreter::state::SharedState;
use nyash_interpreter::text::{i64_to_string, parse_i64, parse_u64, repeat_string};
use nyash_interpreter::value::NyashBox;

fn s(v: &str) -> NyashBox {
    NyashBox::StringBox(v.to_string())
}

fn op(o: BinaryOperator, l: NyashBox, r: NyashBox) -> Result<NyashBox, RuntimeError> {
    binary_op_values(&Vec::new(), &o, &l, &r)
}

fn invalid_message(r: Result<NyashBox, RuntimeError>) -> String {
    match r {
        Err(RuntimeError::InvalidOperation { message }) => message,
        other => panic!("unexpected: {:?}", other),
    }
}

#[test]
fn arithmetic_operators() {
    assert!(matches!(op(BinaryOperator::Add, NyashBox::IntegerBox(10), NyashBox::IntegerBox(32)), Ok(NyashBox::IntegerBox(42))));
    assert!(matches!(op(BinaryOperator::Add, NyashBox::IntegerBox(i64::MAX), NyashBox::IntegerBox(1)), Ok(NyashBox::IntegerBox(i64::MIN))));
    assert!(matches!(op(BinaryOperator::Add, s("a"), NyashBox::IntegerBox(1)), Ok(NyashBox::StringBox(v)) if v == "a1"));
    assert!(matches!(op(BinaryOperator::Add, NyashBox::IntegerBox(1), s("a")), Ok(NyashBox::StringBox(v)) if v == "1a"));
    assert!(matches!(op(BinaryOperator::Add, NyashBox::BoolBox(true), NyashBox::BoolBox(true)), Ok(NyashBox::IntegerBox(2))));
    assert_eq!(invalid_message(op(BinaryOperator::Add, NyashBox::NullBox, NyashBox::IntegerBox(1))), "Addition not supported between NullBox and IntegerBox");
    assert!(matches!(op(BinaryOperator::Subtract, NyashBox::IntegerBox(3), NyashBox::IntegerBox(5)), Ok(NyashBox::IntegerBox(-2))));
    assert!(matches!(op(BinaryOperator::Multiply, s("ab"), NyashBox::IntegerBox(3)), Ok(NyashBox::StringBox(v)) if v == "ababab"));
    assert_eq!(invalid_message(op(BinaryOperator::Multiply, s("ab"), NyashBox::IntegerBox(-1))), "Cannot repeat a string a negative number of times");
    assert!(matches!(op(BinaryOperator::Divide, NyashBox::IntegerBox(-7), NyashBox::IntegerBox(2)), Ok(NyashBox::IntegerBox(-3))));
    assert!(matches!(op(BinaryOperator::Modulo, NyashBox::IntegerBox(-7), NyashBox::IntegerBox(2)), Ok(NyashBox::IntegerBox(-1))));
    assert_eq!(invalid_message(op(BinaryOperator::Divide, NyashBox::IntegerBox(1), NyashBox::IntegerBox(0))), "Division by zero");
    assert_eq!(invalid_message(op(BinaryOperator::Modulo, NyashBox::IntegerBox(1), NyashBox::IntegerBox(0))), "Modulo by zero");
    assert_eq!(invalid_message(op(BinaryOperator::Divide, NyashBox::IntegerBox(i64::MIN), NyashBox::IntegerBox(-1))), "attempt to divide with overflow");
}

#[test]
fn comparison_and_logic_operators() {
    assert!(matches!(op(BinaryOperator::Equal, s("x"), s("x")), Ok(NyashBox::BoolBox(true))));
    assert!(matches!(op(BinaryOperator::NotEqual, NyashBox::IntegerBox(1), s("1")), Ok(NyashBox::BoolBox(true))));
    assert!(matches!(op(BinaryOperator::Less, s("abc"), s("abd")), Ok(NyashBox::BoolBox(true))));
    assert!(matches!(op(BinaryOperator::GreaterEqual, NyashBox::IntegerBox(2), NyashBox::IntegerBox(2)), Ok(NyashBox::BoolBox(true))));
    assert!(matches!(op(BinaryOperator::Greater, NyashBox::IntegerBox(2), NyashBox::IntegerBox(2)), Ok(NyashBox::BoolBox(false))));
    assert_eq!(invalid_message(op(BinaryOperator::Less, NyashBox::IntegerBox(1), s("1"))), "Cannot compare IntegerBox and StringBox");
    assert!(matches!(op(BinaryOperator::And, NyashBox::IntegerBox(1), s("")), Ok(NyashBox::BoolBox(false))));
    assert!(matches!(op(BinaryOperator::Or, NyashBox::VoidBox, NyashBox::NullBox), Ok(NyashBox::BoolBox(true))));
    assert!(matches!(op(BinaryOperator::Shl, NyashBox::IntegerBox(1), NyashBox::IntegerBox(4)), Ok(NyashBox::IntegerBox(16))));
    assert!(matches!(op(BinaryOperator::Shr, NyashBox::IntegerBox(-16), NyashBox::IntegerBox(60)), Ok(NyashBox::IntegerBox(15))));
    assert!(matches!(op(BinaryOperator::BitAnd, NyashBox::IntegerBox(12), NyashBox::IntegerBox(10)), Ok(NyashBox::IntegerBox(8))));
    assert!(matches!(op(BinaryOperator::BitOr, NyashBox::IntegerBox(12), NyashBox::IntegerBox(10)), Ok(NyashBox::IntegerBox(14))));
    assert!(matches!(op(BinaryOperator::BitXor, NyashBox::IntegerBox(12), NyashBox::IntegerBox(10)), Ok(NyashBox::IntegerBox(6))));
    match op(BinaryOperator::BitAnd, s("a"), NyashBox::IntegerBox(1)) {
        Err(RuntimeError::TypeError { message }) => assert_eq!(message, "Bitwise '&' requires integers (got StringBox and IntegerBox)"),
        other => panic!("unexpected: {:?}", other),
    }
    assert!(matches!(less_than_values(&NyashBox::IntegerBox(1), &NyashBox::IntegerBox(2)), Ok(true)));
    assert!(compare_values(&NyashBox::NullBox, &NyashBox::NullBox));
    assert!(!compare_values(&NyashBox::ArrayBox(0), &NyashBox::ArrayBox(0)));
}

#[test]
fn truthiness_and_unary() {
    assert!(!is_truthy(&NyashBox::IntegerBox(0)));
    assert!(!is_truthy(&s("")));
    assert!(!is_truthy(&NyashBox::VoidBox));
    assert!(is_truthy(&NyashBox::NullBox));
    assert!(is_truthy(&NyashBox::ArrayBox(3)));
    assert!(matches!(unary_op_value(&UnaryOperator::Minus, &NyashBox::IntegerBox(i64::MIN)), Ok(NyashBox::IntegerBox(i64::MIN))));
    assert!(matches!(unary_op_value(&UnaryOperator::Not, &NyashBox::IntegerBox(0)), Ok(NyashBox::BoolBox(true))));
    match unary_op_value(&UnaryOperator::Minus, &s("x")) {
        Err(RuntimeError::TypeError { message }) => assert_eq!(message, "Unary minus can only be applied to Integer or Float"),
        other => panic!("unexpected: {:?}", other),
    }
}

#[test]
fn display_of_values() {
    let heap = vec![
        HeapObject::Array(vec![NyashBox::IntegerBox(1), s("a"), NyashBox::ArrayBox(0)]),
    ];
    assert_eq!(display_box(&heap, &NyashBox::ArrayBox(0), 2), "[1, a, [1, a, [...]]]");
    assert_eq!(display_box(&heap, &NyashBox::BoolBox(false), DISPLAY_DEPTH), "false");
    assert_eq!(display_box(&heap, &NyashBox::VoidBox, DISPLAY_DEPTH), "void");
    assert_eq!(display_box(&heap, &NyashBox::NullBox, DISPLAY_DEPTH), "null");
    assert_eq!(display_box(&heap, &NyashBox::InstanceBox(7), DISPLAY_DEPTH), "<InstanceBox>");
    assert_eq!(display_box(&heap, &NyashBox::MapBox(0), DISPLAY_DEPTH), "{}");
}

#[test]
fn number_text() {
    assert_eq!(i64_to_string(i64::MIN), "-9223372036854775808");
    assert_eq!(i64_to_string(0), "0");
    assert_eq!(parse_u64(&"18446744073709551615".chars().collect()), Some(u64::MAX));
    assert_eq!(parse_u64(&"18446744073709551616".chars().collect()), None);
    assert_eq!(parse_u64(&"+".chars().collect()), None);
    assert_eq!(parse_i64(&"-0".chars().collect()), Some(0));
    assert_eq!(parse_i64(&"-+1".chars().collect()), None);
    assert_eq!(repeat_string(&"xy".to_string(), 0), "");
}

#[test]
fn error_messages() {
    let e = RuntimeError::UndefinedVariableAt { name: "x".to_string(), span: Span { line: 2, column: 3 } };
    assert_eq!(e.to_display_string(), "Undefined variable 'x' at line 2, column 3");
    assert_eq!(e.detailed_message(Some("first\n  x + 1\nthird")), "\u{26a0}\u{fe0f}  Undefined variable 'x'\n  x + 1\n  ^");
    assert_eq!(e.detailed_message(None), "\u{26a0}\u{fe0f}  Undefined variable 'x' at line 2, column 3");
    let e = RuntimeError::TypeError { message: "bad".to_string() };
    assert_eq!(e.detailed_message(Some("src")), "\u{26a0}\u{fe0f}  Type error: bad");
    assert_eq!(RuntimeError::BreakOutsideLoop.to_display_string(), "Break outside of loop");
    let e = RuntimeError::BreakOutsideLoopAt { span: Span { line: 1, column: 1 } };
    assert_eq!(e.detailed_message(Some("break")), "\u{26a0}\u{fe0f}  Break statement outside of loop\nbreak\n^");
    assert_eq!(RuntimeError::UndefinedFunction { name: "f".to_string() }.to_display_string(), "Undefined function 'f'");
    assert_eq!(RuntimeError::UndefinedClass { name: "C".to_string() }.to_display_string(), "Undefined class 'C'");
    assert_eq!(RuntimeError::InvalidOperation { message: "m".to_string() }.to_display_string(), "Invalid operation: m");
    assert_eq!(RuntimeError::ReturnOutsideFunction.to_display_string(), "Return outside of function");
    assert_eq!(RuntimeError::UncaughtException.to_display_string(), "Uncaught exception");
    assert_eq!(RuntimeError::ParseError("p".to_string()).to_display_string(), "Parse error: p");
    assert_eq!(RuntimeError::EnvironmentError("e".to_string()).to_display_string(), "Environment error: e");
    assert_eq!(RuntimeError::RuntimeFailure { message: "r".to_string() }.to_display_string(), "Runtime failure: r");
    let sp = Span { line: 4, column: 9 };
    assert_eq!(RuntimeError::TypeErrorAt { message: "t".to_string(), span: sp }.to_display_string(), "Type error: t at line 4, column 9");
    assert_eq!(RuntimeError::InvalidOperationAt { message: "i".to_string(), span: sp }.to_display_string(), "Invalid operation: i at line 4, column 9");
    assert_eq!(RuntimeError::ReturnOutsideFunctionAt { span: sp }.to_display_string(), "Return outside of function at line 4, column 9");
}

#[test]
fn include_paths() {
    let config = "[include.roots]\nstd = \"lib/std\"\napp = \"src/\"\n";
    assert_eq!(resolve_include_path(Some(config), "std/string.nyash", None), "lib/std/string.nyash");
    assert_eq!(resolve_include_path(Some(config), "app/main", Some("x")), "src/main");
    assert_eq!(resolve_include_path(Some(config), "./a.nyash", None), "./a.nyash");
    assert_eq!(resolve_include_path(Some(config), "other/a.nyash", Some("dir//")), "dir/other/a.nyash");
    assert_eq!(resolve_include_path(Some("not = [toml"), "std/a", None), "./std/a");
    assert_eq!(resolve_include_path(None, "/abs/a", Some("dir")), ".//abs/a");
    assert_eq!(resolve_include_path(None, "c:/a", Some("dir")), "./c:/a");
    assert_eq!(resolve_include_path(None, "a", None), "./a");
}

#[test]
fn include_cycles_and_duplicates() {
    let stack = vec!["a".to_string(), "b".to_string(), "c".to_string()];
    let done = vec!["d".to_string()];
    match include_decision(&stack, &done, &"b".to_string()) {
        Err(RuntimeError::InvalidOperation { message }) => assert_eq!(message, "include cycle detected: b -> c -> b"),
        other => panic!("unexpected: {:?}", other),
    }
    assert!(matches!(include_decision(&stack, &done, &"d".to_string()), Ok(false)));
    assert!(matches!(include_decision(&stack, &done, &"e".to_string()), Ok(true)));
}

#[test]
fn variables_resolve_in_order() {
    let mut interp = NyashInterpreter::new();
    interp.set_variable(&"g".to_string(), NyashBox::IntegerBox(1)).unwrap();
    assert!(matches!(interp.get_variable("g"), Ok(NyashBox::IntegerBox(1))));
    interp.declare_local_variable(&"g".to_string(), NyashBox::IntegerBox(2));
    assert!(matches!(interp.get_variable("g"), Ok(NyashBox::IntegerBox(2))));
    interp.set_variable(&"g".to_string(), NyashBox::IntegerBox(3)).unwrap();
    assert!(matches!(interp.get_variable("g"), Ok(NyashBox::IntegerBox(3))));
    interp.declare_outbox_variable(&"g".to_string(), NyashBox::IntegerBox(4));
    assert!(matches!(interp.get_variable("g"), Ok(NyashBox::IntegerBox(4))));
    let saved = interp.save_local_vars();
    interp.declare_local_variable(&"t".to_string(), NyashBox::NullBox);
    interp.restore_local_vars(saved);
    assert!(matches!(interp.get_variable("t"), Err(RuntimeError::UndefinedVariable { .. })));
    let shared = SharedState::new();
    let other = NyashInterpreter::with_shared(shared);
    assert!(other.get_variable("g").is_err());
}
