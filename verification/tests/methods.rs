use nyash_interpreter::assoc::AssocMap;
use nyash_interpreter::errors::RuntimeError;
use nyash_interpreter::heap::{display_box, HeapObject, DISPLAY_DEPTH};
use nyash_interpreter::methods::{
    array_method, bool_method, integer_method, map_method, null_method, string_method,
};
use nyash_interpreter::value::NyashBox;

fn s(v: &str) -> NyashBox {
    NyashBox::StringBox(v.to_string())
}

fn m(v: &str) -> String {
    v.to_string()
}

fn string_call(heap: &mut Vec<HeapObject>, recv: &str, method: &str, args: Vec<NyashBox>) -> Result<NyashBox, RuntimeError> {
    string_method(heap, &recv.to_string(), &m(method), &args)
}

fn as_text(heap: &Vec<HeapObject>, v: &NyashBox) -> String {
    display_box(heap, v, DISPLAY_DEPTH)
}

fn invalid_message(r: Result<NyashBox, RuntimeError>) -> String {
    match r {
        Err(RuntimeError::InvalidOperation { message }) => message,
        other => panic!("unexpected: {:?}", other),
    }
}

fn type_message(r: Result<NyashBox, RuntimeError>) -> String {
    match r {
        Err(RuntimeError::TypeError { message }) => message,
        other => panic!("unexpected: {:?}", other),
    }
}

#[test]
fn string_split_makes_an_array() {
    let mut heap = Vec::new();
    let r = string_call(&mut heap, "a,b,,c", "split", vec![s(",")]).unwrap();
    assert!(matches!(r, NyashBox::ArrayBox(0)));
    assert_eq!(as_text(&heap, &r), "[a, b, , c]");
    let r = string_call(&mut heap, "ab", "split", vec![s("")]).unwrap();
    assert_eq!(as_text(&heap, &r), "[, a, b, ]");
    assert_eq!(type_message(string_call(&mut heap, "ab", "split", vec![NyashBox::IntegerBox(1)])), "split() requires string delimiter");
    assert_eq!(invalid_message(string_call(&mut heap, "ab", "split", vec![])), "split() expects 1 argument, got 0");
}

#[test]
fn string_queries() {
    let mut heap = Vec::new();
    assert!(matches!(string_call(&mut heap, "héllo", "length", vec![]), Ok(NyashBox::IntegerBox(5))));
    assert!(matches!(string_call(&mut heap, "hello", "get", vec![NyashBox::IntegerBox(1)]), Ok(NyashBox::StringBox(c)) if c == "e"));
    assert!(matches!(string_call(&mut heap, "hello", "get", vec![NyashBox::IntegerBox(9)]), Ok(NyashBox::VoidBox)));
    assert!(matches!(string_call(&mut heap, "hello", "get", vec![NyashBox::IntegerBox(-1)]), Ok(NyashBox::VoidBox)));
    assert!(matches!(string_call(&mut heap, "hello", "find", vec![s("ll")]), Ok(NyashBox::IntegerBox(2))));
    assert!(matches!(string_call(&mut heap, "hello", "find", vec![s("z")]), Ok(NyashBox::IntegerBox(-1))));
    assert_eq!(type_message(string_call(&mut heap, "hello", "get", vec![s("x")])), "get() requires integer index");
    assert_eq!(type_message(string_call(&mut heap, "hello", "find", vec![NyashBox::NullBox])), "find() requires string argument");
    assert!(heap.is_empty());
}

#[test]
fn string_transformations() {
    let mut heap = Vec::new();
    assert!(matches!(string_call(&mut heap, "a-b-c", "replace", vec![s("-"), s("+")]), Ok(NyashBox::StringBox(v)) if v == "a+b+c"));
    assert!(matches!(string_call(&mut heap, "abc", "replace", vec![s(""), s("-")]), Ok(NyashBox::StringBox(v)) if v == "-a-b-c-"));
    assert!(matches!(string_call(&mut heap, "  \t hi there \n", "trim", vec![]), Ok(NyashBox::StringBox(v)) if v == "hi there"));
    assert!(matches!(string_call(&mut heap, "\u{3000}x\u{a0}", "trim", vec![]), Ok(NyashBox::StringBox(v)) if v == "x"));
    assert!(matches!(string_call(&mut heap, "   ", "trim", vec![]), Ok(NyashBox::StringBox(v)) if v.is_empty()));
    assert!(matches!(string_call(&mut heap, "Straße", "toUpper", vec![]), Ok(NyashBox::StringBox(v)) if v == "STRASSE"));
    assert!(matches!(string_call(&mut heap, "ÀBC", "toLower", vec![]), Ok(NyashBox::StringBox(v)) if v == "àbc"));
    assert!(matches!(string_call(&mut heap, "-42", "toInteger", vec![]), Ok(NyashBox::IntegerBox(-42))));
    assert!(matches!(string_call(&mut heap, "+7", "toInteger", vec![]), Ok(NyashBox::IntegerBox(7))));
    assert!(matches!(string_call(&mut heap, "-9223372036854775808", "toInteger", vec![]), Ok(NyashBox::IntegerBox(i64::MIN))));
    assert!(matches!(string_call(&mut heap, "9223372036854775808", "toInteger", vec![]), Ok(NyashBox::IntegerBox(0))));
    assert!(matches!(string_call(&mut heap, "12a", "toInteger", vec![]), Ok(NyashBox::IntegerBox(0))));
    assert!(matches!(string_call(&mut heap, "hello", "substring", vec![NyashBox::IntegerBox(1), NyashBox::IntegerBox(3)]), Ok(NyashBox::StringBox(v)) if v == "el"));
    assert!(matches!(string_call(&mut heap, "hello", "substring", vec![NyashBox::IntegerBox(3), NyashBox::IntegerBox(99)]), Ok(NyashBox::StringBox(v)) if v == "lo"));
    assert!(matches!(string_call(&mut heap, "hello", "substring", vec![NyashBox::IntegerBox(4), NyashBox::IntegerBox(2)]), Ok(NyashBox::StringBox(v)) if v.is_empty()));
    assert_eq!(type_message(string_call(&mut heap, "h", "replace", vec![s("a"), NyashBox::IntegerBox(1)])), "replace() requires string arguments");
    assert_eq!(type_message(string_call(&mut heap, "h", "substring", vec![s("a"), NyashBox::IntegerBox(1)])), "substring() expects integer arguments");
    assert_eq!(invalid_message(string_call(&mut heap, "h", "trim", vec![s("a")])), "trim() expects 0 arguments, got 1");
    assert_eq!(invalid_message(string_call(&mut heap, "h", "replace", vec![s("a")])), "replace() expects 2 arguments, got 1");
    assert_eq!(invalid_message(string_call(&mut heap, "h", "frobnicate", vec![])), "Unknown method 'frobnicate' for StringBox");
}

#[test]
fn integer_methods() {
    assert!(matches!(integer_method(-5, &m("abs"), &vec![]), Ok(NyashBox::IntegerBox(5))));
    assert!(matches!(integer_method(i64::MIN, &m("abs"), &vec![]), Ok(NyashBox::IntegerBox(i64::MIN))));
    assert!(matches!(integer_method(3, &m("max"), &vec![NyashBox::IntegerBox(9)]), Ok(NyashBox::IntegerBox(9))));
    assert!(matches!(integer_method(3, &m("min"), &vec![NyashBox::IntegerBox(9)]), Ok(NyashBox::IntegerBox(3))));
    assert!(matches!(integer_method(-120, &m("toString"), &vec![]), Ok(NyashBox::StringBox(v)) if v == "-120"));
    assert_eq!(type_message(integer_method(3, &m("max"), &vec![s("9")])), "max() requires integer argument");
    assert_eq!(invalid_message(integer_method(3, &m("abs"), &vec![s("9")])), "abs() expects 0 arguments, got 1");
    assert_eq!(invalid_message(integer_method(3, &m("sqrt"), &vec![])), "Unknown method 'sqrt' for IntegerBox");
}

#[test]
fn bool_and_null_methods() {
    assert!(matches!(bool_method(true, &m("not"), &vec![]), Ok(NyashBox::BoolBox(false))));
    assert!(matches!(bool_method(true, &m("and"), &vec![NyashBox::IntegerBox(0)]), Ok(NyashBox::BoolBox(false))));
    assert!(matches!(bool_method(false, &m("or"), &vec![s("x")]), Ok(NyashBox::BoolBox(true))));
    assert!(matches!(bool_method(true, &m("equals"), &vec![NyashBox::BoolBox(true)]), Ok(NyashBox::BoolBox(true))));
    assert!(matches!(bool_method(true, &m("equals"), &vec![NyashBox::IntegerBox(1)]), Ok(NyashBox::BoolBox(false))));
    assert!(matches!(bool_method(false, &m("toString"), &vec![]), Ok(NyashBox::StringBox(v)) if v == "false"));
    assert_eq!(invalid_message(bool_method(false, &m("xor"), &vec![])), "Unknown method 'xor' for BoolBox");
    assert!(matches!(null_method(&m("is_null"), &vec![]), Ok(NyashBox::BoolBox(true))));
    assert!(matches!(null_method(&m("is_not_null"), &vec![]), Ok(NyashBox::BoolBox(false))));
    assert!(matches!(null_method(&m("equals"), &vec![NyashBox::NullBox]), Ok(NyashBox::BoolBox(true))));
    assert!(matches!(null_method(&m("get_or_default"), &vec![NyashBox::IntegerBox(4)]), Ok(NyashBox::IntegerBox(4))));
    assert_eq!(invalid_message(null_method(&m("what"), &vec![])), "Unknown NullBox method: what");
    assert_eq!(invalid_message(null_method(&m("is_null"), &vec![NyashBox::NullBox])), "is_null() expects 0 arguments, got 1");
}

fn array_call(heap: &mut Vec<HeapObject>, method: &str, args: Vec<NyashBox>) -> Result<NyashBox, RuntimeError> {
    array_method(heap, 0, &m(method), &args)
}

#[test]
fn array_methods() {
    let mut heap = vec![HeapObject::Array(Vec::new())];
    assert!(matches!(array_call(&mut heap, "isEmpty", vec![]), Ok(NyashBox::BoolBox(true))));
    assert!(matches!(array_call(&mut heap, "push", vec![NyashBox::IntegerBox(3)]), Ok(NyashBox::StringBox(v)) if v == "ok"));
    array_call(&mut heap, "push", vec![s("x")]).unwrap();
    array_call(&mut heap, "push", vec![NyashBox::IntegerBox(5)]).unwrap();
    assert!(matches!(array_call(&mut heap, "length", vec![]), Ok(NyashBox::IntegerBox(3))));
    assert!(matches!(array_call(&mut heap, "get", vec![NyashBox::IntegerBox(1)]), Ok(NyashBox::StringBox(v)) if v == "x"));
    assert!(matches!(array_call(&mut heap, "get", vec![NyashBox::IntegerBox(7)]), Ok(NyashBox::NullBox)));
    assert!(matches!(array_call(&mut heap, "indexOf", vec![NyashBox::IntegerBox(5)]), Ok(NyashBox::IntegerBox(2))));
    assert!(matches!(array_call(&mut heap, "indexOf", vec![NyashBox::IntegerBox(6)]), Ok(NyashBox::IntegerBox(-1))));
    assert!(matches!(array_call(&mut heap, "contains", vec![s("x")]), Ok(NyashBox::BoolBox(true))));
    assert!(matches!(array_call(&mut heap, "join", vec![s("-")]), Ok(NyashBox::StringBox(v)) if v == "3-x-5"));
    assert!(matches!(array_call(&mut heap, "set", vec![NyashBox::IntegerBox(0), s("y")]), Ok(NyashBox::StringBox(v)) if v == "ok"));
    assert!(matches!(array_call(&mut heap, "set", vec![NyashBox::IntegerBox(9), s("y")]), Ok(NyashBox::StringBox(v)) if v == "Error: index out of bounds"));
    assert!(matches!(array_call(&mut heap, "reverse", vec![]), Ok(NyashBox::StringBox(v)) if v == "ok"));
    assert_eq!(as_text(&heap, &NyashBox::ArrayBox(0)), "[5, x, y]");
    let part = array_call(&mut heap, "slice", vec![NyashBox::IntegerBox(1), NyashBox::IntegerBox(10)]).unwrap();
    assert!(matches!(part, NyashBox::ArrayBox(1)));
    assert_eq!(as_text(&heap, &part), "[x, y]");
    assert!(matches!(array_call(&mut heap, "remove", vec![NyashBox::IntegerBox(1)]), Ok(NyashBox::StringBox(v)) if v == "x"));
    assert!(matches!(array_call(&mut heap, "pop", vec![]), Ok(NyashBox::StringBox(v)) if v == "y"));
    assert!(matches!(array_call(&mut heap, "clear", vec![]), Ok(NyashBox::StringBox(v)) if v == "ok"));
    assert!(matches!(array_call(&mut heap, "pop", vec![]), Ok(NyashBox::NullBox)));
    assert_eq!(
        invalid_message(array_call(&mut heap, "slice", vec![NyashBox::IntegerBox(1)])),
        "slice() expects 2 arguments (start, end), got 1"
    );
    assert_eq!(invalid_message(array_call(&mut heap, "sortBy", vec![])), "Unknown method 'sortBy' for ArrayBox");
    assert!(matches!(array_call(&mut heap, "get", vec![s("0")]), Ok(NyashBox::StringBox(v)) if v == "Error: get() requires integer index"));
}

fn map_call(heap: &mut Vec<HeapObject>, method: &str, args: Vec<NyashBox>) -> Result<NyashBox, RuntimeError> {
    map_method(heap, 0, &m(method), &args)
}

#[test]
fn map_methods() {
    let mut heap = vec![HeapObject::Dict(AssocMap::new())];
    assert!(matches!(map_call(&mut heap, "set", vec![s("a"), NyashBox::IntegerBox(1)]), Ok(NyashBox::StringBox(v)) if v == "Set key: a"));
    map_call(&mut heap, "set", vec![NyashBox::IntegerBox(2), s("two\"q")]).unwrap();
    assert!(matches!(map_call(&mut heap, "get", vec![s("a")]), Ok(NyashBox::IntegerBox(1))));
    assert!(matches!(map_call(&mut heap, "get", vec![s("2")]), Ok(NyashBox::StringBox(v)) if v == "two\"q"));
    assert!(matches!(map_call(&mut heap, "get", vec![s("z")]), Ok(NyashBox::StringBox(v)) if v == "Key not found: z"));
    assert!(matches!(map_call(&mut heap, "has", vec![s("a")]), Ok(NyashBox::BoolBox(true))));
    assert!(matches!(map_call(&mut heap, "containsKey", vec![s("q")]), Ok(NyashBox::BoolBox(false))));
    assert!(matches!(map_call(&mut heap, "containsValue", vec![NyashBox::IntegerBox(1)]), Ok(NyashBox::BoolBox(false))));
    assert!(matches!(map_call(&mut heap, "size", vec![]), Ok(NyashBox::IntegerBox(2))));
    assert!(matches!(map_call(&mut heap, "toJSON", vec![]), Ok(NyashBox::StringBox(v)) if v == "{\"a\":1,\"2\":\"two\\\"q\"}"));
    let keys = map_call(&mut heap, "keys", vec![]).unwrap();
    assert_eq!(as_text(&heap, &keys), "[a, 2]");
    let values = map_call(&mut heap, "values", vec![]).unwrap();
    assert_eq!(as_text(&heap, &values), "[1, two\"q]");
    assert!(matches!(map_call(&mut heap, "delete", vec![s("a")]), Ok(NyashBox::StringBox(v)) if v == "Deleted key: a"));
    assert!(matches!(map_call(&mut heap, "delete", vec![s("a")]), Ok(NyashBox::StringBox(v)) if v == "Key not found: a"));
    assert!(matches!(map_call(&mut heap, "isEmpty", vec![]), Ok(NyashBox::BoolBox(false))));
    assert!(matches!(map_call(&mut heap, "clear", vec![]), Ok(NyashBox::StringBox(v)) if v == "Map cleared"));
    assert!(matches!(map_call(&mut heap, "isEmpty", vec![]), Ok(NyashBox::BoolBox(true))));
    assert_eq!(as_text(&heap, &NyashBox::MapBox(0)), "{}");
    assert_eq!(invalid_message(map_call(&mut heap, "forEach", vec![])), "Unknown MapBox method: forEach");
    assert_eq!(invalid_message(map_call(&mut heap, "set", vec![s("a")])), "set() expects 2 arguments, got 1");
}

#[test]
fn map_to_json_escapes_control_characters() {
    let mut heap = vec![HeapObject::Dict(AssocMap::new())];
    map_call(&mut heap, "set", vec![s("a\nb"), s("x\u{1}\\y\t")]).unwrap();
    assert!(matches!(map_call(&mut heap, "toJSON", vec![]), Ok(NyashBox::StringBox(v)) if v == "{\"a\\nb\":\"x\\u0001\\\\y\\t\"}"));
}
