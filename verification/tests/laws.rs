use nyash_interpreter::assoc::AssocMap;
use nyash_interpreter::ast::BinaryOperator;
use nyash_interpreter::heap::HeapObject;
use nyash_interpreter::interp::NyashInterpreter;
use nyash_interpreter::methods::{array_method, map_method};
use nyash_interpreter::ops::binary_op_values;
use nyash_interpreter::value::NyashBox;

#[test]
fn read_after_write_on_each_level() {
    let mut interp = NyashInterpreter::new();
    for (k, v) in [("a", 1i64), ("b", 2), ("a", 3)] {
        interp.set_variable(&k.to_string(), NyashBox::IntegerBox(v)).unwrap();
        assert!(matches!(interp.get_variable(k), Ok(NyashBox::IntegerBox(x)) if x == v));
    }
    assert!(matches!(interp.get_variable("b"), Ok(NyashBox::IntegerBox(2))));
}

#[test]
fn map_set_then_get_and_delete_then_has() {
    let mut heap = vec![HeapObject::Dict(AssocMap::new())];
    let key = NyashBox::IntegerBox(5);
    map_method(&mut heap, 0, &"set".to_string(), &vec![NyashBox::IntegerBox(5), NyashBox::BoolBox(true)]).unwrap();
    assert!(matches!(map_method(&mut heap, 0, &"get".to_string(), &vec![NyashBox::IntegerBox(5)]), Ok(NyashBox::BoolBox(true))));
    assert!(matches!(map_method(&mut heap, 0, &"has".to_string(), &vec![key]), Ok(NyashBox::BoolBox(true))));
    map_method(&mut heap, 0, &"delete".to_string(), &vec![NyashBox::IntegerBox(5)]).unwrap();
    assert!(matches!(map_method(&mut heap, 0, &"has".to_string(), &vec![NyashBox::IntegerBox(5)]), Ok(NyashBox::BoolBox(false))));
}

#[test]
fn array_push_then_pop_and_get() {
    let mut heap = vec![HeapObject::Array(vec![NyashBox::IntegerBox(1)])];
    array_method(&mut heap, 0, &"push".to_string(), &vec![NyashBox::StringBox("z".to_string())]).unwrap();
    assert!(matches!(array_method(&mut heap, 0, &"get".to_string(), &vec![NyashBox::IntegerBox(1)]), Ok(NyashBox::StringBox(s)) if s == "z"));
    assert!(matches!(array_method(&mut heap, 0, &"pop".to_string(), &vec![]), Ok(NyashBox::StringBox(s)) if s == "z"));
    assert!(matches!(array_method(&mut heap, 0, &"length".to_string(), &vec![]), Ok(NyashBox::IntegerBox(1))));
}

#[test]
fn equality_is_symmetric() {
    let heap = Vec::new();
    let values = [NyashBox::IntegerBox(1), NyashBox::StringBox("1".to_string()), NyashBox::NullBox, NyashBox::BoolBox(true)];
    for l in values.iter() {
        for r in values.iter() {
            let a = binary_op_values(&heap, &BinaryOperator::Equal, l, r).unwrap();
            let b = binary_op_values(&heap, &BinaryOperator::Equal, r, l).unwrap();
            let c = binary_op_values(&heap, &BinaryOperator::NotEqual, l, r).unwrap();
            match (a, b, c) {
                (NyashBox::BoolBox(a), NyashBox::BoolBox(b), NyashBox::BoolBox(c)) => {
                    assert_eq!(a, b);
                    assert_eq!(a, !c);
                },
                other => panic!("unexpected: {:?}", other),
            }
        }
    }
}

#[test]
fn division_and_remainder_fit_together() {
    let heap = Vec::new();
    for a in [-7i64, 7, 0, -1, i64::MAX] {
        for b in [2i64, -2, 3, -5, 1] {
            let q = binary_op_values(&heap, &BinaryOperator::Divide, &NyashBox::IntegerBox(a), &NyashBox::IntegerBox(b)).unwrap();
            let r = binary_op_values(&heap, &BinaryOperator::Modulo, &NyashBox::IntegerBox(a), &NyashBox::IntegerBox(b)).unwrap();
            match (q, r) {
                (NyashBox::IntegerBox(q), NyashBox::IntegerBox(r)) => {
                    assert_eq!(b as i128 * q as i128 + r as i128, a as i128);
                    assert!(r.abs() < b.abs());
                    assert!(r == 0 || (r < 0) == (a < 0));
                },
                other => panic!("unexpected: {:?}", other),
            }
        }
    }
}

#[test]
fn invalidation_records_an_id_once() {
    let mut interp = nyash_interpreter::interp::NyashInterpreter::new();
    interp.trigger_weak_reference_invalidation("<Node instance #3>");
    interp.trigger_weak_reference_invalidation("<Node instance #3>");
    assert_eq!(interp.invalidated_ids, vec![3u64]);
    interp.trigger_weak_reference_invalidation("no marker here");
    assert_eq!(interp.invalidated_ids, vec![3u64]);
    interp.trigger_weak_reference_invalidation("Parent box");
    assert_eq!(interp.invalidated_ids, vec![3u64, 999u64]);
    interp.trigger_weak_reference_invalidation("<Node instance #12>");
    assert_eq!(interp.invalidated_ids, vec![3u64, 999u64, 12u64]);
}
