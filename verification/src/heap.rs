//! Objects that values share by handle, and how a value reads as text.

use vstd::prelude::*;
use std::rc::Rc;
use crate::assoc::AssocMap;
use crate::ast::FunctionDecl;
use crate::text::{append_text, int_text, i64_to_string};
use crate::value::{NyashBox, BoxSpec};

verus! {

/// An object of a user-declared box: its class, its fields and its methods.
pub struct InstanceBox {
    pub class_name: String,
    pub fields: AssocMap<NyashBox>,
    pub methods: AssocMap<Rc<FunctionDecl>>,
}

/// An object that lives in the heap.
pub enum HeapObject {
    Instance(InstanceBox),
    Array(Vec<NyashBox>),
    Dict(AssocMap<NyashBox>),
}

impl InstanceBox {
    pub open spec fn wf(&self) -> bool {
        self.fields.wf() && self.methods.wf()
    }

    /// A fresh instance of `class_name` whose fields `field_names` all hold void.
    pub fn new(class_name: String, field_names: &Vec<String>, methods: AssocMap<Rc<FunctionDecl>>) -> (r: InstanceBox)
        requires
            methods.wf(),
        ensures
            r.wf(),
            r.class_name@ == class_name@,
            r.methods == methods,
            forall|k: Seq<char>| #[trigger] r.fields@.contains_key(k) <==>
                exists|i: int| 0 <= i < field_names@.len() && field_names@[i]@ == k,
            forall|k: Seq<char>| #[trigger] r.fields@.contains_key(k) ==> r.fields@[k]@ == BoxSpec::VoidBox,
    {
        let mut fields: AssocMap<NyashBox> = AssocMap::new();
        let mut i: usize = 0;
        while i < field_names.len()
            invariant
                i <= field_names@.len(),
                fields.wf(),
                forall|k: Seq<char>| #[trigger] fields@.contains_key(k) <==>
                    exists|j: int| 0 <= j < i && field_names@[j]@ == k,
                forall|k: Seq<char>| #[trigger] fields@.contains_key(k) ==> fields@[k]@ == BoxSpec::VoidBox,
            decreases field_names@.len() - i,
        {
            let name = field_names[i].clone();
            fields.insert(name, NyashBox::VoidBox);
            proof {
                assert forall|k: Seq<char>| #[trigger] fields@.contains_key(k) <==>
                    exists|j: int| 0 <= j < i + 1 && field_names@[j]@ == k by {
                    if k == field_names@[i as int]@ {
                        assert(0 <= i < i + 1 && field_names@[i as int]@ == k);
                    }
                }
            }
            i = i + 1;
        }
        InstanceBox { class_name, fields, methods }
    }
}

pub open spec fn bool_text(b: bool) -> Seq<char> {
    if b { "true"@ } else { "false"@ }
}

/// The elements shown one after another, with ", " between them.
pub open spec fn display_elems(heap: Seq<HeapObject>, elems: Seq<NyashBox>, depth: nat) -> Seq<char>
    decreases depth, 1nat, elems.len(),
{
    if elems.len() == 0 {
        Seq::empty()
    } else if elems.len() == 1 {
        display(heap, elems[0]@, depth)
    } else {
        display_elems(heap, elems.drop_last(), depth) + ", "@ + display(heap, elems.last()@, depth)
    }
}

/// The entries shown as "name: value", with ", " between them.
pub open spec fn display_entries(heap: Seq<HeapObject>, keys: Seq<Seq<char>>, vals: Seq<NyashBox>, depth: nat) -> Seq<char>
    decreases depth, 1nat, keys.len(),
{
    if keys.len() == 0 || vals.len() == 0 {
        Seq::empty()
    } else if keys.len() == 1 || vals.len() == 1 {
        keys[0] + ": "@ + display(heap, vals[0]@, depth)
    } else {
        display_entries(heap, keys.drop_last(), vals.drop_last(), depth) + ", "@ + keys.last() + ": "@
            + display(heap, vals.last()@, depth)
    }
}

/// How a value reads as text. Arrays and maps show their elements down to
/// `depth` levels of nesting.
pub open spec fn display(heap: Seq<HeapObject>, v: BoxSpec, depth: nat) -> Seq<char>
    decreases depth, 0nat, 0nat,
{
    match v {
        BoxSpec::IntegerBox(i) => int_text(i as int),
        BoxSpec::BoolBox(b) => bool_text(b),
        BoxSpec::StringBox(s) => s,
        BoxSpec::VoidBox => "void"@,
        BoxSpec::NullBox => "null"@,
        BoxSpec::InstanceBox(h) => {
            if h < heap.len() && heap[h as int] is Instance {
                "<"@ + heap[h as int]->Instance_0.class_name@ + " instance #"@ + int_text(h as int) + ">"@
            } else {
                "<InstanceBox>"@
            }
        },
        BoxSpec::ArrayBox(h) => {
            if depth == 0 {
                "[...]"@
            } else if h < heap.len() && heap[h as int] is Array {
                "["@ + display_elems(heap, heap[h as int]->Array_0@, (depth - 1) as nat) + "]"@
            } else {
                "[]"@
            }
        },
        BoxSpec::MapBox(h) => {
            if depth == 0 {
                "{...}"@
            } else if h < heap.len() && heap[h as int] is Dict {
                "{"@ + display_entries(heap, heap[h as int]->Dict_0.key_seq(), heap[h as int]->Dict_0.val_seq(), (depth - 1) as nat) + "}"@
            } else {
                "{}"@
            }
        },
    }
}

/// How deep arrays and maps are shown inside one another.
pub const DISPLAY_DEPTH: usize = 8;

/// How a value reads as text, down to `depth` levels of nesting.
pub fn display_box(heap: &Vec<HeapObject>, v: &NyashBox, depth: usize) -> (out: String)
    ensures
        out@ == display(heap@, v@, depth as nat),
    decreases depth,
{
    match v {
        NyashBox::IntegerBox(i) => {
            i64_to_string(*i)
        },
        NyashBox::BoolBox(b) => if *b { String::from_str("true") } else { String::from_str("false") },
        NyashBox::StringBox(s) => s.clone(),
        NyashBox::VoidBox => String::from_str("void"),
        NyashBox::NullBox => String::from_str("null"),
        NyashBox::InstanceBox(h) => {
            if *h < heap.len() {
                match &heap[*h] {
                    HeapObject::Instance(inst) => {
                        let mut r = String::from_str("<");
                        append_text(&mut r, &inst.class_name);
                        r.append(" instance #");
                        let id = i64_to_string_usize(*h);
                        append_text(&mut r, &id);
                        r.append(">");
                        r
                    },
                    _ => String::from_str("<InstanceBox>"),
                }
            } else {
                String::from_str("<InstanceBox>")
            }
        },
        NyashBox::ArrayBox(h) => {
            if depth == 0 {
                String::from_str("[...]")
            } else if *h < heap.len() {
                match &heap[*h] {
                    HeapObject::Array(elems) => {
                        let mut acc = String::new();
                        let mut i: usize = 0;
                        while i < elems.len()
                            invariant
                                i <= elems@.len(),
                                depth > 0,
                                acc@ == display_elems(heap@, elems@.take(i as int), (depth - 1) as nat),
                            decreases elems@.len() - i,
                        {
                            let t = display_box(heap, &elems[i], depth - 1);
                            if i > 0 {
                                acc.append(", ");
                            }
                            append_text(&mut acc, &t);
                            proof {
                                assert(elems@.take(i + 1).drop_last() =~= elems@.take(i as int));
                            }
                            i = i + 1;
                        }
                        proof { assert(elems@.take(elems@.len() as int) =~= elems@); }
                        let mut r = String::from_str("[");
                        append_text(&mut r, &acc);
                        r.append("]");
                        r
                    },
                    _ => String::from_str("[]"),
                }
            } else {
                String::from_str("[]")
            }
        },
        NyashBox::MapBox(h) => {
            if depth == 0 {
                String::from_str("{...}")
            } else if *h < heap.len() {
                match &heap[*h] {
                    HeapObject::Dict(m) => {
                        proof { m.lemma_lens(); }
                        let mut acc = String::new();
                        let mut i: usize = 0;
                        while i < m.len()
                            invariant
                                i <= m.key_seq().len(),
                                depth > 0,
                                m.key_seq().len() == m.val_seq().len(),
                                acc@ == display_entries(heap@, m.key_seq().take(i as int), m.val_seq().take(i as int), (depth - 1) as nat),
                            decreases m.key_seq().len() - i,
                        {
                            let mut t = m.key_at(i).clone();
                            t.append(": ");
                            let vt = display_box(heap, m.value_at(i), depth - 1);
                            append_text(&mut t, &vt);
                            if i > 0 {
                                acc.append(", ");
                            }
                            append_text(&mut acc, &t);
                            proof {
                                assert(m.key_seq().take(i + 1).drop_last() =~= m.key_seq().take(i as int));
                                assert(m.val_seq().take(i + 1).drop_last() =~= m.val_seq().take(i as int));
                            }
                            i = i + 1;
                        }
                        proof {
                            assert(m.key_seq().take(m.key_seq().len() as int) =~= m.key_seq());
                            assert(m.val_seq().take(m.val_seq().len() as int) =~= m.val_seq());
                        }
                        let mut r = String::from_str("{");
                        append_text(&mut r, &acc);
                        r.append("}");
                        r
                    },
                    _ => String::from_str("{}"),
                }
            } else {
                String::from_str("{}")
            }
        },
    }
}

/// The decimal text of a handle.
fn i64_to_string_usize(h: usize) -> (r: String)
    ensures
        r@ == int_text(h as int),
{
    let mut v: Vec<char> = Vec::new();
    crate::text::push_decimal(&mut v, h as u64);
    crate::text::string_of(&v)
}

} // verus!
