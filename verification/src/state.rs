//! The state that interpreters share: the global box, the heap, and the
//! registries of declarations.

use vstd::prelude::*;
use std::rc::Rc;
use crate::assoc::AssocMap;
use crate::ast::{ASTNode, FunctionDecl};
use crate::heap::{HeapObject, InstanceBox};
use crate::value::NyashBox;

verus! {

/// How far the lazy initialization of a static box has come.
#[derive(Debug)]
pub enum StaticBoxState {
    NotInitialized,
    Initializing,
    Initialized,
}

/// A `static box` as declared, with the state of its initialization.
pub struct StaticBoxDefinition {
    pub name: String,
    pub fields: Vec<String>,
    pub methods: AssocMap<Rc<FunctionDecl>>,
    pub init_fields: Vec<String>,
    pub weak_fields: Vec<String>,
    pub static_init: Option<Rc<Vec<ASTNode>>>,
    pub extends: Vec<String>,
    pub implements: Vec<String>,
    pub type_parameters: Vec<String>,
    pub initialization_state: StaticBoxState,
}

/// A user-declared box: its fields, its methods and its constructor, which
/// is filed under "birth/" and its number of parameters.
pub struct BoxDeclaration {
    pub name: String,
    pub fields: Vec<String>,
    pub methods: AssocMap<Rc<FunctionDecl>>,
    pub constructors: AssocMap<Rc<FunctionDecl>>,
    pub init_fields: Vec<String>,
    pub weak_fields: Vec<String>,
    pub is_interface: bool,
    /// The boxes it delegates to (`from`).
    pub extends: Vec<String>,
    pub implements: Vec<String>,
    pub type_parameters: Vec<String>,
}

/// Each object of the heap is well formed.
pub open spec fn heap_wf(heap: Seq<HeapObject>) -> bool {
    forall|i: int| 0 <= i < heap.len() ==> match #[trigger] heap[i] {
        HeapObject::Instance(inst) => inst.wf(),
        HeapObject::Dict(m) => m.wf(),
        HeapObject::Array(_) => true,
    }
}

/// Putting a well-formed object at the end of a well-formed heap keeps it well formed.
pub proof fn lemma_heap_push(heap: Seq<HeapObject>, o: HeapObject)
    requires
        heap_wf(heap),
        match o {
            HeapObject::Instance(inst) => inst.wf(),
            HeapObject::Dict(m) => m.wf(),
            HeapObject::Array(_) => true,
        },
    ensures
        heap_wf(heap.push(o)),
{
    assert forall|i: int| 0 <= i < heap.push(o).len() implies match #[trigger] heap.push(o)[i] {
        HeapObject::Instance(inst) => inst.wf(),
        HeapObject::Dict(m) => m.wf(),
        HeapObject::Array(_) => true,
    } by {
        if i < heap.len() {
            assert(heap.push(o)[i] == heap[i]);
        }
    }
}

/// State shared by the interpreters that run one program.
pub struct SharedState {
    /// The global box: top-level variables are its fields, top-level
    /// functions its methods.
    pub global_box: InstanceBox,
    /// The objects that values refer to by handle.
    pub heap: Vec<HeapObject>,
    /// The declared boxes, by name.
    pub box_declarations: AssocMap<BoxDeclaration>,
    /// The static functions, by box name and then by function name.
    pub static_functions: AssocMap<AssocMap<Rc<FunctionDecl>>>,
    /// The static boxes, by name.
    pub static_box_definitions: AssocMap<StaticBoxDefinition>,
    /// The files already included.
    pub included_files: Vec<String>,
}

impl SharedState {
    pub open spec fn wf(&self) -> bool {
        &&& self.global_box.wf()
        &&& heap_wf(self.heap@)
        &&& self.box_declarations.wf()
        &&& self.static_functions.wf()
        &&& self.static_box_definitions.wf()
        &&& forall|k: Seq<char>| #[trigger] self.static_box_definitions@.contains_key(k)
            ==> self.static_box_definitions@[k].methods.wf()
        &&& forall|k: Seq<char>| #[trigger] self.box_declarations@.contains_key(k)
            ==> self.box_declarations@[k].methods.wf() && self.box_declarations@[k].constructors.wf()
        &&& forall|k: Seq<char>| #[trigger] self.static_functions@.contains_key(k)
            ==> self.static_functions@[k].wf()
    }

    /// A fresh shared state: an empty global box named "Global", an empty heap
    /// and empty registries.
    pub fn new() -> (s: SharedState)
        ensures
            s.wf(),
            s.global_box.class_name@ == "Global"@,
            s.global_box.fields@ == Map::<Seq<char>, NyashBox>::empty(),
            s.global_box.methods@ == Map::<Seq<char>, Rc<FunctionDecl>>::empty(),
            s.heap@ == Seq::<HeapObject>::empty(),
            s.box_declarations@ == Map::<Seq<char>, BoxDeclaration>::empty(),
            s.static_functions@ == Map::<Seq<char>, AssocMap<Rc<FunctionDecl>>>::empty(),
            s.static_box_definitions@ == Map::<Seq<char>, StaticBoxDefinition>::empty(),
            s.included_files@ == Seq::<String>::empty(),
    {
        let no_fields: Vec<String> = Vec::new();
        let global_box = InstanceBox::new(String::from_str("Global"), &no_fields, AssocMap::new());
        assert(global_box.fields@ =~= Map::<Seq<char>, NyashBox>::empty());
        SharedState {
            global_box,
            heap: Vec::new(),
            box_declarations: AssocMap::new(),
            static_functions: AssocMap::new(),
            static_box_definitions: AssocMap::new(),
            included_files: Vec::new(),
        }
    }
}

} // verus!
