//! The interpreter: its state, variables, and static boxes.

use vstd::prelude::*;
use std::rc::Rc;
use crate::assoc::AssocMap;
use crate::ast::{ASTNode, FunctionDecl};
use crate::errors::{RuntimeError, ErrSpec};
use crate::heap::{HeapObject, InstanceBox};
use crate::state::{SharedState, StaticBoxDefinition, StaticBoxState, BoxDeclaration, heap_wf};
use crate::value::{NyashBox, BoxSpec};
use crate::text::{chars_of, find_chars, find_text, parse_u64, parse_u64_spec, single_char, skip_vec, take_vec};

verus! {

/// Where execution goes after a statement.
pub enum ControlFlow {
    Normal,
    Break,
    Continue,
    Return(NyashBox),
    Throw(NyashBox),
}

/// Which groups of builtin boxes `new` can create.
pub struct BuiltinGroups {
    /// StringBox, IntegerBox, BoolBox and NullBox.
    pub basic: bool,
    /// ArrayBox and MapBox.
    pub collections: bool,
}

impl BuiltinGroups {
    /// Every group.
    pub fn all() -> (g: BuiltinGroups)
        ensures
            g.basic && g.collections,
    {
        BuiltinGroups { basic: true, collections: true }
    }
}

/// A factory of boxes: `new` of one of its type names creates an instance
/// of that name with no fields.
pub struct BoxFactory {
    pub box_types: Vec<String>,
}

/// The registry of box factories and the builtin groups that are enabled.
pub struct NyashRuntime {
    pub builtin_groups: BuiltinGroups,
    pub factories: Vec<BoxFactory>,
}

/// The interpreter.
pub struct NyashInterpreter {
    /// The program-wide state: declarations, globals, static boxes and the
    /// heap. An interpreter made from another one starts with a copy of it.
    pub shared: SharedState,
    /// The local variables of the running function.
    pub local_vars: AssocMap<NyashBox>,
    /// The outbox variables of the running static function.
    pub outbox_vars: AssocMap<NyashBox>,
    /// Where execution goes next.
    pub control_flow: ControlFlow,
    /// The ids of objects whose weak references are dead.
    pub invalidated_ids: Vec<u64>,
    /// The box factories.
    pub runtime: NyashRuntime,
    /// Whether the value of the current statement is thrown away.
    pub discard_context: bool,
    /// What `print` wrote, line by line.
    pub output: Vec<String>,
}

/// The value of the global field "statics", the namespace of the static boxes.
pub open spec fn statics_field(s: SharedState) -> Option<NyashBox> {
    if s.global_box.fields@.contains_key("statics"@) {
        Some(s.global_box.fields@["statics"@])
    } else {
        None
    }
}

/// The static box singleton called `name`, found through the statics namespace.
pub open spec fn statics_lookup(s: SharedState, name: Seq<char>) -> Option<BoxSpec> {
    match statics_field(s) {
        Some(NyashBox::InstanceBox(h)) => if h < s.heap@.len() && s.heap@[h as int] is Instance
            && s.heap@[h as int]->Instance_0.fields@.contains_key(name) {
            Some(s.heap@[h as int]->Instance_0.fields@[name]@)
        } else {
            None
        },
        Some(NyashBox::MapBox(h)) => if h < s.heap@.len() && s.heap@[h as int] is Dict
            && s.heap@[h as int]->Dict_0@.contains_key(name)
            && !(s.heap@[h as int]->Dict_0@[name]@ is NullBox) {
            Some(s.heap@[h as int]->Dict_0@[name]@)
        } else {
            None
        },
        _ => None,
    }
}

impl NyashInterpreter {
    pub open spec fn wf(&self) -> bool {
        &&& self.shared.wf()
        &&& self.local_vars.wf()
        &&& self.outbox_vars.wf()
    }

    /// Where a variable is found: outbox variables first, then local
    /// variables, then the fields of the global box, then the static boxes.
    pub open spec fn resolve_spec(&self, name: Seq<char>) -> Option<BoxSpec> {
        if self.outbox_vars@.contains_key(name) {
            Some(self.outbox_vars@[name]@)
        } else if self.local_vars@.contains_key(name) {
            Some(self.local_vars@[name]@)
        } else if self.shared.global_box.fields@.contains_key(name) {
            Some(self.shared.global_box.fields@[name]@)
        } else {
            statics_lookup(self.shared, name)
        }
    }

    /// An interpreter over `shared`, with the builtin groups `groups` and no
    /// variables of its own. The box declarations start empty.
    pub fn with_shared_and_groups(shared: SharedState, groups: BuiltinGroups) -> (r: NyashInterpreter)
        requires
            shared.wf(),
        ensures
            r.wf(),
            r.shared.global_box == shared.global_box,
            r.shared.heap == shared.heap,
            r.shared.static_functions == shared.static_functions,
            r.shared.static_box_definitions == shared.static_box_definitions,
            r.shared.included_files == shared.included_files,
            r.shared.box_declarations@ == Map::<Seq<char>, crate::state::BoxDeclaration>::empty(),
            r.local_vars@ == Map::<Seq<char>, NyashBox>::empty(),
            r.outbox_vars@ == Map::<Seq<char>, NyashBox>::empty(),
            r.control_flow is Normal,
            r.invalidated_ids@ == Seq::<u64>::empty(),
            r.runtime.builtin_groups == groups,
            r.runtime.factories@ == Seq::<BoxFactory>::empty(),
            r.output@ == Seq::<String>::empty(),
            !r.discard_context,
    {
        let mut shared = shared;
        shared.box_declarations = AssocMap::new();
        NyashInterpreter {
            shared,
            local_vars: AssocMap::new(),
            outbox_vars: AssocMap::new(),
            control_flow: ControlFlow::Normal,
            invalidated_ids: Vec::new(),
            runtime: NyashRuntime { builtin_groups: groups, factories: Vec::new() },
            discard_context: false,
            output: Vec::new(),
        }
    }

    /// An interpreter over `shared`, with every builtin group.
    pub fn with_shared(shared: SharedState) -> (r: NyashInterpreter)
        requires
            shared.wf(),
        ensures
            r.wf(),
            r.shared.global_box == shared.global_box,
            r.shared.heap == shared.heap,
            r.shared.static_functions == shared.static_functions,
            r.shared.static_box_definitions == shared.static_box_definitions,
            r.shared.included_files == shared.included_files,
            r.shared.box_declarations@ == Map::<Seq<char>, crate::state::BoxDeclaration>::empty(),
            r.local_vars@ == Map::<Seq<char>, NyashBox>::empty(),
            r.outbox_vars@ == Map::<Seq<char>, NyashBox>::empty(),
            r.control_flow is Normal,
            r.invalidated_ids@ == Seq::<u64>::empty(),
            r.runtime.builtin_groups.basic && r.runtime.builtin_groups.collections,
            r.runtime.factories@ == Seq::<BoxFactory>::empty(),
            r.output@ == Seq::<String>::empty(),
            !r.discard_context,
    {
        Self::with_shared_and_groups(shared, BuiltinGroups::all())
    }

    /// A fresh interpreter with the builtin groups `groups`.
    pub fn new_with_groups(groups: BuiltinGroups) -> (r: NyashInterpreter)
        ensures
            r.wf(),
            r.fresh(),
            r.runtime.builtin_groups == groups,
    {
        Self::with_shared_and_groups(SharedState::new(), groups)
    }

    /// A fresh interpreter with every builtin group.
    pub fn new() -> (r: NyashInterpreter)
        ensures
            r.wf(),
            r.fresh(),
            r.runtime.builtin_groups.basic && r.runtime.builtin_groups.collections,
    {
        Self::new_with_groups(BuiltinGroups::all())
    }

    /// Nothing is declared, defined or stored yet.
    pub open spec fn fresh(&self) -> bool {
        &&& self.shared.global_box.class_name@ == "Global"@
        &&& self.shared.global_box.fields@ == Map::<Seq<char>, NyashBox>::empty()
        &&& self.shared.global_box.methods@ == Map::<Seq<char>, Rc<FunctionDecl>>::empty()
        &&& self.shared.heap@ == Seq::<HeapObject>::empty()
        &&& self.shared.box_declarations@ == Map::<Seq<char>, crate::state::BoxDeclaration>::empty()
        &&& self.shared.static_functions@ == Map::<Seq<char>, AssocMap<Rc<FunctionDecl>>>::empty()
        &&& self.shared.static_box_definitions@ == Map::<Seq<char>, StaticBoxDefinition>::empty()
        &&& self.shared.included_files@ == Seq::<String>::empty()
        &&& self.local_vars@ == Map::<Seq<char>, NyashBox>::empty()
        &&& self.outbox_vars@ == Map::<Seq<char>, NyashBox>::empty()
        &&& self.control_flow is Normal
        &&& self.invalidated_ids@ == Seq::<u64>::empty()
        &&& self.runtime.factories@ == Seq::<BoxFactory>::empty()
        &&& self.output@ == Seq::<String>::empty()
        &&& !self.discard_context
    }

    /// Adds a box factory to the registry.
    pub fn register_box_factory(&mut self, factory: BoxFactory)
        ensures
            final(self).runtime.factories@ == old(self).runtime.factories@.push(factory),
            final(self).runtime.builtin_groups == old(self).runtime.builtin_groups,
            final(self).shared == old(self).shared,
            final(self).local_vars == old(self).local_vars,
            final(self).outbox_vars == old(self).outbox_vars,
            final(self).control_flow == old(self).control_flow,
            final(self).invalidated_ids == old(self).invalidated_ids,
            final(self).output == old(self).output,
            final(self).discard_context == old(self).discard_context,
    {
        self.runtime.factories.push(factory);
    }
}


/// The heap object at `h`, if there is one.
pub fn heap_get(heap: &Vec<HeapObject>, h: usize) -> (r: Option<&HeapObject>)
    ensures
        match r {
            Some(o) => h < heap@.len() && *o == heap@[h as int],
            None => h >= heap@.len(),
        },
{
    if h < heap.len() {
        Some(&heap[h])
    } else {
        None
    }
}

impl NyashInterpreter {
    /// Finds a variable: outbox variables first, then local variables, then
    /// the fields of the global box, then the static boxes.
    pub fn resolve_variable(&self, name: &String) -> (r: Result<NyashBox, RuntimeError>)
        requires
            self.wf(),
        ensures
            match r {
                Ok(v) => self.resolve_spec(name@) == Some(v@),
                Err(e) => self.resolve_spec(name@) is None && e@ == ErrSpec::UndefinedVariable(name@),
            },
    {
        if let Some(v) = self.outbox_vars.get(name) {
            return Ok(v.clone_box());
        }
        if let Some(v) = self.local_vars.get(name) {
            return Ok(v.clone_box());
        }
        if let Some(v) = self.shared.global_box.fields.get(name) {
            return Ok(v.clone_box());
        }
        let statics_key = String::from_str("statics");
        if let Some(ns) = self.shared.global_box.fields.get(&statics_key) {
            match ns {
                NyashBox::InstanceBox(h) => {
                    if let Some(HeapObject::Instance(inst)) = heap_get(&self.shared.heap, *h) {
                        proof { assert(heap_wf(self.shared.heap@)); assert(inst.wf()); }
                        if let Some(v) = inst.fields.get(name) {
                            return Ok(v.clone_box());
                        }
                    }
                },
                NyashBox::MapBox(h) => {
                    if let Some(HeapObject::Dict(m)) = heap_get(&self.shared.heap, *h) {
                        proof { assert(heap_wf(self.shared.heap@)); assert(m.wf()); }
                        if let Some(v) = m.get(name) {
                            if !matches!(v, NyashBox::NullBox) {
                                return Ok(v.clone_box());
                            }
                        }
                    }
                },
                _ => {},
            }
        }
        Err(RuntimeError::UndefinedVariable { name: name.clone() })
    }

    /// The value of a variable, found as `resolve_variable` finds it.
    pub fn get_variable(&self, name: &str) -> (r: Result<NyashBox, RuntimeError>)
        requires
            self.wf(),
        ensures
            match r {
                Ok(v) => self.resolve_spec(name@) == Some(v@),
                Err(e) => self.resolve_spec(name@) is None && e@ == ErrSpec::UndefinedVariable(name@),
            },
    {
        let key = String::from_str(name);
        self.resolve_variable(&key)
    }

    /// Assigns a variable: an existing outbox variable, else an existing local
    /// variable, else a field of the global box, which is created if needed.
    pub fn set_variable(&mut self, name: &String, value: NyashBox) -> (r: Result<(), RuntimeError>)
        requires
            old(self).wf(),
        ensures
            final(self).wf(),
            r is Ok,
            set_variable_post(*old(self), *final(self), name@, value),
    {
        if self.outbox_vars.contains_key(name) {
            self.outbox_vars.insert(name.clone(), value);
        } else if self.local_vars.contains_key(name) {
            self.local_vars.insert(name.clone(), value);
        } else {
            self.shared.global_box.fields.insert(name.clone(), value);
        }
        Ok(())
    }

    /// Declares (or redeclares) a local variable.
    pub fn declare_local_variable(&mut self, name: &String, value: NyashBox)
        requires
            old(self).wf(),
        ensures
            final(self).wf(),
            declare_local_post(*old(self), *final(self), name@, value),
    {
        self.local_vars.insert(name.clone(), value);
    }

    /// Declares (or redeclares) an outbox variable.
    pub fn declare_outbox_variable(&mut self, name: &String, value: NyashBox)
        requires
            old(self).wf(),
        ensures
            final(self).wf(),
            final(self).outbox_vars@ == old(self).outbox_vars@.insert(name@, value),
            final(self).local_vars == old(self).local_vars,
            final(self).shared == old(self).shared,
            final(self).control_flow == old(self).control_flow,
            final(self).output == old(self).output,
            final(self).invalidated_ids == old(self).invalidated_ids,
    {
        self.outbox_vars.insert(name.clone(), value);
    }

    /// A copy of the local variables, to restore after a call.
    pub fn save_local_vars(&self) -> (r: AssocMap<NyashBox>)
        requires
            self.wf(),
        ensures
            r.wf(),
            r@ == self.local_vars@,
    {
        self.local_vars.clone_values()
    }

    /// Puts back local variables saved before a call.
    pub fn restore_local_vars(&mut self, saved: AssocMap<NyashBox>)
        requires
            old(self).wf(),
            saved.wf(),
        ensures
            final(self).wf(),
            final(self).local_vars == saved,
            final(self).outbox_vars == old(self).outbox_vars,
            final(self).shared == old(self).shared,
            final(self).control_flow == old(self).control_flow,
            final(self).output == old(self).output,
            final(self).invalidated_ids == old(self).invalidated_ids,
            final(self).runtime == old(self).runtime,
            final(self).discard_context == old(self).discard_context,
    {
        self.local_vars = saved;
    }

    /// A copy of the outbox variables, to restore after a static call.
    pub fn save_outbox_vars(&self) -> (r: AssocMap<NyashBox>)
        requires
            self.wf(),
        ensures
            r.wf(),
            r@ == self.outbox_vars@,
    {
        self.outbox_vars.clone_values()
    }

    /// Puts back outbox variables saved before a static call.
    pub fn restore_outbox_vars(&mut self, saved: AssocMap<NyashBox>)
        requires
            old(self).wf(),
            saved.wf(),
        ensures
            final(self).wf(),
            final(self).outbox_vars == saved,
            final(self).local_vars == old(self).local_vars,
            final(self).shared == old(self).shared,
            final(self).control_flow == old(self).control_flow,
            final(self).output == old(self).output,
            final(self).invalidated_ids == old(self).invalidated_ids,
            final(self).runtime == old(self).runtime,
            final(self).discard_context == old(self).discard_context,
    {
        self.outbox_vars = saved;
    }

    /// Registers a top-level function as a method of the global box. A name
    /// that is already defined is refused: no function overrides another.
    pub fn register_global_function(&mut self, name: String, func: Rc<FunctionDecl>) -> (r: Result<(), RuntimeError>)
        requires
            old(self).wf(),
        ensures
            final(self).wf(),
            register_function_post(*old(self), *final(self), name@, func, r),
    {
        if self.shared.global_box.methods.contains_key(&name) {
            let mut m = String::from_str("Function '");
            m.append(name.as_str());
            m.append("' is already defined");
            return Err(RuntimeError::InvalidOperation { message: m });
        }
        self.shared.global_box.methods.insert(name, func);
        Ok(())
    }

    /// Whether `name` is a registered static box.
    pub fn is_static_box(&self, name: &String) -> (b: bool)
        requires
            self.wf(),
        ensures
            b == self.shared.static_box_definitions@.contains_key(name@),
    {
        self.shared.static_box_definitions.contains_key(name)
    }
}


/// The heap after `h`'s instance gains the field `name` holding `value`.
pub open spec fn heap_with_field(heap: Seq<HeapObject>, h: int, name: Seq<char>, value: NyashBox, new_heap: Seq<HeapObject>) -> bool {
    &&& new_heap.len() == heap.len()
    &&& forall|i: int| 0 <= i < heap.len() && i != h ==> new_heap[i] == heap[i]
    &&& new_heap[h] is Instance
    &&& new_heap[h]->Instance_0.class_name == heap[h]->Instance_0.class_name
    &&& new_heap[h]->Instance_0.methods == heap[h]->Instance_0.methods
    &&& new_heap[h]->Instance_0.fields@ == heap[h]->Instance_0.fields@.insert(name, value)
}

/// Everything of the shared state but the heap and the global fields is as it was.
pub open spec fn registries_unchanged(a: SharedState, b: SharedState) -> bool {
    &&& a.box_declarations == b.box_declarations
    &&& a.static_functions == b.static_functions
    &&& a.static_box_definitions == b.static_box_definitions
    &&& a.included_files == b.included_files
    &&& a.global_box.methods == b.global_box.methods
    &&& a.global_box.class_name == b.global_box.class_name
}

impl NyashInterpreter {
    /// The parts that only the static box registry touches are as they were.
    pub open spec fn same_but_shared(&self, other: &NyashInterpreter) -> bool {
        &&& self.local_vars == other.local_vars
        &&& self.outbox_vars == other.outbox_vars
        &&& self.control_flow == other.control_flow
        &&& self.output == other.output
        &&& self.invalidated_ids == other.invalidated_ids
        &&& self.runtime == other.runtime
    }

    /// Registers a static box definition, replacing one of the same name.
    pub fn register_static_box(&mut self, definition: StaticBoxDefinition) -> (r: Result<(), RuntimeError>)
        requires
            old(self).wf(),
            definition.methods.wf(),
        ensures
            final(self).wf(),
            r is Ok,
            final(self).shared.static_box_definitions@ == old(self).shared.static_box_definitions@.insert(
                definition.name@,
                definition,
            ),
            final(self).shared.global_box == old(self).shared.global_box,
            final(self).shared.heap == old(self).shared.heap,
            final(self).shared.box_declarations == old(self).shared.box_declarations,
            final(self).shared.static_functions == old(self).shared.static_functions,
            final(self).shared.included_files == old(self).shared.included_files,
            final(self).same_but_shared(old(self)),
    {
        let key = definition.name.clone();
        self.shared.static_box_definitions.insert(key, definition);
        Ok(())
    }

    /// Makes sure the global box has the field "statics", an instance that
    /// holds the singletons of the static boxes.
    pub fn ensure_statics_namespace(&mut self) -> (r: Result<(), RuntimeError>)
        requires
            old(self).wf(),
        ensures
            final(self).wf(),
            r is Ok,
            statics_field(old(self).shared) is Some ==> final(self).shared == old(self).shared,
            statics_field(old(self).shared) is None ==> {
                let h = old(self).shared.heap@.len();
                &&& final(self).shared.heap@.len() == h + 1
                &&& final(self).shared.heap@.subrange(0, h as int) == old(self).shared.heap@
                &&& final(self).shared.heap@[h as int] is Instance
                &&& final(self).shared.heap@[h as int]->Instance_0.class_name@ == "statics"@
                &&& final(self).shared.heap@[h as int]->Instance_0.fields@ == Map::<Seq<char>, NyashBox>::empty()
                &&& final(self).shared.global_box.fields@ == old(self).shared.global_box.fields@.insert(
                    "statics"@,
                    NyashBox::InstanceBox(h as usize),
                )
                &&& registries_unchanged(final(self).shared, old(self).shared)
            },
            statics_field(final(self).shared) is Some,
            final(self).same_but_shared(old(self)),
    {
        let key = String::from_str("statics");
        if self.shared.global_box.fields.contains_key(&key) {
            return Ok(());
        }
        let no_fields: Vec<String> = Vec::new();
        let ns = InstanceBox::new(String::from_str("statics"), &no_fields, AssocMap::new());
        assert(ns.fields@ =~= Map::<Seq<char>, NyashBox>::empty());
        let h = self.shared.heap.len();
        self.shared.heap.push(HeapObject::Instance(ns));
        self.shared.global_box.fields.insert(key, NyashBox::InstanceBox(h));
        proof {
            assert(self.shared.heap@.subrange(0, h as int) =~= old(self).shared.heap@);
            assert forall|i: int| 0 <= i < self.shared.heap@.len() implies match #[trigger] self.shared.heap@[i] {
                HeapObject::Instance(inst) => inst.wf(),
                HeapObject::Dict(m) => m.wf(),
                HeapObject::Array(_) => true,
            } by {
                if i < h {
                    assert(self.shared.heap@[i] == old(self).shared.heap@[i]);
                }
            }
        }
        Ok(())
    }

    /// Stores `instance` in the heap and registers it in the statics namespace
    /// under `name`.
    pub fn set_static_instance(&mut self, name: &String, instance: InstanceBox) -> (r: Result<(), RuntimeError>)
        requires
            old(self).wf(),
            instance.wf(),
        ensures
            final(self).wf(),
            final(self).same_but_shared(old(self)),
            match statics_field(old(self).shared) {
                None => r matches Err(e) && e@ == ErrSpec::TypeError("statics namespace not found in GlobalBox"@)
                    && final(self).shared == old(self).shared,
                Some(NyashBox::InstanceBox(h)) => if h < old(self).shared.heap@.len() && old(self).shared.heap@[h as int] is Instance {
                    let n = old(self).shared.heap@.len();
                    &&& r is Ok
                    &&& final(self).shared.heap@.len() == n + 1
                    &&& final(self).shared.heap@[n as int] == HeapObject::Instance(instance)
                    &&& heap_with_field(old(self).shared.heap@, h as int, name@, NyashBox::InstanceBox(n as usize),
                        final(self).shared.heap@.subrange(0, n as int))
                    &&& final(self).shared.global_box == old(self).shared.global_box
                    &&& registries_unchanged(final(self).shared, old(self).shared)
                } else {
                    r matches Err(e) && e@ == ErrSpec::TypeError("statics field is not an InstanceBox"@)
                        && final(self).shared == old(self).shared
                },
                Some(_) => r matches Err(e) && e@ == ErrSpec::TypeError("statics field is not an InstanceBox"@)
                    && final(self).shared == old(self).shared,
            },
    {
        let key = String::from_str("statics");
        let h = match self.shared.global_box.fields.get(&key) {
            None => {
                return Err(RuntimeError::TypeError {
                    message: String::from_str("statics namespace not found in GlobalBox"),
                });
            },
            Some(NyashBox::InstanceBox(h)) => *h,
            Some(_) => {
                return Err(RuntimeError::TypeError {
                    message: String::from_str("statics field is not an InstanceBox"),
                });
            },
        };
        if h >= self.shared.heap.len() {
            return Err(RuntimeError::TypeError { message: String::from_str("statics field is not an InstanceBox") });
        }
        match &self.shared.heap[h] {
            HeapObject::Instance(_) => {},
            _ => {
                return Err(RuntimeError::TypeError { message: String::from_str("statics field is not an InstanceBox") });
            },
        }
        let n = self.shared.heap.len();
        let ghost old_heap = self.shared.heap@;
        let mut obj = HeapObject::Array(Vec::new());
        std::mem::swap(&mut obj, &mut self.shared.heap[h]);
        match &mut obj {
            HeapObject::Instance(ns) => {
                proof { assert(heap_wf(old_heap)); assert(old_heap[h as int] is Instance); }
                ns.fields.insert(name.clone(), NyashBox::InstanceBox(n));
            },
            _ => {},
        }
        std::mem::swap(&mut obj, &mut self.shared.heap[h]);
        self.shared.heap.push(HeapObject::Instance(instance));
        proof {
            let mid = self.shared.heap@.subrange(0, n as int);
            assert forall|i: int| 0 <= i < n && i != h implies mid[i] == old_heap[i] by {}
            assert forall|i: int| 0 <= i < self.shared.heap@.len() implies match #[trigger] self.shared.heap@[i] {
                HeapObject::Instance(inst) => inst.wf(),
                HeapObject::Dict(m) => m.wf(),
                HeapObject::Array(_) => true,
            } by {
                if i < n && i != h {
                    assert(self.shared.heap@[i] == old_heap[i]);
                }
            }
        }
        Ok(())
    }
}


/// The definition with its initialization state replaced.
pub open spec fn with_state(d: StaticBoxDefinition, state: StaticBoxState) -> StaticBoxDefinition {
    StaticBoxDefinition {
        name: d.name,
        fields: d.fields,
        methods: d.methods,
        init_fields: d.init_fields,
        weak_fields: d.weak_fields,
        static_init: d.static_init,
        extends: d.extends,
        implements: d.implements,
        type_parameters: d.type_parameters,
        initialization_state: state,
    }
}

/// The id that an invalidation names: the number after '#' (up to a '>'),
/// or 999 for a text without '#' that mentions "Parent".
#[verifier::opaque]
pub open spec fn weak_target_id(info: Seq<char>) -> Option<u64> {
    match find_text(info, seq!['#']) {
        Some(p) => {
            let rest = info.skip(p + 1);
            let end = match find_text(rest, seq!['>']) {
                Some(e) => e,
                None => rest.len() as int,
            };
            parse_u64_spec(rest.take(end))
        },
        None => if find_text(info, "Parent"@) is Some {
            Some(999u64)
        } else {
            None
        },
    }
}

/// The recorded ids `after` are `before` with the id that `info` names
/// added, unless it was there already or `info` names none.
pub open spec fn invalidation_post(before: Seq<u64>, after: Seq<u64>, info: Seq<char>) -> bool {
    match weak_target_id(info) {
        Some(id) => if before.contains(id) { after == before } else { after == before.push(id) },
        None => after == before,
    }
}

impl NyashInterpreter {
    /// Sets the initialization state of a registered static box; an unknown
    /// name changes nothing.
    pub fn set_static_box_state(&mut self, name: &String, state: StaticBoxState) -> (r: Result<(), RuntimeError>)
        requires
            old(self).wf(),
        ensures
            final(self).wf(),
            r is Ok,
            old(self).shared.static_box_definitions@.contains_key(name@) ==> final(self).shared.static_box_definitions@
                == old(self).shared.static_box_definitions@.insert(
                name@,
                with_state(old(self).shared.static_box_definitions@[name@], state),
            ),
            !old(self).shared.static_box_definitions@.contains_key(name@) ==> final(self).shared.static_box_definitions@
                == old(self).shared.static_box_definitions@,
            final(self).shared.global_box == old(self).shared.global_box,
            final(self).shared.heap == old(self).shared.heap,
            final(self).shared.box_declarations == old(self).shared.box_declarations,
            final(self).shared.static_functions == old(self).shared.static_functions,
            final(self).same_but_shared(old(self)),
    {
        match self.shared.static_box_definitions.remove(name) {
            Some(d) => {
                let d2 = StaticBoxDefinition {
                    name: d.name,
                    fields: d.fields,
                    methods: d.methods,
                    init_fields: d.init_fields,
                    weak_fields: d.weak_fields,
                    static_init: d.static_init,
                    extends: d.extends,
                    implements: d.implements,
                    type_parameters: d.type_parameters,
                    initialization_state: state,
                };
                self.shared.static_box_definitions.insert(name.clone(), d2);
                proof {
                    assert(self.shared.static_box_definitions@ =~= old(self).shared.static_box_definitions@.insert(
                        name@,
                        with_state(old(self).shared.static_box_definitions@[name@], state),
                    ));
                }
            },
            None => {
                proof {
                    assert(self.shared.static_box_definitions@ =~= old(self).shared.static_box_definitions@);
                }
            },
        }
        Ok(())
    }

    /// Declares a static box: makes sure the statics namespace exists and
    /// registers the definition, not yet initialized.
    pub fn register_static_box_declaration(
        &mut self,
        name: String,
        fields: Vec<String>,
        methods: AssocMap<Rc<FunctionDecl>>,
        init_fields: Vec<String>,
        weak_fields: Vec<String>,
        static_init: Option<Rc<Vec<ASTNode>>>,
        extends: Vec<String>,
        implements: Vec<String>,
        type_parameters: Vec<String>,
    ) -> (r: Result<(), RuntimeError>)
        requires
            old(self).wf(),
            methods.wf(),
        ensures
            final(self).wf(),
            r is Ok,
            statics_field(final(self).shared) is Some,
            final(self).shared.static_box_definitions@ == old(self).shared.static_box_definitions@.insert(
                name@,
                StaticBoxDefinition {
                    name,
                    fields,
                    methods,
                    init_fields,
                    weak_fields,
                    static_init,
                    extends,
                    implements,
                    type_parameters,
                    initialization_state: StaticBoxState::NotInitialized,
                },
            ),
            final(self).same_but_shared(old(self)),
            final(self).shared.box_declarations == old(self).shared.box_declarations,
            final(self).shared.static_functions == old(self).shared.static_functions,
            final(self).shared.included_files == old(self).shared.included_files,
            final(self).shared.global_box.methods == old(self).shared.global_box.methods,
            statics_field(old(self).shared) is Some ==> final(self).shared.global_box == old(self).shared.global_box
                && final(self).shared.heap == old(self).shared.heap,
            statics_field(old(self).shared) is None ==> {
                let h = old(self).shared.heap@.len();
                &&& statics_field(final(self).shared) == Some(NyashBox::InstanceBox(h as usize))
                &&& final(self).shared.heap@.len() == h + 1
                &&& final(self).shared.heap@.subrange(0, h as int) == old(self).shared.heap@
                &&& final(self).shared.heap@[h as int] is Instance
                &&& final(self).shared.heap@[h as int]->Instance_0.class_name@ == "statics"@
                &&& final(self).shared.heap@[h as int]->Instance_0.fields@ == Map::<Seq<char>, NyashBox>::empty()
            },
    {
        let heap_len = self.shared.heap.len();
        assert(heap_len == old(self).shared.heap@.len());
        self.ensure_statics_namespace()?;
        let definition = StaticBoxDefinition {
            name,
            fields,
            methods,
            init_fields,
            weak_fields,
            static_init,
            extends,
            implements,
            type_parameters,
            initialization_state: StaticBoxState::NotInitialized,
        };
        self.register_static_box(definition)
    }

    /// Marks an object as gone for weak references. `target_info` reads like
    /// "<Class instance #ID>"; the ID is recorded. A text without '#' that
    /// mentions "Parent" records 999. Anything else changes nothing.
    pub fn trigger_weak_reference_invalidation(&mut self, target_info: &str)
        ensures
            invalidation_post(old(self).invalidated_ids@, final(self).invalidated_ids@, target_info@),
            final(self).shared == old(self).shared,
            final(self).local_vars == old(self).local_vars,
            final(self).outbox_vars == old(self).outbox_vars,
            final(self).control_flow == old(self).control_flow,
            final(self).output == old(self).output,
            final(self).runtime == old(self).runtime,
    {
        proof { reveal(weak_target_id); }
        let info = chars_of(target_info);
        let id = match find_chars(&info, &single_char('#')) {
            Some(p) => {
                proof { crate::text::lemma_find_text(info@, seq!['#']); }
                assert(p + 1 <= info@.len());
                assert(info@.len() == info.len());
                let rest = skip_vec(&info, p + 1);
                let end = match find_chars(&rest, &single_char('>')) {
                    Some(e) => e,
                    None => rest.len(),
                };
                proof { crate::text::lemma_find_text(rest@, seq!['>']); }
                let digits = take_vec(&rest, end);
                parse_u64(&digits)
            },
            None => {
                let parent = chars_of("Parent");
                if find_chars(&info, &parent).is_some() {
                    Some(999u64)
                } else {
                    None
                }
            },
        };
        if let Some(id) = id {
            self.insert_invalidated(id);
        }
    }

    fn insert_invalidated(&mut self, id: u64)
        ensures
            if old(self).invalidated_ids@.contains(id) {
                final(self).invalidated_ids@ == old(self).invalidated_ids@
            } else {
                final(self).invalidated_ids@ == old(self).invalidated_ids@.push(id)
            },
            final(self).shared == old(self).shared,
            final(self).local_vars == old(self).local_vars,
            final(self).outbox_vars == old(self).outbox_vars,
            final(self).control_flow == old(self).control_flow,
            final(self).output == old(self).output,
            final(self).runtime == old(self).runtime,
    {
        let mut i: usize = 0;
        while i < self.invalidated_ids.len()
            invariant
                i <= self.invalidated_ids@.len(),
                forall|j: int| 0 <= j < i ==> self.invalidated_ids@[j] != id,
            decreases self.invalidated_ids@.len() - i,
        {
            if self.invalidated_ids[i] == id {
                return;
            }
            i = i + 1;
        }
        self.invalidated_ids.push(id);
    }
}


/// What `set_variable(name, value)` does: an outbox variable of that name is
/// assigned, else a local variable of that name, else the global box's field
/// of that name, made if needed; nothing else changes.
pub open spec fn set_variable_post(s: NyashInterpreter, t: NyashInterpreter, name: Seq<char>, value: NyashBox) -> bool {
    &&& if s.outbox_vars@.contains_key(name) {
        &&& t.outbox_vars@ == s.outbox_vars@.insert(name, value)
        &&& t.local_vars == s.local_vars
        &&& t.shared == s.shared
    } else if s.local_vars@.contains_key(name) {
        &&& t.outbox_vars == s.outbox_vars
        &&& t.local_vars@ == s.local_vars@.insert(name, value)
        &&& t.shared == s.shared
    } else {
        &&& t.outbox_vars == s.outbox_vars
        &&& t.local_vars == s.local_vars
        &&& t.shared.global_box.fields@ == s.shared.global_box.fields@.insert(name, value)
        &&& t.shared.global_box.class_name == s.shared.global_box.class_name
        &&& t.shared.global_box.methods == s.shared.global_box.methods
        &&& t.shared.heap == s.shared.heap
        &&& t.shared.static_box_definitions == s.shared.static_box_definitions
        &&& t.shared.box_declarations == s.shared.box_declarations
        &&& t.shared.static_functions == s.shared.static_functions
    }
    &&& t.control_flow == s.control_flow
    &&& t.output == s.output
    &&& t.invalidated_ids == s.invalidated_ids
}

/// What `declare_local_variable(name, value)` does: the local variable of
/// that name holds `value`; nothing else changes.
pub open spec fn declare_local_post(s: NyashInterpreter, t: NyashInterpreter, name: Seq<char>, value: NyashBox) -> bool {
    &&& t.local_vars@ == s.local_vars@.insert(name, value)
    &&& t.outbox_vars == s.outbox_vars
    &&& t.shared == s.shared
    &&& t.control_flow == s.control_flow
    &&& t.output == s.output
    &&& t.invalidated_ids == s.invalidated_ids
    &&& t.runtime == s.runtime
    &&& t.discard_context == s.discard_context
}


/// What `register_global_function(name, func)` does: a new name becomes a
/// method of the global box; a name already defined is refused and nothing
/// changes; nothing else changes either way.
pub open spec fn register_function_post(s: NyashInterpreter, t: NyashInterpreter, name: Seq<char>,
    func: Rc<FunctionDecl>, r: Result<(), RuntimeError>) -> bool {
    &&& match r {
        Ok(()) => !s.shared.global_box.methods@.contains_key(name)
            && t.shared.global_box.methods@ == s.shared.global_box.methods@.insert(name, func),
        Err(e) => s.shared.global_box.methods@.contains_key(name)
            && e@ == ErrSpec::InvalidOperation("Function '"@ + name + "' is already defined"@)
            && t.shared.global_box.methods == s.shared.global_box.methods,
    }
    &&& t.shared.global_box.fields == s.shared.global_box.fields
    &&& t.shared.global_box.class_name == s.shared.global_box.class_name
    &&& t.shared.heap == s.shared.heap
    &&& t.shared.static_box_definitions == s.shared.static_box_definitions
    &&& t.shared.box_declarations == s.shared.box_declarations
    &&& t.shared.static_functions == s.shared.static_functions
    &&& t.local_vars == s.local_vars
    &&& t.outbox_vars == s.outbox_vars
    &&& t.control_flow == s.control_flow
    &&& t.output == s.output
}


/// The error for a box that declares more than one constructor.
pub open spec fn overload_text(name: Seq<char>, ctor_names: Seq<Seq<char>>) -> Seq<char> {
    "\u{1F6A8} CONSTRUCTOR OVERLOAD FORBIDDEN: Box '"@ + name + "' has "@ + crate::text::decimal(ctor_names.len())
        + " constructors: ["@ + crate::text::join_text(ctor_names, ", "@)
        + "].\n\u{1F31F} Nyash's explicit philosophy: One Box, One Constructor!\n\u{1F4A1} Use different Box classes for different initialization patterns.\n\u{1F4D6} Example: UserBox, AdminUserBox, GuestUserBox instead of User(type)"@
}

impl NyashInterpreter {
    /// Registers a user-declared box, replacing one of the same name. A box
    /// may declare one constructor at most.
    pub fn register_box_declaration(&mut self, decl: BoxDeclaration) -> (r: Result<(), RuntimeError>)
        requires
            old(self).wf(),
            decl.methods.wf(),
            decl.constructors.wf(),
        ensures
            final(self).wf(),
            final(self).same_but_shared(old(self)),
            final(self).shared.global_box == old(self).shared.global_box,
            final(self).shared.heap == old(self).shared.heap,
            final(self).shared.static_box_definitions == old(self).shared.static_box_definitions,
            final(self).shared.static_functions == old(self).shared.static_functions,
            match r {
                Ok(()) => decl.constructors.key_seq().len() <= 1
                    && final(self).shared.box_declarations@ == old(self).shared.box_declarations@.insert(decl.name@, decl),
                Err(e) => decl.constructors.key_seq().len() > 1
                    && e@ == ErrSpec::InvalidOperation(overload_text(decl.name@, decl.constructors.key_seq()))
                    && final(self).shared.box_declarations == old(self).shared.box_declarations,
            },
    {
        let n = decl.constructors.len();
        if n > 1 {
            let mut names: Vec<Vec<char>> = Vec::new();
            let mut i: usize = 0;
            while i < n
                invariant
                    n == decl.constructors.key_seq().len(),
                    i <= n,
                    names@.len() == i,
                    forall|j: int| 0 <= j < i ==> #[trigger] names@[j]@ == decl.constructors.key_seq()[j],
                decreases n - i,
            {
                names.push(chars_of(decl.constructors.key_at(i).as_str()));
                i = i + 1;
            }
            assert(names@.map_values(|p: Vec<char>| p@) =~= decl.constructors.key_seq());
            let joined = crate::text::join_chars(&names, &chars_of(", "));
            let mut m = String::from_str("\u{1F6A8} CONSTRUCTOR OVERLOAD FORBIDDEN: Box '");
            crate::text::append_text(&mut m, &decl.name);
            m.append("' has ");
            crate::text::append_text(&mut m, &crate::methods::decimal_string(n));
            m.append(" constructors: [");
            crate::text::append_text(&mut m, &crate::text::string_of(&joined));
            m.append("].\n\u{1F31F} Nyash's explicit philosophy: One Box, One Constructor!\n\u{1F4A1} Use different Box classes for different initialization patterns.\n\u{1F4D6} Example: UserBox, AdminUserBox, GuestUserBox instead of User(type)");
            return Err(RuntimeError::InvalidOperation { message: m });
        }
        let key = decl.name.clone();
        self.shared.box_declarations.insert(key, decl);
        Ok(())
    }
}

} // verus!

verus! {

/// A one-character needle that does not occur in `pre` is first found where
/// `tail` starts, when `tail` starts with it.
proof fn lemma_find_char_after(pre: Seq<char>, c: char, tail: Seq<char>)
    requires
        !pre.contains(c),
        tail.len() > 0,
        tail[0] == c,
    ensures
        find_text(pre + tail, seq![c]) == Some(pre.len() as int),
{
    let hay = pre + tail;
    let p = pre.len() as int;
    assert(hay.subrange(p, p + 1) =~= seq![c]);
    assert forall|j: int| 0 <= j < p implies !crate::text::occurs_at(hay, seq![c], j) by {
        assert(hay[j] == pre[j]);
        if crate::text::occurs_at(hay, seq![c], j) {
            assert(hay.subrange(j, j + 1)[0] == hay[j]);
            assert(pre.contains(c));
        }
    }
    crate::text::lemma_find_first(hay, seq![c], p);
}

/// How `weak_target_id` reads a text whose first '#' is followed by a
/// number and a '>'.
#[verifier::rlimit(80)]
proof fn lemma_weak_target_digits(info: Seq<char>, p: int, dec: Seq<char>, n: u64)
    requires
        find_text(info, seq!['#']) == Some(p),
        info.skip(p + 1) == dec + ">"@,
        find_text(dec + ">"@, seq!['>']) == Some(dec.len() as int),
        parse_u64_spec(dec) == Some(n),
    ensures
        weak_target_id(info) == Some(n),
{
    reveal(weak_target_id);
    let rest = info.skip(p + 1);
    assert(rest.take(dec.len() as int) =~= dec);
    assert(find_text(rest, seq!['>']) == Some(dec.len() as int));
    assert(parse_u64_spec(rest.take(dec.len() as int)) == Some(n));
}

/// The text that displays instance `h` of a class without '#' in its name
/// names that instance again.
#[verifier::rlimit(30)]
pub proof fn lemma_instance_text_id(class: Seq<char>, h: usize)
    requires
        !class.contains('#'),
    ensures
        weak_target_id("<"@ + class + " instance #"@ + crate::text::int_text(h as int) + ">"@) == Some(h as u64),
{
    let dec = crate::text::decimal(h as nat);
    let info = "<"@ + class + " instance #"@ + dec + ">"@;
    let pre = "<"@ + class + " instance "@;
    let tail = seq!['#'] + dec + ">"@;
    assert(info =~= pre + tail) by {
        reveal_strlit(" instance #");
        reveal_strlit(" instance ");
    }
    assert(!pre.contains('#')) by {
        reveal_strlit("<");
        reveal_strlit(" instance ");
        if pre.contains('#') {
            let k = choose|k: int| 0 <= k < pre.len() && pre[k] == '#';
            if 1 <= k <= class.len() {
                assert(class[k - 1] == '#');
            }
        }
    }
    lemma_find_char_after(pre, '#', tail);
    let p = pre.len() as int;
    assert(info.skip(p + 1) =~= dec + ">"@);
    assert(!dec.contains('>')) by {
        crate::text::lemma_decimal(h as nat);
        if dec.contains('>') {
            let k = choose|k: int| 0 <= k < dec.len() && dec[k] == '>';
            assert(crate::text::is_digit(dec[k]));
        }
    }
    assert(">"@.len() > 0 && ">"@[0] == '>') by {
        reveal_strlit(">");
    }
    lemma_find_char_after(dec, '>', ">"@);
    crate::text::lemma_parse_decimal(h as u64);
    lemma_weak_target_digits(info, p, dec, h as u64);
}

} // verus!
