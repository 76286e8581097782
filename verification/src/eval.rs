//! Executing the syntax tree: expressions, statements, calls and `new`.
//!
//! Every function takes `fuel`, which bounds the depth of nested evaluation
//! and the number of rounds of each loop; when it runs out, evaluation stops
//! with an error.

use vstd::prelude::*;
use vstd::string::StringSliceAdditionalSpecFns;
use std::rc::Rc;
use crate::assoc::AssocMap;
use crate::ast::{ASTNode, FunctionDecl, LiteralValue, PeekArm, share_rc};
use crate::errors::{RuntimeError, ErrSpec, Span};
use crate::heap::{HeapObject, InstanceBox, display, display_box, bool_text, DISPLAY_DEPTH};
use crate::interp::{NyashInterpreter, ControlFlow, heap_get};
use crate::methods::{
    views, is_named, arity_error, string_method, integer_method, bool_method, null_method, array_method,
    map_method, array_step, array_replaced, map_step, map_replaced,
};
use crate::ops::{binary_op_values, unary_op_value, is_truthy, compare_values, values_equal, binary_op_spec, unary_op_spec, outcome};
use crate::state::{heap_wf, lemma_heap_push, SharedState, BoxDeclaration};
use crate::text::{append_text, chars_of, i64_to_string, int_text};
use crate::value::{NyashBox, BoxSpec, box_type_name_spec};

verus! {

/// No static box definition has gone: each name defined before is defined after.
pub open spec fn defs_kept(a: SharedState, b: SharedState) -> bool {
    forall|k: Seq<char>| #[trigger] a.static_box_definitions@.contains_key(k) ==> b.static_box_definitions@.contains_key(k)
}

/// What `ensure_static_box_initialized(name)` promises: an undeclared box is
/// an undefined class, a box being initialized is a circular dependency, an
/// initialized box needs nothing; whatever succeeds leaves the box initialized.
pub open spec fn static_init_post(s: NyashInterpreter, t: NyashInterpreter, name: Seq<char>, r: Result<(), RuntimeError>) -> bool {
    &&& match s.shared.static_box_definitions@.get(name) {
        None => r matches Err(e) && e@ == ErrSpec::UndefinedClass(name) && t == s,
        Some(d) => match d.initialization_state {
            crate::state::StaticBoxState::Initialized => r is Ok && t == s,
            crate::state::StaticBoxState::Initializing => r matches Err(e) && e@ == ErrSpec::RuntimeFailure(
                "Circular dependency detected during initialization of static box '"@ + name + "'"@)
                && t == s,
            crate::state::StaticBoxState::NotInitialized => true,
        },
    }
    &&& r is Ok ==> t.shared.static_box_definitions@.contains_key(name)
        && t.shared.static_box_definitions@[name].initialization_state is Initialized
}

/// Whether the statics namespace of `s` is missing or an instance, so that
/// a singleton can be registered in it.
pub open spec fn statics_ok(s: NyashInterpreter) -> bool {
    match crate::interp::statics_field(s.shared) {
        None => true,
        Some(NyashBox::InstanceBox(h)) => instance_at(s.shared.heap@, h) is Some,
        Some(_) => false,
    }
}

/// The handle that the statics namespace of `t` holds under `name`.
pub open spec fn singleton_of(t: NyashInterpreter, name: Seq<char>) -> Option<usize> {
    match crate::interp::statics_field(t.shared) {
        Some(NyashBox::InstanceBox(ns)) => match instance_at(t.shared.heap@, ns) {
            Some(inst) => if inst.fields@.contains_key(name) {
                match inst.fields@[name] {
                    NyashBox::InstanceBox(k) => Some(k),
                    _ => None,
                }
            } else {
                None
            },
            None => None,
        },
        _ => None,
    }
}

/// The statics namespace of `t` holds, under `name`, an instance of
/// "<name>_singleton" with the init fields of `d`, all void, and its methods.
pub open spec fn singleton_made(t: NyashInterpreter, name: Seq<char>, d: crate::state::StaticBoxDefinition) -> bool {
    &&& singleton_of(t, name) is Some
    &&& instance_at(t.shared.heap@, singleton_of(t, name)->0) is Some
    &&& fresh_instance(instance_at(t.shared.heap@, singleton_of(t, name)->0)->0, name + "_singleton"@,
        names(d.init_fields@), d.methods@)
}

/// The state in which the static initializer of `d` runs, made from `s`:
/// the singleton is registered and bound to `me`; the other variables are
/// those of `s`.
pub open spec fn init_scope(s: NyashInterpreter, m: NyashInterpreter, name: Seq<char>, d: crate::state::StaticBoxDefinition) -> bool {
    &&& singleton_made(m, name, d)
    &&& m.local_vars@ == s.local_vars@.insert("me"@, NyashBox::InstanceBox(singleton_of(m, name)->0))
    &&& m.outbox_vars == s.outbox_vars
}

/// What initializing a declared static box that is not initialized yet
/// does, when its statics namespace can take the singleton and its
/// initializer, if any, only reads the state: with no initializer it
/// succeeds; with one, it succeeds exactly when each of its statements
/// evaluates, with `me` bound to the singleton, else it fails with the first
/// error. A success leaves the box initialized and a new singleton, one
/// that was not in the heap before, registered.
pub open spec fn first_init_post(s: NyashInterpreter, t: NyashInterpreter, name: Seq<char>, fuel: int, r: Result<(), RuntimeError>) -> bool {
    let defs = s.shared.static_box_definitions@;
    (defs.contains_key(name) && defs[name].initialization_state is NotInitialized && statics_ok(s) && fuel > 1
        && (defs[name].static_init is None || all_pure(defs[name].static_init->0@, fuel - 1)))
    ==> {
        let d = defs[name];
        &&& d.static_init is None ==> r is Ok
        &&& d.static_init is Some ==> exists|m: NyashInterpreter| #[trigger] init_scope(s, m, name, d)
            && match pure_eval_args(m, d.static_init->0@) {
                Err(e) => r matches Err(x) && x@ == e,
                Ok(_) => r is Ok,
            }
        &&& r is Ok ==> t.shared.static_box_definitions@
                == defs.insert(name, crate::interp::with_state(d, crate::state::StaticBoxState::Initialized))
            && singleton_made(t, name, d) && singleton_of(t, name)->0 >= s.shared.heap@.len()
    }
}

/// What running the statements `stmts` of a static initializer, each with
/// `fuel`, in `s` does, leaving `t` with `r`: each one as `stmt_post` says,
/// in the state the one before it left; the first error ends the run with
/// it.
pub open spec fn init_run(s: NyashInterpreter, stmts: Seq<ASTNode>, fuel: int, t: NyashInterpreter,
    r: Result<(), RuntimeError>) -> bool
    decreases stmts.len(),
{
    if stmts.len() == 0 {
        t == s && r is Ok
    } else {
        exists|m: NyashInterpreter, r1: Result<NyashBox, RuntimeError>| #[trigger] stmt_post(s, stmts[0], fuel, m, r1)
            && match r1 {
                Err(e) => t == m && r == Err::<(), RuntimeError>(e),
                Ok(_) => init_run(m, stmts.drop_first(), fuel, t, r),
            }
    }
}

/// What initializing a declared static box that is not initialized yet
/// does, whatever its initializer, when its statics namespace can take the
/// singleton: with no initializer it succeeds; with one, its statements run
/// as `init_run` says with `me` bound to the new singleton, and the
/// initialization fails exactly when they do, with their error. A success
/// leaves the box initialized.
pub open spec fn init_any_post(s: NyashInterpreter, t: NyashInterpreter, name: Seq<char>, fuel: int, r: Result<(), RuntimeError>) -> bool {
    let defs = s.shared.static_box_definitions@;
    (defs.contains_key(name) && defs[name].initialization_state is NotInitialized && statics_ok(s) && fuel > 1)
    ==> {
        let d = defs[name];
        &&& d.static_init is None ==> r is Ok
        &&& d.static_init is Some ==> exists|m: NyashInterpreter, u: NyashInterpreter, ri: Result<(), RuntimeError>|
            #![trigger init_scope(s, m, name, d), init_run(m, d.static_init->0@, fuel - 1, u, ri)]
            init_scope(s, m, name, d) && init_run(m, d.static_init->0@, fuel - 1, u, ri)
            && match ri {
                Err(e) => r == Err::<(), RuntimeError>(e),
                Ok(_) => r is Ok,
            }
        &&& r is Ok ==> t.shared.static_box_definitions@.contains_key(name)
            && t.shared.static_box_definitions@[name].initialization_state is Initialized
    }
}

/// Expressions that only read the state: literals, variables, `me`, and the
/// operators applied to such expressions.
pub open spec fn pure_expr(e: ASTNode) -> bool
    decreases e,
{
    match e {
        ASTNode::Literal { .. } => true,
        ASTNode::Variable { .. } => true,
        ASTNode::Me => true,
        ASTNode::This => true,
        ASTNode::ThisField { .. } => true,
        ASTNode::MeField { .. } => true,
        ASTNode::BinaryOp { left, right, .. } => pure_expr(*left) && pure_expr(*right),
        ASTNode::UnaryOp { operand, .. } => pure_expr(*operand),
        _ => false,
    }
}

/// How deeply an expression nests its operators.
pub open spec fn expr_depth(e: ASTNode) -> nat
    decreases e,
{
    match e {
        ASTNode::BinaryOp { left, right, .. } => {
            let a = expr_depth(*left);
            let b = expr_depth(*right);
            1 + if a > b { a } else { b }
        },
        ASTNode::UnaryOp { operand, .. } => 1 + expr_depth(*operand),
        _ => 1,
    }
}

/// The value of an expression that only reads the state `s`: the operands
/// are evaluated left to right and the first error is the result.
pub open spec fn pure_eval(s: NyashInterpreter, e: ASTNode) -> Result<BoxSpec, ErrSpec>
    decreases e,
{
    match e {
        ASTNode::Literal { value } => Ok(literal_spec(value)),
        ASTNode::Variable { name, span } => match s.resolve_spec(name@) {
            Some(v) => Ok(v),
            None => Err(ErrSpec::UndefinedVariableAt(name@, span)),
        },
        ASTNode::Me => match s.resolve_spec("me"@) {
            Some(v) => Ok(v),
            None => Err(ErrSpec::InvalidOperation("'me' is only available inside methods"@)),
        },
        ASTNode::This => match s.resolve_spec("me"@) {
            Some(v) => Ok(v),
            None => Err(ErrSpec::InvalidOperation("'this' is only available inside methods"@)),
        },
        ASTNode::ThisField { field } => me_field_spec(s, field@, "this"@),
        ASTNode::MeField { field } => me_field_spec(s, field@, "me"@),
        ASTNode::BinaryOp { operator, left, right } => match pure_eval(s, *left) {
            Err(x) => Err(x),
            Ok(l) => match pure_eval(s, *right) {
                Err(x) => Err(x),
                Ok(r) => binary_op_spec(s.shared.heap@, operator, l, r),
            },
        },
        ASTNode::UnaryOp { operator, operand } => match pure_eval(s, *operand) {
            Err(x) => Err(x),
            Ok(v) => unary_op_spec(operator, v),
        },
        _ => Err(ErrSpec::UncaughtException),
    }
}

/// Each of the expressions only reads the state and nests less deeply than
/// `fuel`.
pub open spec fn all_pure(args: Seq<ASTNode>, fuel: int) -> bool {
    forall|i: int| 0 <= i < args.len() ==> pure_expr(#[trigger] args[i]) && expr_depth(args[i]) < fuel
}

/// The values of expressions that only read the state `s`, evaluated left to
/// right; the first error is the result.
pub open spec fn pure_eval_args(s: NyashInterpreter, args: Seq<ASTNode>) -> Result<Seq<BoxSpec>, ErrSpec>
    decreases args.len(),
{
    if args.len() == 0 {
        Ok(Seq::empty())
    } else {
        match pure_eval_args(s, args.drop_last()) {
            Err(e) => Err(e),
            Ok(vs) => match pure_eval(s, args.last()) {
                Err(e) => Err(e),
                Ok(v) => Ok(vs.push(v)),
            },
        }
    }
}

/// Once a prefix of the arguments fails, all of them fail the same way.
pub proof fn lemma_pure_eval_args_err(s: NyashInterpreter, args: Seq<ASTNode>, k: int)
    requires
        0 <= k <= args.len(),
        pure_eval_args(s, args.take(k)) is Err,
    ensures
        pure_eval_args(s, args) == pure_eval_args(s, args.take(k)),
    decreases args.len() - k,
{
    if k < args.len() {
        assert(args.take(k + 1).drop_last() =~= args.take(k));
        lemma_pure_eval_args_err(s, args, k + 1);
    } else {
        assert(args.take(k) =~= args);
    }
}

/// Whether `object.method` names a static function or a static box, which
/// a method call tries before it evaluates `object`.
pub open spec fn static_target(s: NyashInterpreter, object: ASTNode, method: Seq<char>) -> bool {
    match object {
        ASTNode::Variable { name, .. } => (s.shared.static_functions@.contains_key(name@)
            && s.shared.static_functions@[name@]@.contains_key(method))
            || s.shared.static_box_definitions@.contains_key(name@),
        _ => false,
    }
}

/// What a method call on the value `recv` gives when its arguments only
/// read the state `s`: the methods every value has (but `clone`), and the
/// methods of integers, booleans, null, void and strings (but `split`).
/// `None` where the call makes objects or runs declared code.
pub open spec fn method_call_pure_spec(s: NyashInterpreter, recv: BoxSpec, m: Seq<char>, args: Seq<ASTNode>)
    -> Option<Result<BoxSpec, ErrSpec>>
{
    let n = args.len();
    if m == "toString"@ {
        Some(if n == 0 {
            Ok(BoxSpec::StringBox(display(s.shared.heap@, recv, DISPLAY_DEPTH as nat)))
        } else {
            Err(crate::methods::arity_err(m, 0, n))
        })
    } else if m == "type"@ {
        Some(if n == 0 { Ok(BoxSpec::StringBox(box_type_name_spec(recv))) } else { Err(crate::methods::arity_err(m, 0, n)) })
    } else if m == "equals"@ {
        Some(if n == 1 {
            match pure_eval(s, args[0]) {
                Ok(x) => Ok(BoxSpec::BoolBox(values_equal(recv, x))),
                Err(e) => Err(e),
            }
        } else {
            Err(crate::methods::arity_err(m, 1, n))
        })
    } else if m == "clone"@ {
        None
    } else {
        match recv {
            BoxSpec::VoidBox => Some(Err(ErrSpec::TypeError("Cannot call method '"@ + m + "' on non-instance type"@))),
            BoxSpec::IntegerBox(i) => Some(match pure_eval_args(s, args) {
                Err(e) => Err(e),
                Ok(vs) => crate::methods::integer_method_spec(i, m, vs),
            }),
            BoxSpec::BoolBox(b) => Some(match pure_eval_args(s, args) {
                Err(e) => Err(e),
                Ok(vs) => crate::methods::bool_method_spec(b, m, vs),
            }),
            BoxSpec::NullBox => Some(match pure_eval_args(s, args) {
                Err(e) => Err(e),
                Ok(vs) => crate::methods::null_method_spec(m, vs),
            }),
            BoxSpec::StringBox(t) => if m == "split"@ {
                None
            } else {
                Some(match pure_eval_args(s, args) {
                    Err(e) => Err(e),
                    Ok(vs) => crate::methods::string_method_spec(t, m, vs),
                })
            },
            BoxSpec::ArrayBox(h) => Some(match pure_eval_args(s, args) {
                Err(e) => Err(e),
                Ok(vs) => {
                    let heap = s.shared.heap@;
                    if h < heap.len() && heap[h as int] is Array {
                        array_step(heap, views(heap[h as int]->Array_0@), m, vs).result
                    } else {
                        Err(ErrSpec::InvalidOperation("Cannot call method '"@ + m + "' on a dangling array"@))
                    }
                },
            }),
            BoxSpec::MapBox(h) => Some(match pure_eval_args(s, args) {
                Err(e) => Err(e),
                Ok(vs) => {
                    let heap = s.shared.heap@;
                    if h < heap.len() && heap[h as int] is Dict {
                        crate::methods::map_result(heap, heap[h as int]->Dict_0, m, vs)
                    } else {
                        Err(ErrSpec::InvalidOperation("Cannot call method '"@ + m + "' on a dangling map"@))
                    }
                },
            }),
            _ => None,
        }
    }
}

/// The instance that `object.fini()` finalizes, when `object` is a pure
/// expression that denotes an instance whose class name has no '#'.
pub open spec fn fini_target(s: NyashInterpreter, object: ASTNode) -> Option<usize> {
    match pure_eval(s, object) {
        Ok(BoxSpec::InstanceBox(h)) => match instance_at(s.shared.heap@, h) {
            Some(inst) => if !inst.class_name@.contains('#') { Some(h) } else { None },
            None => None,
        },
        _ => None,
    }
}

/// Nothing but the heap differs between `s` and `t`.
pub open spec fn only_heap_changed(s: NyashInterpreter, t: NyashInterpreter) -> bool {
    &&& t.same_but_shared(&s)
    &&& t.shared.global_box == s.shared.global_box
    &&& t.shared.box_declarations == s.shared.box_declarations
    &&& t.shared.static_functions == s.shared.static_functions
    &&& t.shared.static_box_definitions == s.shared.static_box_definitions
    &&& t.shared.included_files == s.shared.included_files
}

/// A method of the array at `h` applied to evaluated arguments `a`, from
/// heap `before` to heap `after`: the array's new items, the result, and an
/// array that some methods make; a handle that holds no array is an error.
pub open spec fn array_call_post(before: Seq<HeapObject>, after: Seq<HeapObject>, h: usize, m: Seq<char>,
    a: Seq<BoxSpec>, r: Result<NyashBox, RuntimeError>) -> bool
{
    if h < before.len() && before[h as int] is Array {
        let st = array_step(before, views(before[h as int]->Array_0@), m, a);
        &&& outcome(r) == st.result
        &&& array_replaced(before, after, h as int, st.items)
        &&& match st.made {
            None => after.len() == before.len(),
            Some(made) => after.len() == before.len() + 1 && after.last() is Array
                && views(after.last()->Array_0@) == made,
        }
    } else {
        outcome(r) == Err::<BoxSpec, ErrSpec>(ErrSpec::InvalidOperation("Cannot call method '"@ + m + "' on a dangling array"@))
            && after == before
    }
}

/// A method of the map at `h` applied to evaluated arguments `a`, from heap
/// `before` to heap `after`; a handle that holds no map is an error.
pub open spec fn map_call_post(before: Seq<HeapObject>, after: Seq<HeapObject>, h: usize, m: Seq<char>,
    a: Seq<NyashBox>, r: Result<NyashBox, RuntimeError>) -> bool
{
    if h < before.len() && before[h as int] is Dict {
        let st = map_step(before, before[h as int]->Dict_0, m, a);
        &&& outcome(r) == st.result
        &&& map_replaced(before, after, h as int, st.entries)
        &&& match st.made {
            None => after.len() == before.len(),
            Some(made) => after.len() == before.len() + 1 && after.last() is Array
                && views(after.last()->Array_0@) == made,
        }
    } else {
        outcome(r) == Err::<BoxSpec, ErrSpec>(ErrSpec::InvalidOperation("Cannot call method '"@ + m + "' on a dangling map"@))
            && after == before
    }
}

/// `fini` is none of the methods that every value has, and those methods
/// have different names.
proof fn lemma_method_names()
    ensures
        "fini"@ != "toString"@,
        "fini"@ != "type"@,
        "fini"@ != "equals"@,
        "fini"@ != "clone"@,
        "clone"@ != "toString"@,
        "clone"@ != "type"@,
        "clone"@ != "equals"@,
{
    reveal_strlit("fini");
    reveal_strlit("toString");
    reveal_strlit("type");
    reveal_strlit("equals");
    reveal_strlit("clone");
    assert("fini"@.len() != "toString"@.len());
    assert("fini"@[0] != "type"@[0]);
    assert("fini"@.len() != "equals"@.len());
    assert("fini"@.len() != "clone"@.len());
    assert("clone"@.len() != "toString"@.len());
    assert("clone"@.len() != "type"@.len());
    assert("clone"@.len() != "equals"@.len());
}

/// Whether the declaration of `class` names StringBox or IntegerBox among
/// the boxes it extends.
pub open spec fn has_builtin_parent(s: NyashInterpreter, class: Seq<char>) -> bool {
    s.shared.box_declarations@.contains_key(class)
        && exists|i: int| 0 <= i < s.shared.box_declarations@[class].extends@.len()
            && (#[trigger] s.shared.box_declarations@[class].extends@[i]@ == "StringBox"@
                || s.shared.box_declarations@[class].extends@[i]@ == "IntegerBox"@)
}

/// What a call of a method other than `fini` on the instance at `h` gives
/// when it fails before any method body runs: a dangling handle, arguments
/// that fail, a wrong number of arguments, or a method the instance lacks.
/// `None` where a method body or a builtin parent decides.
pub open spec fn instance_call_spec(s: NyashInterpreter, h: usize, m: Seq<char>, args: Seq<ASTNode>)
    -> Option<Result<BoxSpec, ErrSpec>>
{
    match instance_at(s.shared.heap@, h) {
        None => Some(Err(ErrSpec::InvalidOperation("Cannot call method '"@ + m + "' on a dangling instance"@))),
        Some(inst) => if inst.methods@.contains_key(m) {
            match pure_eval_args(s, args) {
                Err(e) => Some(Err(e)),
                Ok(vs) => if vs.len() != inst.methods@[m].params@.len() {
                    Some(Err(ErrSpec::InvalidOperation(count_text("Method "@, m, " expects "@,
                        inst.methods@[m].params@.len(), vs.len()))))
                } else {
                    None
                },
            }
        } else if !has_builtin_parent(s, inst.class_name@) {
            Some(Err(ErrSpec::InvalidOperation("Method '"@ + m + "' not found in "@ + inst.class_name@)))
        } else {
            None
        },
    }
}

/// What calling the method `m` of the instance at `h` with the arguments
/// `args` does when the instance has that method, the arguments only read
/// the state and match its parameters in number, and its body only reads
/// the state: the body runs with `me` bound to the instance and the
/// parameters to the arguments' values, and gives the value of its `return`
/// (else of its last statement) or its first error; a success changes
/// nothing but, for the duration of the call, the local variables.
pub open spec fn user_method_post(s: NyashInterpreter, t: NyashInterpreter, h: usize, m: Seq<char>, args: Seq<ASTNode>,
    fuel: int, r: Result<NyashBox, RuntimeError>) -> bool
{
    match instance_at(s.shared.heap@, h) {
        Some(inst) => inst.methods@.contains_key(m) ==> match pure_eval_args(s, args) {
            Ok(vs) => vs.len() == inst.methods@[m].params@.len() && simple_stmts(inst.methods@[m].body@, fuel - 2)
                && s.control_flow is Normal ==> {
                &&& exists|u: NyashInterpreter, a: Seq<NyashBox>|
                    #[trigger] call_state(s, u, Some(NyashBox::InstanceBox(h)), inst.methods@[m].params@, a)
                    && crate::methods::views(a) == vs && outcome(r) == simple_body(u, inst.methods@[m].body@)
                &&& r is Ok ==> same_but_locals(s, t)
            },
            Err(_) => true,
        },
        None => true,
    }
}

/// Whether `m` is one of the methods every value has.
pub open spec fn universal_method(m: Seq<char>) -> bool {
    m == "toString"@ || m == "type"@ || m == "equals"@ || m == "clone"@
}

/// `instance_call_spec` for `object.m(args)` where `object` denotes an
/// instance and `m` is none of the methods every value has, nor `fini`.
pub open spec fn instance_method_call_spec(s: NyashInterpreter, object: ASTNode, m: Seq<char>, args: Seq<ASTNode>)
    -> Option<Result<BoxSpec, ErrSpec>>
{
    if m == "toString"@ || m == "type"@ || m == "equals"@ || m == "clone"@ || m == "fini"@ {
        None
    } else {
        match pure_eval(s, object) {
            Ok(BoxSpec::InstanceBox(h)) => instance_call_spec(s, h, m, args),
            _ => None,
        }
    }
}

/// Why `object.fini()` is refused before anything runs: `object` is a weak
/// field of `me`, which does not own what it refers to.
pub open spec fn fini_refusal(s: NyashInterpreter, object: ASTNode) -> Option<ErrSpec> {
    match object {
        ASTNode::FieldAccess { object: inner, field } => {
            let is_me = match *inner {
                ASTNode::Me => true,
                ASTNode::This => true,
                ASTNode::Variable { name, .. } => name@ == "me"@,
                _ => false,
            };
            if is_me && s.resolve_spec("me"@) is Some && s.resolve_spec("me"@)->0 is InstanceBox
                && instance_at(s.shared.heap@, s.resolve_spec("me"@)->0->InstanceBox_0) is Some
                && weak_field_spec(s, instance_at(s.shared.heap@, s.resolve_spec("me"@)->0->InstanceBox_0)->0.class_name@, field@) {
                Some(ErrSpec::InvalidOperation("Cannot finalize weak field '"@ + field@ + "' (non-owning reference)"@))
            } else {
                None
            }
        },
        _ => None,
    }
}

/// `t` is `s` but for where execution goes next.
pub open spec fn same_but_flow(s: NyashInterpreter, t: NyashInterpreter) -> bool {
    &&& t.shared == s.shared
    &&& t.local_vars == s.local_vars
    &&& t.outbox_vars == s.outbox_vars
    &&& t.invalidated_ids == s.invalidated_ids
    &&& t.runtime == s.runtime
    &&& t.discard_context == s.discard_context
    &&& t.output == s.output
}

/// A statement that only reads the state: a pure expression, or `return`
/// of one or of nothing; its expression nests less deeply than `fuel`.
pub open spec fn simple_stmt(st: ASTNode, fuel: int) -> bool {
    match st {
        ASTNode::Return { value } => match value {
            None => true,
            Some(e) => pure_expr(*e) && expr_depth(*e) < fuel,
        },
        _ => pure_expr(st) && expr_depth(st) < fuel,
    }
}

/// Each statement only reads the state.
pub open spec fn simple_stmts(stmts: Seq<ASTNode>, fuel: int) -> bool {
    forall|i: int| 0 <= i < stmts.len() ==> simple_stmt(#[trigger] stmts[i], fuel)
}

/// Running statements that only read `s`, in order, after one whose value
/// was `last`: the first error, or the value of the last statement run and
/// the value of the `return` that ended the run, if one did.
pub open spec fn simple_run(s: NyashInterpreter, stmts: Seq<ASTNode>, last: BoxSpec)
    -> Result<(BoxSpec, Option<BoxSpec>), ErrSpec>
    decreases stmts.len(),
{
    if stmts.len() == 0 {
        Ok((last, None))
    } else {
        match stmts[0] {
            ASTNode::Return { value } => match value {
                None => Ok((BoxSpec::VoidBox, Some(BoxSpec::VoidBox))),
                Some(e) => match pure_eval(s, *e) {
                    Err(x) => Err(x),
                    Ok(v) => Ok((BoxSpec::VoidBox, Some(v))),
                },
            },
            _ => match pure_eval(s, stmts[0]) {
                Err(x) => Err(x),
                Ok(v) => simple_run(s, stmts.drop_first(), v),
            },
        }
    }
}

/// What a function body of statements that only read `s` gives: the value
/// it returns, else the value of its last statement (void for none).
pub open spec fn simple_body(s: NyashInterpreter, stmts: Seq<ASTNode>) -> Result<BoxSpec, ErrSpec> {
    match simple_run(s, stmts, BoxSpec::VoidBox) {
        Err(x) => Err(x),
        Ok((v, None)) => Ok(v),
        Ok((_, Some(rv))) => Ok(rv),
    }
}

/// The local variables of a call: `me` when given, then each of the first
/// `n` parameters bound to its argument, in order.
pub open spec fn call_locals(me: Option<NyashBox>, params: Seq<String>, args: Seq<NyashBox>, n: nat)
    -> Map<Seq<char>, NyashBox>
    decreases n,
{
    if n == 0 {
        match me {
            Some(m) => Map::<Seq<char>, NyashBox>::empty().insert("me"@, m),
            None => Map::<Seq<char>, NyashBox>::empty(),
        }
    } else {
        call_locals(me, params, args, (n - 1) as nat).insert(params[n - 1]@, args[n - 1])
    }
}

/// `t` is `s` but for its local variables.
pub open spec fn same_but_locals(s: NyashInterpreter, t: NyashInterpreter) -> bool {
    &&& t.shared == s.shared
    &&& t.outbox_vars == s.outbox_vars
    &&& t.control_flow == s.control_flow
    &&& t.invalidated_ids == s.invalidated_ids
    &&& t.runtime == s.runtime
    &&& t.discard_context == s.discard_context
    &&& t.output == s.output
}

/// `t` is the state in which a call made in `s` runs its body: only the
/// locals differ, holding `me` and as many parameters as there are both
/// parameters and arguments.
pub open spec fn call_state(s: NyashInterpreter, t: NyashInterpreter, me: Option<NyashBox>, params: Seq<String>,
    args: Seq<NyashBox>) -> bool
{
    let n = if params.len() < args.len() { params.len() } else { args.len() };
    same_but_locals(s, t) && t.local_vars@ == call_locals(me, params, args, n)
}

/// `t` is the state in which a static function called in `s` runs its
/// body: no outbox variables, the parameters bound to the arguments as
/// locals, everything else as in `s`.
pub open spec fn static_call_state(s: NyashInterpreter, t: NyashInterpreter, params: Seq<String>, args: Seq<NyashBox>) -> bool {
    &&& t.shared == s.shared
    &&& t.control_flow == s.control_flow
    &&& t.invalidated_ids == s.invalidated_ids
    &&& t.runtime == s.runtime
    &&& t.discard_context == s.discard_context
    &&& t.output == s.output
    &&& t.outbox_vars@ == Map::<Seq<char>, NyashBox>::empty()
    &&& t.local_vars@ == call_locals(None, params, args, params.len())
}

/// `t` is `s` but for the exact form of its local and outbox variables,
/// which hold the same entries.
pub open spec fn same_variables(s: NyashInterpreter, t: NyashInterpreter) -> bool {
    &&& t.shared == s.shared
    &&& t.control_flow == s.control_flow
    &&& t.invalidated_ids == s.invalidated_ids
    &&& t.runtime == s.runtime
    &&& t.discard_context == s.discard_context
    &&& t.output == s.output
    &&& t.outbox_vars@ == s.outbox_vars@
    &&& t.local_vars@ == s.local_vars@
}

/// The handle of the singleton of the static box `name`, as the statics
/// namespace of `s` gives it, or why there is none.
pub open spec fn static_box_target(s: NyashInterpreter, name: Seq<char>) -> Result<usize, ErrSpec> {
    let not_instance = ErrSpec::TypeError("statics field is not an InstanceBox"@);
    match crate::interp::statics_field(s.shared) {
        None => Err(ErrSpec::RuntimeFailure("statics namespace not found in GlobalBox"@)),
        Some(NyashBox::InstanceBox(ns)) => match instance_at(s.shared.heap@, ns) {
            None => Err(not_instance),
            Some(inst) => if !inst.fields@.contains_key(name) {
                Err(ErrSpec::InvalidOperation("Static box '"@ + name + "' not found in statics namespace"@))
            } else {
                match inst.fields@[name] {
                    NyashBox::InstanceBox(h) => Ok(h),
                    _ => Err(ErrSpec::TypeError("Static box '"@ + name + "' is not an InstanceBox"@)),
                }
            },
        },
        Some(_) => Err(not_instance),
    }
}

/// Whether the static box `name` is declared and already initialized.
pub open spec fn static_box_ready(s: NyashInterpreter, name: Seq<char>) -> bool {
    s.shared.static_box_definitions@.contains_key(name)
        && s.shared.static_box_definitions@[name].initialization_state is Initialized
}

/// Why storing into `field` of the instance at `h` fails in `s`, if it does:
/// no instance there, or an instance without that field.
pub open spec fn store_error(s: NyashInterpreter, h: usize, field: Seq<char>) -> Option<ErrSpec> {
    match instance_at(s.shared.heap@, h) {
        None => Some(ErrSpec::TypeError("Cannot assign a field of a non-instance value"@)),
        Some(inst) => if inst.fields@.contains_key(field) {
            None
        } else {
            Some(ErrSpec::InvalidOperation("Field '"@ + field + "' does not exist in "@ + inst.class_name@))
        },
    }
}

/// Nothing but the heap's objects differs between `s` and `t`, and the heap
/// keeps its length.
pub open spec fn store_frame(s: NyashInterpreter, t: NyashInterpreter) -> bool {
    &&& t.local_vars == s.local_vars
    &&& t.outbox_vars == s.outbox_vars
    &&& t.control_flow == s.control_flow
    &&& t.shared.global_box == s.shared.global_box
    &&& t.shared.box_declarations == s.shared.box_declarations
    &&& t.shared.static_box_definitions == s.shared.static_box_definitions
    &&& t.shared.static_functions == s.shared.static_functions
    &&& t.shared.heap@.len() == s.shared.heap@.len()
}

/// In `t`, the instance at `h` holds `v` in `field`, with its other fields,
/// class and methods as in `s`; every other object is as in `s`.
pub open spec fn store_done(s: NyashInterpreter, t: NyashInterpreter, h: usize, field: Seq<char>, v: NyashBox) -> bool {
    &&& store_frame(s, t)
    &&& instance_at(t.shared.heap@, h) is Some
    &&& instance_at(t.shared.heap@, h)->0.fields@ == instance_at(s.shared.heap@, h)->0.fields@.insert(field, v)
    &&& instance_at(t.shared.heap@, h)->0.class_name == instance_at(s.shared.heap@, h)->0.class_name
    &&& instance_at(t.shared.heap@, h)->0.methods == instance_at(s.shared.heap@, h)->0.methods
    &&& forall|j: int| 0 <= j < s.shared.heap@.len() && j != h ==> #[trigger] t.shared.heap@[j] == s.shared.heap@[j]
}

/// What `object.field = value` does when `object` and `value` only read
/// `s`: the first error of the two, the error of a non-instance or of a
/// missing field, or else the value is stored and given back.
pub open spec fn field_assign_post(s: NyashInterpreter, t: NyashInterpreter, object: ASTNode, field: Seq<char>,
    value: ASTNode, r: Result<NyashBox, RuntimeError>) -> bool
{
    match pure_eval(s, value) {
        Err(x) => r matches Err(e) && e@ == x && t == s,
        Ok(x) => match pure_eval(s, object) {
            Err(x) => r matches Err(e) && e@ == x && t == s,
            Ok(BoxSpec::InstanceBox(h)) => match store_error(s, h, field) {
                Some(x) => r matches Err(e) && e@ == x && store_frame(s, t) && t.shared.heap == s.shared.heap,
                None => r matches Ok(v) && v@ == x && store_done(s, t, h, field, v),
            },
            Ok(_) => r matches Err(e) && e@ == ErrSpec::TypeError("Cannot assign a field of a non-instance value"@) && t == s,
        },
    }
}

/// Storing `v` into the field `field` of `me` in `s`, leaving `t` with `r`:
/// the store into the instance `me` names, as `store_error` and
/// `store_done` say; `me` bound to no instance, or not bound, is an error.
pub open spec fn me_store_post(s: NyashInterpreter, t: NyashInterpreter, field: Seq<char>, v: NyashBox,
    r: Result<(), RuntimeError>) -> bool
{
    match s.resolve_spec("me"@) {
        Some(BoxSpec::InstanceBox(h)) => match store_error(s, h, field) {
            Some(y) => r matches Err(e) && e@ == y && store_frame(s, t) && t.shared.heap == s.shared.heap,
            None => r is Ok && store_done(s, t, h, field, v),
        },
        Some(_) => r matches Err(e) && e@ == ErrSpec::TypeError("'this' is not an instance"@) && t == s,
        None => r matches Err(e) && e@ == ErrSpec::InvalidOperation("'this' is not bound in the current context"@) && t == s,
    }
}

/// What `me.field = value` (or `this.field = value`) does in `s`, leaving
/// `t` with `r`, when `value` only reads the state: its error; else the
/// store into the instance `me` names, as `store_error` and `store_done`
/// say; `me` bound to no instance, or not bound at all, is an error.
pub open spec fn me_assign_post(s: NyashInterpreter, t: NyashInterpreter, field: Seq<char>, value: ASTNode,
    r: Result<NyashBox, RuntimeError>) -> bool
{
    match pure_eval(s, value) {
        Err(x) => r matches Err(e) && e@ == x && t == s,
        Ok(x) => match s.resolve_spec("me"@) {
            Some(BoxSpec::InstanceBox(h)) => match store_error(s, h, field) {
                Some(y) => r matches Err(e) && e@ == y && store_frame(s, t) && t.shared.heap == s.shared.heap,
                None => r matches Ok(v) && v@ == x && store_done(s, t, h, field, v),
            },
            Some(_) => r matches Err(e) && e@ == ErrSpec::TypeError("'this' is not an instance"@) && t == s,
            None => r matches Err(e) && e@ == ErrSpec::InvalidOperation("'this' is not bound in the current context"@)
                && t == s,
        },
    }
}

/// `object.fini()` in `s` finds an instance that was finalized already, and
/// is no weak field of `me`.
pub open spec fn fini_again(s: NyashInterpreter, object: ASTNode) -> bool {
    &&& pure_eval(s, object) is Ok
    &&& pure_eval(s, object)->Ok_0 is InstanceBox
    &&& instance_at(s.shared.heap@, pure_eval(s, object)->Ok_0->InstanceBox_0) is Some
    &&& fini_refusal(s, object) is None
    &&& s.invalidated_ids@.contains(pure_eval(s, object)->Ok_0->InstanceBox_0 as u64)
}

/// What `object.fini()` does, run in `s` and leaving `t` with `r`: a
/// success records the instance that `object` names as finalized, and a
/// call on an instance that is finalized already gives void and changes
/// nothing.
pub open spec fn fini_post(s: NyashInterpreter, t: NyashInterpreter, object: ASTNode, r: Result<NyashBox, RuntimeError>) -> bool {
    &&& (r is Ok && fini_target(s, object) is Some) ==> t.invalidated_ids@.contains(fini_target(s, object)->0 as u64)
    &&& fini_again(s, object) ==> (r matches Ok(v) && v@ == BoxSpec::VoidBox && t == s)
}

/// `new` with arguments that only read the state, nesting less deeply
/// than the fuel its statement leaves them.
pub open spec fn new_expr(e: ASTNode, fuel: int) -> bool {
    e matches ASTNode::New { arguments, .. } && fuel > 3 && all_pure(arguments@, fuel - 3)
}

/// What such a `new`, run as (part of) a statement with `fuel`, does: the
/// first error of its arguments, else what `execute_new` states of the
/// box it makes.
pub open spec fn new_step(s: NyashInterpreter, e: ASTNode, t: NyashInterpreter, r: Result<NyashBox, RuntimeError>, fuel: int) -> bool {
    match e {
        ASTNode::New { class, arguments, type_arguments } => match pure_eval_args(s, arguments@) {
            Err(x) => r matches Err(y) && y@ == x && t == s,
            Ok(vs) => match builtin_new_spec(s.shared.heap@, s.runtime.builtin_groups.basic,
                s.runtime.builtin_groups.collections, class@, vs) {
                Some(o) => outcome(r) == o,
                None => match declared_new_spec(s, class@, names(type_arguments@), vs.len(), (fuel - 3) as nat) {
                    Some(o) => outcome(r) == o && (o is Ok
                        ==> new_instance_post(s, t, class@, names(type_arguments@), (fuel - 3) as nat)),
                    None => ctor_new_post(s, t, class@, vs, (fuel - 3) as nat, r),
                },
            },
        },
        _ => false,
    }
}

/// What evaluating the expression `node` with `fuel` in `s` does, leaving
/// `t` with `r`: everything `execute_expression` states of it.
pub open spec fn expr_post(s: NyashInterpreter, node: ASTNode, fuel: int, t: NyashInterpreter,
    r: Result<NyashBox, RuntimeError>) -> bool
{
    &&& defs_kept(s.shared, t.shared)
    &&& t.wf()
    &&& fuel == 0 ==> (r matches Err(e) && e@ == step_limit_err() && t == s)
    &&& fuel > 0 ==> match node {
            ASTNode::Literal { value } => r matches Ok(v) && v@ == literal_spec(value) && t == s,
            ASTNode::Variable { name, span } => t == s && match s.resolve_spec(name@) {
                Some(v) => r matches Ok(x) && x@ == v,
                None => r matches Err(e) && e@ == ErrSpec::UndefinedVariableAt(name@, span),
            },
            ASTNode::Me => t == s && match s.resolve_spec("me"@) {
                Some(v) => r matches Ok(x) && x@ == v,
                None => r matches Err(e) && e@ == ErrSpec::InvalidOperation("'me' is only available inside methods"@),
            },
            ASTNode::This => t == s && match s.resolve_spec("me"@) {
                Some(v) => r matches Ok(x) && x@ == v,
                None => r matches Err(e) && e@ == ErrSpec::InvalidOperation("'this' is only available inside methods"@),
            },
            ASTNode::MethodCall { object, method, arguments } => {
                &&& fuel > 2 && pure_expr(*object)
                    && expr_depth(*object) < fuel - 1 && all_pure(arguments@, fuel - 2)
                    && !static_target(s, *object, method@) ==> match pure_eval(s, *object) {
                    Err(e) => r matches Err(x) && x@ == e && t == s,
                    Ok(recv) => match method_call_pure_spec(s, recv, method@, arguments@) {
                        Some(o) => outcome(r) == o,
                        None => true,
                    },
                }
                &&& fuel > 3 && pure_expr(*object)
                    && expr_depth(*object) < fuel - 1 && all_pure(arguments@, fuel - 3)
                    && !static_target(s, *object, method@) ==>
                    match instance_method_call_spec(s, *object, method@, arguments@) {
                        Some(o) => outcome(r) == o && t == s,
                        None => true,
                    }
                &&& fuel > 5 && pure_expr(*object) && expr_depth(*object) < fuel - 1 && all_pure(arguments@, fuel - 3)
                    && !static_target(s, *object, method@) && !universal_method(method@) && method@ != "fini"@ ==>
                    match pure_eval(s, *object) {
                        Ok(BoxSpec::InstanceBox(h)) => user_method_post(s, t, h, method@, arguments@, fuel - 3, r),
                        _ => true,
                    }
                &&& fuel > 2 ==> static_call_post(s, t, *object, method@, arguments@, fuel - 2, r)
            },
            ASTNode::FieldAccess { object, field } => fuel > 2 && pure_expr(*object) && expr_depth(*object) < fuel - 1
                && !(*object matches ASTNode::Variable { name, .. } && s.shared.static_box_definitions@.contains_key(name@))
                ==> t == s && match pure_eval(s, *object) {
                Err(e) => r matches Err(x) && x@ == e,
                Ok(recv) => outcome(r) == field_read_spec(s, recv, field@),
            },
            ASTNode::ThisField { field } => t == s && outcome(r) == me_field_spec(s, field@, "this"@),
            ASTNode::MeField { field } => t == s && outcome(r) == me_field_spec(s, field@, "me"@),
            ASTNode::FunctionCall { name, arguments } => {
                &&& fuel > 1 && !s.shared.global_box.methods@.contains_key(name@) ==>
                    (r matches Err(e) && e@ == ErrSpec::UndefinedFunction(name@) && t == s)
                &&& fuel > 2 && s.shared.global_box.methods@.contains_key(name@) && all_pure(arguments@, fuel - 2) ==>
                    match pure_eval_args(s, arguments@) {
                        Err(e) => r matches Err(x) && x@ == e && t == s,
                        Ok(vs) => vs.len() != s.shared.global_box.methods@[name@].params@.len() ==> (r matches Err(x)
                            && x@ == ErrSpec::InvalidOperation(count_text("Function "@, name@, " expects "@,
                                s.shared.global_box.methods@[name@].params@.len(), vs.len()))
                            && t == s),
                    }
            },
            ASTNode::FromCall { parent, method, arguments } => fuel > 1 ==>
                match from_call_spec(s, parent@, method@, arguments@.len()) {
                    Some(e) => r matches Err(x) && x@ == e && t == s,
                    None => true,
                },
            ASTNode::New { class, arguments, type_arguments } => fuel > 2 && all_pure(arguments@, fuel - 2) ==>
                match pure_eval_args(s, arguments@) {
                    Err(e) => r matches Err(x) && x@ == e && t == s,
                    Ok(vs) => match builtin_new_spec(s.shared.heap@, s.runtime.builtin_groups.basic,
                        s.runtime.builtin_groups.collections, class@, vs) {
                        Some(o) => outcome(r) == o,
                        None => match declared_new_spec(s, class@, names(type_arguments@), vs.len(), (fuel - 2) as nat) {
                            Some(o) => outcome(r) == o && (o is Ok
                                ==> new_instance_post(s, t, class@, names(type_arguments@), (fuel - 2) as nat)),
                            None => ctor_new_post(s, t, class@, vs, (fuel - 2) as nat, r),
                        },
                    },
                },
            _ => true,
        }
    &&& pure_expr(node) && fuel >= expr_depth(node) ==> outcome(r) == pure_eval(s, node)
            && t == s
}

/// What executing the statement `node` with `fuel` in `s` does, leaving
/// `t` with `r`: everything `execute_statement` states of it.
pub open spec fn stmt_post(s: NyashInterpreter, node: ASTNode, fuel: int, t: NyashInterpreter,
    r: Result<NyashBox, RuntimeError>) -> bool
{
    &&& defs_kept(s.shared, t.shared)
    &&& t.wf()
    &&& fuel == 0 ==> (r matches Err(e) && e@ == step_limit_err() && t == s)
    &&& fuel > 0 && node is Break ==> (r matches Ok(v) && v@ == BoxSpec::VoidBox && t.control_flow is Break)
    &&& fuel > 0 && node is Continue ==> (r matches Ok(v) && v@ == BoxSpec::VoidBox && t.control_flow is Continue)
    &&& fuel > 0 && plain_stmt(node, fuel) ==> plain_step(s, node, t, r, fuel)
    &&& pure_expr(node) && fuel > expr_depth(node) ==> outcome(r) == pure_eval(s, node)
            && t == s
    &&& match node {
            ASTNode::Assignment { target, value } => match *target {
                ASTNode::Variable { name, .. } => pure_expr(*value) && fuel > expr_depth(*value) ==>
                    match pure_eval(s, *value) {
                        Ok(x) => r matches Ok(v) && v@ == x
                            && crate::interp::set_variable_post(s, t, name@, v),
                        Err(x) => r matches Err(e) && e@ == x && t == s,
                    },
                ASTNode::FieldAccess { object, field } => pure_expr(*value) && fuel > expr_depth(*value)
                    && pure_expr(*object) && expr_depth(*object) < fuel - 1 ==>
                    field_assign_post(s, t, *object, field@, *value, r),
                ASTNode::ThisField { field } => pure_expr(*value) && fuel > expr_depth(*value) && fuel > 1 ==>
                    me_assign_post(s, t, field@, *value, r),
                ASTNode::MeField { field } => pure_expr(*value) && fuel > expr_depth(*value) && fuel > 1 ==>
                    me_assign_post(s, t, field@, *value, r),
                _ => true,
            },
            ASTNode::Print { expression } => pure_expr(*expression) && fuel > expr_depth(*expression) ==>
                match pure_eval(s, *expression) {
                    Ok(x) => r matches Ok(v) && v@ == BoxSpec::VoidBox
                        && t.output@ == s.output@.push(t.output@.last())
                        && t.output@.last()@ == display(s.shared.heap@, x, DISPLAY_DEPTH as nat)
                        && t.shared == s.shared
                        && t.local_vars == s.local_vars
                        && t.outbox_vars == s.outbox_vars
                        && t.control_flow == s.control_flow,
                    Err(x) => r matches Err(e) && e@ == x && t == s,
                },
            ASTNode::Return { value } => match value {
                None => fuel > 0 ==> (r matches Ok(v) && v@ == BoxSpec::VoidBox && same_but_flow(s, t)
                    && (t.control_flow matches ControlFlow::Return(x) && x@ == BoxSpec::VoidBox)),
                Some(e) => pure_expr(*e) && fuel > expr_depth(*e) ==> match pure_eval(s, *e) {
                    Ok(x) => r matches Ok(v) && v@ == BoxSpec::VoidBox && same_but_flow(s, t)
                        && (t.control_flow matches ControlFlow::Return(y) && y@ == x),
                    Err(x) => r matches Err(e) && e@ == x && t == s,
                },
            },
            ASTNode::Loop { condition, .. } => fuel > 2 && pure_expr(*condition) && expr_depth(*condition) < fuel - 1 ==>
                match pure_eval(s, *condition) {
                    Err(x) => r matches Err(e) && e@ == x && t == s,
                    Ok(c) => !crate::ops::truthy(c) ==> (r matches Ok(v) && v@ == BoxSpec::VoidBox && t == s),
                },
            ASTNode::If { condition, else_body, .. } => pure_expr(*condition) && fuel > expr_depth(*condition) ==>
                match pure_eval(s, *condition) {
                    Err(x) => r matches Err(e) && e@ == x && t == s,
                    Ok(c) => !crate::ops::truthy(c) && else_body is None ==>
                        (r matches Ok(v) && v@ == BoxSpec::VoidBox && t == s),
                },
            ASTNode::FunctionDeclaration { decl } => fuel > 0 ==> match r {
                Ok(v) => v@ == BoxSpec::VoidBox
                    && crate::interp::register_function_post(s, t, decl.name@, decl, Ok(())),
                Err(e) => crate::interp::register_function_post(s, t, decl.name@, decl, Err(e)),
            },
            _ => true,
        }
    &&& stmt_expr_post(s, node, fuel, t, r)
}

/// `vals` put in front of the values of `q`; an error stays as it is.
pub open spec fn prepend_values(vals: Seq<NyashBox>, q: Result<Seq<NyashBox>, RuntimeError>) -> Result<Seq<NyashBox>, RuntimeError> {
    match q {
        Ok(vs) => Ok(vals + vs),
        Err(e) => Err(e),
    }
}

/// The values of `r`, as a sequence.
pub open spec fn values_of(r: Result<Vec<NyashBox>, RuntimeError>) -> Result<Seq<NyashBox>, RuntimeError> {
    match r {
        Ok(v) => Ok(v@),
        Err(e) => Err(e),
    }
}

/// What evaluating the arguments `args` left to right, each with `fuel`,
/// in `s` does, leaving `t` with `r`: each one as `expr_post` says, in the
/// state the one before it left; the first error ends the run with it;
/// else the values, one for each argument, in order.
pub open spec fn args_rel(s: NyashInterpreter, args: Seq<ASTNode>, fuel: int, t: NyashInterpreter,
    r: Result<Seq<NyashBox>, RuntimeError>) -> bool
    decreases args.len(),
{
    if args.len() == 0 {
        t == s && r == Ok::<Seq<NyashBox>, RuntimeError>(Seq::empty())
    } else {
        exists|m: NyashInterpreter, r0: Result<NyashBox, RuntimeError>| #[trigger] expr_post(s, args[0], fuel, m, r0)
            && match r0 {
                Err(e) => t == m && r == Err::<Seq<NyashBox>, RuntimeError>(e),
                Ok(v) => match r {
                    Ok(vs) => vs.len() > 0 && vs[0] == v
                        && args_rel(m, args.drop_first(), fuel, t, Ok::<Seq<NyashBox>, RuntimeError>(vs.drop_first())),
                    Err(e) => args_rel(m, args.drop_first(), fuel, t, r),
                },
            }
    }
}

/// What a `new`, a method call or a function call with any parts does,
/// evaluated with `fuel` in `s` and leaving `t` with `r`. For `new`: its
/// arguments run as
/// `args_rel` says; their first error is the result; else the box is made
/// from their values in the state they left, as `new_values_post` says. A
/// method call is as `builtin_call_general_post` says. A call of a defined
/// function runs its arguments the same way, checks their number, and runs
/// the function on their values as `call_fn_post` says; a `from` call that
/// goes ahead is as `from_args_post` says.
pub open spec fn call_args_post(s: NyashInterpreter, node: ASTNode, fuel: int, t: NyashInterpreter,
    r: Result<NyashBox, RuntimeError>) -> bool
{
    match node {
        ASTNode::New { class, arguments, type_arguments } => fuel > 2 ==>
            exists|m: NyashInterpreter, ra: Result<Seq<NyashBox>, RuntimeError>|
                #[trigger] args_rel(s, arguments@, fuel - 3, m, ra)
                && match ra {
                    Err(e) => r == Err::<NyashBox, RuntimeError>(e) && t == m,
                    Ok(a) => new_values_post(m, t, class@, names(type_arguments@), a, (fuel - 2) as nat, r),
                },
        ASTNode::MethodCall { object, method, arguments } => fuel > 2 ==>
            builtin_call_general_post(s, *object, method@, arguments@, fuel - 2, t, r)
            && static_run_post(s, t, *object, method@, arguments@, fuel - 2, r),
        ASTNode::FunctionCall { name, arguments } => (fuel > 2 && s.shared.global_box.methods@.contains_key(name@)) ==> {
            let decl = s.shared.global_box.methods@[name@];
            exists|u: NyashInterpreter, ra: Result<Seq<NyashBox>, RuntimeError>|
                #[trigger] args_rel(s, arguments@, fuel - 3, u, ra) && match ra {
                    Err(e) => r == Err::<NyashBox, RuntimeError>(e) && t == u,
                    Ok(a) => if a.len() != decl.params@.len() {
                        r matches Err(x) && t == u && x@ == ErrSpec::InvalidOperation(
                            count_text("Function "@, name@, " expects "@, decl.params@.len(), a.len()))
                    } else {
                        call_fn_post(u, t, *decl, a, None, fuel - 2, r)
                    },
                }
        },
        ASTNode::FromCall { parent, method, arguments } =>
            (fuel > 1 && from_call_spec(s, parent@, method@, arguments@.len()) is None) ==>
                from_args_post(s, t, parent@, method@, arguments@, fuel - 1, r),
        _ => true,
    }
}

/// What calling the method `method` of the builtin value `recv` on the
/// argument values `args` in `s` does, leaving `t` with `r`: everything
/// `builtin_method` states of it.
pub open spec fn builtin_method_post(s: NyashInterpreter, recv: NyashBox, method: Seq<char>, args: Seq<NyashBox>,
    t: NyashInterpreter, r: Option<Result<NyashBox, RuntimeError>>) -> bool
{
    &&& defs_kept(s.shared, t.shared)
    &&& t.wf()
    &&& t.local_vars == s.local_vars
    &&& t.control_flow == s.control_flow
    &&& recv@ is InstanceBox || recv@ is VoidBox ==> r is None && t == s
    &&& recv@ is IntegerBox ==> (r matches Some(x)
            && crate::ops::outcome(x) == crate::methods::integer_method_spec(recv@->IntegerBox_0, method, views(args))
            && t == s)
    &&& recv@ is BoolBox ==> (r matches Some(x)
            && crate::ops::outcome(x) == crate::methods::bool_method_spec(recv@->BoolBox_0, method, views(args))
            && t == s)
    &&& recv@ is NullBox ==> (r matches Some(x)
            && crate::ops::outcome(x) == crate::methods::null_method_spec(method, views(args))
            && t == s)
    &&& recv@ is StringBox && method != "split"@ ==> (r matches Some(x)
            && crate::ops::outcome(x) == crate::methods::string_method_spec(recv@->StringBox_0, method, views(args))
            && t.shared.heap@ == s.shared.heap@)
    &&& recv@ is StringBox && method == "split"@ ==> (r matches Some(x) && match crate::methods::split_error(views(args)) {
            Some(e) => x is Err && x->Err_0@ == e && t.shared.heap@ == s.shared.heap@,
            None => {
                &&& x is Ok
                &&& x->Ok_0@ == BoxSpec::ArrayBox(s.shared.heap@.len() as usize)
                &&& crate::methods::heap_grown(s.shared.heap@, t.shared.heap@)
                &&& crate::methods::array_of_texts(t.shared.heap@.last(),
                    crate::text::split_pieces(recv@->StringBox_0, views(args)[0]->StringBox_0))
            },
        })
    &&& recv@ is StringBox || recv@ is ArrayBox || recv@ is MapBox ==> r is Some && only_heap_changed(s, t)
    &&& recv@ is ArrayBox ==> (r matches Some(x)
            && array_call_post(s.shared.heap@, t.shared.heap@, recv@->ArrayBox_0, method, views(args), x))
    &&& recv@ is MapBox ==> (r matches Some(x)
            && map_call_post(s.shared.heap@, t.shared.heap@, recv@->MapBox_0, method, args, x))
}

/// What `object.method(args)` does, run with `fuel` in `s` and leaving `t`
/// with `r`, when `object` names no static function or box and `method` is
/// none of the methods every value has: `object` runs as `expr_post` says,
/// and its error is the result; on an instance, the call is as
/// `instance_args_post` says; on another builtin value than void, the
/// arguments then run as `args_rel` says, their first error is the result,
/// and else the method runs on their values in the state they left as
/// `builtin_method_post` says.
pub open spec fn builtin_call_general_post(s: NyashInterpreter, object: ASTNode, method: Seq<char>, args: Seq<ASTNode>,
    fuel: int, t: NyashInterpreter, r: Result<NyashBox, RuntimeError>) -> bool
{
    (!static_target(s, object, method) && !universal_method(method)) ==>
        exists|m0: NyashInterpreter, r0: Result<NyashBox, RuntimeError>| #[trigger] expr_post(s, object, fuel, m0, r0)
            && match r0 {
                Err(e) => r == Err::<NyashBox, RuntimeError>(e) && t == m0,
                Ok(recv) => match recv@ {
                    BoxSpec::InstanceBox(h) => instance_args_post(m0, t, h, method, args, fuel, r),
                    BoxSpec::VoidBox => true,
                    _ => exists|m: NyashInterpreter, ra: Result<Seq<NyashBox>, RuntimeError>|
                        #[trigger] args_rel(m0, args, fuel - 1, m, ra) && match ra {
                            Err(e) => r == Err::<NyashBox, RuntimeError>(e) && t == m,
                            Ok(a) => builtin_method_post(m, recv, method, a, t, Some(r)),
                        },
                },
            }
}

/// What calling the function `decl` on the argument values `args`, with
/// `me` bound or not, with `fuel` in `s` does, leaving `t` with `r`: the
/// body runs as `body_rel` says with `me` and the parameters bound, and
/// gives the value of its `return` (else of its last statement) or its
/// first error; a success puts the local variables back. For a body that
/// only reads the state, that value is the one `simple_body` gives.
pub open spec fn call_fn_post(s: NyashInterpreter, t: NyashInterpreter, decl: FunctionDecl, args: Seq<NyashBox>,
    me: Option<NyashBox>, fuel: int, r: Result<NyashBox, RuntimeError>) -> bool
{
    &&& r is Ok ==> t.local_vars@ == s.local_vars@
    &&& defs_kept(s.shared, t.shared)
    &&& t.wf()
    &&& fuel > 2 && simple_stmts(decl.body@, fuel - 2) && s.control_flow is Normal ==> {
        &&& exists|u: NyashInterpreter| #[trigger] call_state(s, u, me, decl.params@, args)
            && outcome(r) == simple_body(u, decl.body@)
        &&& r is Ok ==> same_but_locals(s, t)
    }
    &&& fuel > 1 ==> exists|u: NyashInterpreter, w: NyashInterpreter, rb: Result<NyashBox, RuntimeError>|
        #![trigger call_state(s, u, me, decl.params@, args), body_rel(u, decl.body@, NyashBox::VoidBox, fuel - 2, w, rb)]
        call_state(s, u, me, decl.params@, args) && body_rel(u, decl.body@, NyashBox::VoidBox, fuel - 2, w, rb)
        && match rb {
            Err(e) => r == Err::<NyashBox, RuntimeError>(e) && t == w,
            Ok(v) => r == Ok::<NyashBox, RuntimeError>(v) && same_but_locals(w, t) && t.local_vars@ == s.local_vars@,
        }
}

/// What calling the method `m` of the instance at `h` with the arguments
/// `args` and `fuel` in `s` does, leaving `t` with `r`, when the instance
/// has that method and it is not `fini`: the arguments run as `args_rel`
/// says, and their first error is the result; else a number of values other
/// than that of the parameters is an error; else the method runs on the
/// values, with `me` bound to the instance, as `call_fn_post` says.
pub open spec fn instance_args_post(s: NyashInterpreter, t: NyashInterpreter, h: usize, m: Seq<char>, args: Seq<ASTNode>,
    fuel: int, r: Result<NyashBox, RuntimeError>) -> bool
{
    match instance_at(s.shared.heap@, h) {
        Some(inst) => (m != "fini"@ && inst.methods@.contains_key(m) && fuel > 1) ==>
            exists|u: NyashInterpreter, ra: Result<Seq<NyashBox>, RuntimeError>|
                #[trigger] args_rel(s, args, fuel - 2, u, ra) && match ra {
                    Err(e) => r == Err::<NyashBox, RuntimeError>(e) && t == u,
                    Ok(a) => if a.len() != inst.methods@[m].params@.len() {
                        r matches Err(x) && t == u && x@ == ErrSpec::InvalidOperation(count_text("Method "@, m, " expects "@,
                            inst.methods@[m].params@.len(), a.len()))
                    } else {
                        call_fn_post(u, t, *inst.methods@[m], a, Some(NyashBox::InstanceBox(h)), fuel - 1, r)
                    },
                },
        None => true,
    }
}

/// What declaring the local variables `vars` from the `k`-th on, with the
/// initial values `inits`, each evaluated with `fuel`, does in `s`, leaving
/// `t` with `r`: in order, each initial value runs as `expr_post` says and
/// its error ends the run with it; else the variable is declared with its
/// value (void where it has none); at the end the value is void.
pub open spec fn local_run(s: NyashInterpreter, vars: Seq<String>, inits: Seq<Option<ASTNode>>, k: int, fuel: int,
    t: NyashInterpreter, r: Result<NyashBox, RuntimeError>) -> bool
    decreases vars.len() - k,
{
    if k < 0 || k >= vars.len() {
        t == s && r == Ok::<NyashBox, RuntimeError>(NyashBox::VoidBox)
    } else if k < inits.len() && inits[k] is Some {
        exists|m: NyashInterpreter, r0: Result<NyashBox, RuntimeError>| #[trigger] expr_post(s, inits[k]->0, fuel, m, r0)
            && match r0 {
                Err(e) => t == m && r == Err::<NyashBox, RuntimeError>(e),
                Ok(v) => exists|m2: NyashInterpreter| #[trigger] crate::interp::declare_local_post(m, m2, vars[k]@, v)
                    && local_run(m2, vars, inits, k + 1, fuel, t, r),
            }
    } else {
        exists|m2: NyashInterpreter| #[trigger] crate::interp::declare_local_post(s, m2, vars[k]@, NyashBox::VoidBox)
            && local_run(m2, vars, inits, k + 1, fuel, t, r)
    }
}

/// What a `local` declaration with `fuel` does in `s`, as `local_run` says.
pub open spec fn local_post(s: NyashInterpreter, node: ASTNode, fuel: int, t: NyashInterpreter,
    r: Result<NyashBox, RuntimeError>) -> bool
{
    match node {
        ASTNode::Local { variables, initial_values } => fuel > 0 ==>
            local_run(s, variables@, initial_values@, 0, fuel - 1, t, r),
        _ => true,
    }
}

/// `s` with nothing pending in its control flow.
pub open spec fn with_normal_flow(s: NyashInterpreter) -> NyashInterpreter {
    NyashInterpreter { control_flow: ControlFlow::Normal, ..s }
}

/// What running the rest `body` of a function body, each statement with
/// `fuel`, in `s` does after a statement whose value was `last`, leaving `t`
/// with `r`: each statement runs as `stmt_post` says; an error ends the run
/// with it; a `return` left pending ends it with the returned value and
/// nothing pending; at the end the value is that of the last statement.
pub open spec fn body_rel(s: NyashInterpreter, body: Seq<ASTNode>, last: NyashBox, fuel: int, t: NyashInterpreter,
    r: Result<NyashBox, RuntimeError>) -> bool
    decreases body.len(),
{
    if body.len() == 0 {
        t == s && r == Ok::<NyashBox, RuntimeError>(last)
    } else {
        exists|m: NyashInterpreter, r1: Result<NyashBox, RuntimeError>| #[trigger] stmt_post(s, body[0], fuel, m, r1)
            && match r1 {
                Err(e) => t == m && r == Err::<NyashBox, RuntimeError>(e),
                Ok(v) => match m.control_flow {
                    ControlFlow::Return(x) => t == with_normal_flow(m) && r == Ok::<NyashBox, RuntimeError>(x),
                    _ => body_rel(m, body.drop_first(), v, fuel, t, r),
                },
            }
    }
}

/// What a program node evaluated as an expression with `fuel` does in
/// `s`, leaving `t` with `r`: its statements run as `prog_rel` says, with
/// no static `Main.main` after them.
pub open spec fn expr_program_post(s: NyashInterpreter, node: ASTNode, fuel: int, t: NyashInterpreter,
    r: Result<NyashBox, RuntimeError>) -> bool
{
    match node {
        ASTNode::Program { statements } => fuel > 1 ==>
            prog_rel(s, statements@, NyashBox::VoidBox, t, r, false, fuel - 1),
        _ => true,
    }
}

/// Whether `node` is an expression rather than a statement, which
/// `execute_statement` evaluates as `execute_expression` does.
pub open spec fn expression_node(node: ASTNode) -> bool {
    !(node is Assignment || node is Local || node is If || node is Loop || node is Break || node is Continue
        || node is Return || node is Print || node is FunctionDeclaration)
}

/// What executing the statement `node` with `fuel` in `s` does, leaving
/// `t` with `r`, in terms of what its expression does: an expression is
/// evaluated as `expr_post` says; an assignment to a variable, `print` and
/// `return` evaluate their expression as `expr_post` says, and its error is
/// the result; else the variable is set to the value, which is the result,
/// the value's text is printed, or the return of the value is left pending.
pub open spec fn stmt_expr_post(s: NyashInterpreter, node: ASTNode, fuel: int, t: NyashInterpreter,
    r: Result<NyashBox, RuntimeError>) -> bool
{
    &&& fuel > 0 && expression_node(node) ==> expr_post(s, node, fuel - 1, t, r)
    &&& match node {
        ASTNode::Assignment { target, value } => match *target {
            ASTNode::Variable { name, .. } => fuel > 1 ==>
                exists|m: NyashInterpreter, r0: Result<NyashBox, RuntimeError>| #[trigger] expr_post(s, *value, fuel - 1, m, r0)
                    && match r0 {
                        Err(e) => r == Err::<NyashBox, RuntimeError>(e) && t == m,
                        Ok(v) => r == Ok::<NyashBox, RuntimeError>(v) && crate::interp::set_variable_post(m, t, name@, v),
                    },
            _ => true,
        },
        ASTNode::Print { expression } => fuel > 1 ==>
            exists|m: NyashInterpreter, r0: Result<NyashBox, RuntimeError>| #[trigger] expr_post(s, *expression, fuel - 1, m, r0)
                && match r0 {
                    Err(e) => r == Err::<NyashBox, RuntimeError>(e) && t == m,
                    Ok(v) => r matches Ok(w) && w@ == BoxSpec::VoidBox
                        && t.output@ == m.output@.push(t.output@.last())
                        && t.output@.last()@ == display(m.shared.heap@, v@, DISPLAY_DEPTH as nat)
                        && t.shared == m.shared && t.local_vars == m.local_vars && t.outbox_vars == m.outbox_vars
                        && t.control_flow == m.control_flow && t.invalidated_ids == m.invalidated_ids,
                },
        ASTNode::Return { value } => match value {
            Some(e) => fuel > 1 ==>
                exists|m: NyashInterpreter, r0: Result<NyashBox, RuntimeError>| #[trigger] expr_post(s, *e, fuel - 1, m, r0)
                    && match r0 {
                        Err(x) => r == Err::<NyashBox, RuntimeError>(x) && t == m,
                        Ok(v) => r matches Ok(w) && w@ == BoxSpec::VoidBox
                            && t == NyashInterpreter { control_flow: ControlFlow::Return(v), ..m },
                    },
            None => true,
        },
        _ => true,
    }
}

/// What running the statements `stmts` of a block, each with `fuel`, in
/// `s` does after a statement whose value was `last`, leaving `t` with `r`:
/// each statement runs as `stmt_post` says; an error ends the run with it;
/// a statement that leaves `break`, `continue`, `return` or an exception
/// pending ends the run with its value; else the value is that of the last
/// statement.
pub open spec fn gblock_rel(s: NyashInterpreter, stmts: Seq<ASTNode>, last: NyashBox, fuel: int, t: NyashInterpreter,
    r: Result<NyashBox, RuntimeError>) -> bool
    decreases stmts.len(),
{
    if stmts.len() == 0 {
        t == s && r == Ok::<NyashBox, RuntimeError>(last)
    } else {
        exists|m: NyashInterpreter, r1: Result<NyashBox, RuntimeError>| #[trigger] stmt_post(s, stmts[0], fuel, m, r1)
            && match r1 {
                Err(e) => t == m && r == Err::<NyashBox, RuntimeError>(e),
                Ok(v) => if m.control_flow is Normal {
                    gblock_rel(m, stmts.drop_first(), v, fuel, t, r)
                } else {
                    t == m && r == Ok::<NyashBox, RuntimeError>(v)
                },
            }
    }
}

/// What `loop(cond) { body }` does in `s` with `rounds` rounds left, its
/// condition evaluated with `fuel`, leaving `t` with `r`: with no round
/// left the step limit is reached; else the condition runs as `expr_post`
/// says and its error is the result; a false condition ends the loop; else
/// the body runs as `gblock_rel` says and its error is the result; after
/// it, a pending `break` ends the loop with nothing pending, a pending
/// `continue` or nothing pending goes to the next round (with nothing
/// pending), and a pending `return` or exception ends the loop and stays
/// pending for the enclosing code.
pub open spec fn loop_rel(s: NyashInterpreter, cond: ASTNode, body: Seq<ASTNode>, fuel: int, rounds: int,
    t: NyashInterpreter, r: Result<(), RuntimeError>) -> bool
    decreases rounds,
{
    if rounds <= 0 {
        t == s && (r matches Err(e) && e@ == step_limit_err())
    } else {
        exists|m0: NyashInterpreter, c: Result<NyashBox, RuntimeError>| #[trigger] expr_post(s, cond, fuel, m0, c)
            && match c {
                Err(e) => t == m0 && r == Err::<(), RuntimeError>(e),
                Ok(v) => if !crate::ops::truthy(v@) {
                    t == m0 && r is Ok
                } else {
                    exists|m1: NyashInterpreter, rb: Result<NyashBox, RuntimeError>|
                        #[trigger] gblock_rel(m0, body, NyashBox::VoidBox, fuel - 1, m1, rb) && match rb {
                            Err(e) => t == m1 && r == Err::<(), RuntimeError>(e),
                            Ok(_) => match m1.control_flow {
                                ControlFlow::Break => t == with_normal_flow(m1) && r is Ok,
                                ControlFlow::Continue => loop_rel(with_normal_flow(m1), cond, body, fuel, rounds - 1, t, r),
                                ControlFlow::Normal => loop_rel(m1, cond, body, fuel, rounds - 1, t, r),
                                _ => t == m1 && r is Ok,
                            },
                        }
                },
            }
    }
}

/// What a `loop` statement with `fuel` does in `s`, leaving `t` with `r`:
/// the loop runs as `loop_rel` says; its error is the result, else the
/// statement's value is void, and whatever the loop left pending (a
/// `return` or an exception) stays pending.
pub open spec fn loop_stmt_post(s: NyashInterpreter, node: ASTNode, fuel: int, t: NyashInterpreter,
    r: Result<NyashBox, RuntimeError>) -> bool
{
    match node {
        ASTNode::Loop { condition, body } => fuel > 1 ==>
            exists|u: NyashInterpreter, rl: Result<(), RuntimeError>|
                #[trigger] loop_rel(s, *condition, body@, fuel - 2, fuel - 1, u, rl) && t == u && match rl {
                    Err(e) => r == Err::<NyashBox, RuntimeError>(e),
                    Ok(_) => r matches Ok(v) && v@ == BoxSpec::VoidBox,
                },
        _ => true,
    }
}

/// A call `object.m(args)` whose object and arguments only read the state,
/// nesting less deeply than the fuel its statement leaves them.
pub open spec fn method_expr(e: ASTNode, fuel: int) -> bool {
    e matches ASTNode::MethodCall { object, arguments, .. } && fuel > 6 && pure_expr(*object)
        && expr_depth(*object) < fuel - 2 && all_pure(arguments@, fuel - 4)
}

/// What copying the value `v` in `s` does, giving `r` in `t`: an array, a
/// map or an instance is copied into a new object at the end of the heap,
/// whose elements, entries, or fields and class name are those of the
/// original; any other value is itself. Nothing else changes but the heap's
/// growth.
pub open spec fn clone_post(s: NyashInterpreter, t: NyashInterpreter, v: BoxSpec, r: BoxSpec) -> bool {
    let heap = s.shared.heap@;
    &&& t.local_vars == s.local_vars
    &&& t.outbox_vars == s.outbox_vars
    &&& t.control_flow == s.control_flow
    &&& t.shared.global_box == s.shared.global_box
    &&& t.shared.box_declarations == s.shared.box_declarations
    &&& t.shared.static_box_definitions == s.shared.static_box_definitions
    &&& t.shared.static_functions == s.shared.static_functions
    &&& t.shared.heap@.len() >= heap.len()
    &&& t.shared.heap@.take(heap.len() as int) == heap
    &&& match v {
        BoxSpec::ArrayBox(h) => if h < heap.len() && heap[h as int] is Array {
            &&& r == BoxSpec::ArrayBox(heap.len() as usize)
            &&& t.shared.heap@.last() is Array
            &&& views(t.shared.heap@.last()->Array_0@) == views(heap[h as int]->Array_0@)
        } else {
            r == v
        },
        BoxSpec::MapBox(h) => if h < heap.len() && heap[h as int] is Dict {
            &&& r == BoxSpec::MapBox(heap.len() as usize)
            &&& t.shared.heap@.last() is Dict
            &&& t.shared.heap@.last()->Dict_0@ == heap[h as int]->Dict_0@
        } else {
            r == v
        },
        BoxSpec::InstanceBox(h) => if h < heap.len() && heap[h as int] is Instance {
            &&& r == BoxSpec::InstanceBox(heap.len() as usize)
            &&& t.shared.heap@.last() is Instance
            &&& t.shared.heap@.last()->Instance_0.fields@ == heap[h as int]->Instance_0.fields@
            &&& t.shared.heap@.last()->Instance_0.class_name@ == heap[h as int]->Instance_0.class_name@
        } else {
            r == v
        },
        _ => r == v,
    }
}

/// What calling the static function `decl` of the box `name` as
/// `name.method(args)` with `fuel` does, when the arguments only read the
/// state: their first error; an error when their number is not that of the
/// parameters; else, for a body that only reads the state, the body runs
/// with only the parameters bound, and gives the value of its `return`
/// (else of its last statement) or its first error; a success leaves the
/// variables as they were.
pub open spec fn static_function_post(s: NyashInterpreter, t: NyashInterpreter, name: Seq<char>, method: Seq<char>,
    decl: FunctionDecl, args: Seq<ASTNode>, fuel: int, r: Result<NyashBox, RuntimeError>) -> bool
{
    fuel > 2 && all_pure(args, fuel - 1) ==> match pure_eval_args(s, args) {
        Err(e) => r matches Err(x) && x@ == e && t == s,
        Ok(vs) => if vs.len() != decl.params@.len() {
            r matches Err(x) && t == s && x@ == ErrSpec::InvalidOperation(
                count_text("Static method "@, name + "."@ + method, " expects "@, decl.params@.len(), vs.len()))
        } else {
            simple_stmts(decl.body@, fuel - 2) && s.control_flow is Normal ==> {
                &&& exists|u: NyashInterpreter, a: Seq<NyashBox>| #[trigger] static_call_state(s, u, decl.params@, a)
                    && views(a) == vs && outcome(r) == simple_body(u, decl.body@)
                &&& r is Ok ==> same_variables(s, t)
            }
        },
    }
}

/// What calling the static function `decl` of the box `name` as
/// `name.method(args)` with `fuel` does, whatever its arguments and body:
/// the arguments run as `args_rel` says, and their first error is the
/// result; else a number of values other than that of the parameters is an
/// error; else the body runs as `body_rel` says with only the parameters
/// bound, its error is the result, and else its value is, with the caller's
/// variables back.
pub open spec fn static_function_run(s: NyashInterpreter, t: NyashInterpreter, name: Seq<char>, method: Seq<char>,
    decl: FunctionDecl, args: Seq<ASTNode>, fuel: int, r: Result<NyashBox, RuntimeError>) -> bool
{
    fuel > 1 ==> exists|u0: NyashInterpreter, ra: Result<Seq<NyashBox>, RuntimeError>|
        #[trigger] args_rel(s, args, fuel - 2, u0, ra) && match ra {
            Err(e) => r == Err::<NyashBox, RuntimeError>(e) && t == u0,
            Ok(a) => if a.len() != decl.params@.len() {
                r matches Err(x) && t == u0 && x@ == ErrSpec::InvalidOperation(
                    count_text("Static method "@, name + "."@ + method, " expects "@, decl.params@.len(), a.len()))
            } else {
                exists|u: NyashInterpreter, w: NyashInterpreter, rb: Result<NyashBox, RuntimeError>|
                    #![trigger static_call_state(u0, u, decl.params@, a), body_rel(u, decl.body@, NyashBox::VoidBox, fuel - 2, w, rb)]
                    static_call_state(u0, u, decl.params@, a) && body_rel(u, decl.body@, NyashBox::VoidBox, fuel - 2, w, rb)
                    && match rb {
                        Err(e) => r == Err::<NyashBox, RuntimeError>(e) && t == w,
                        Ok(v) => r == Ok::<NyashBox, RuntimeError>(v) && t.shared == w.shared
                            && t.control_flow == w.control_flow && t.invalidated_ids == w.invalidated_ids
                            && t.output == w.output && t.local_vars@ == u0.local_vars@ && t.outbox_vars@ == u0.outbox_vars@,
                    }
            },
        }
}

/// What calling `name.method(args)` on the static box `name` with `fuel`
/// does: an error for an undeclared box; else, once the box is initialized
/// (as `static_box_ready` says), an error when its singleton lacks the
/// method, else, on arguments that only read the state, their first error,
/// or, for a body that only reads the state, the body run with `me` bound
/// to the singleton and the parameters to the arguments' values.
pub open spec fn static_box_call_post(s: NyashInterpreter, t: NyashInterpreter, name: Seq<char>, method: Seq<char>,
    args: Seq<ASTNode>, fuel: int, r: Result<NyashBox, RuntimeError>) -> bool
{
    &&& fuel > 1 && !s.shared.static_box_definitions@.contains_key(name) ==>
        (r matches Err(x) && x@ == ErrSpec::UndefinedClass(name) && t == s)
    &&& fuel > 3 && static_box_ready(s, name) ==> match static_box_target(s, name) {
        Err(e) => r matches Err(x) && x@ == e && t == s,
        Ok(h) => if instance_at(s.shared.heap@, h) is None
            || !instance_at(s.shared.heap@, h)->0.methods@.contains_key(method) {
            r matches Err(x) && t == s && x@ == ErrSpec::InvalidOperation(
                "Method '"@ + method + "' not found in static box '"@ + name + "'"@)
        } else {
            let decl = instance_at(s.shared.heap@, h)->0.methods@[method];
            all_pure(args, fuel - 1) ==> match pure_eval_args(s, args) {
                Err(e) => r matches Err(x) && x@ == e && t == s,
                Ok(vs) => simple_stmts(decl.body@, fuel - 3) && s.control_flow is Normal ==> {
                    &&& exists|u: NyashInterpreter, a: Seq<NyashBox>|
                        #[trigger] call_state(s, u, Some(NyashBox::InstanceBox(h)), decl.params@, a)
                        && views(a) == vs && outcome(r) == simple_body(u, decl.body@)
                    &&& r is Ok ==> same_but_locals(s, t)
                },
            }
        },
    }
}

/// What `name.method(args)` does, with any arguments and body, run with
/// `fuel`: where `name` names a box with a static function `method`, as
/// `static_function_run` says; else, where it names a declared static box,
/// as `static_box_run` says.
pub open spec fn static_run_post(s: NyashInterpreter, t: NyashInterpreter, object: ASTNode, method: Seq<char>,
    args: Seq<ASTNode>, fuel: int, r: Result<NyashBox, RuntimeError>) -> bool
{
    match object {
        ASTNode::Variable { name, .. } => if s.shared.static_functions@.contains_key(name@)
            && s.shared.static_functions@[name@]@.contains_key(method) {
            static_function_run(s, t, name@, method, *s.shared.static_functions@[name@]@[method], args, fuel, r)
        } else {
            static_box_run(s, t, name@, method, args, fuel, r)
        },
        _ => true,
    }
}

/// What calling `name.method(args)` on the declared static box `name` with
/// `fuel` does, whatever its arguments and the method's body: the box is
/// initialized as `static_init_post` says, and that error is the result;
/// else the singleton is looked up as `static_box_target` says, and a
/// missing method is an error; else the arguments run as `args_rel` says,
/// their first error is the result, and else the method runs on their
/// values with `me` bound to the singleton, as `call_fn_post` says.
pub open spec fn static_box_run(s: NyashInterpreter, t: NyashInterpreter, name: Seq<char>, method: Seq<char>,
    args: Seq<ASTNode>, fuel: int, r: Result<NyashBox, RuntimeError>) -> bool
{
    (fuel > 2 && s.shared.static_box_definitions@.contains_key(name)) ==>
        exists|m1: NyashInterpreter, ri: Result<(), RuntimeError>| #[trigger] static_init_post(s, m1, name, ri)
            && match ri {
                Err(e) => r == Err::<NyashBox, RuntimeError>(e) && t == m1,
                Ok(_) => match static_box_target(m1, name) {
                    Err(e) => r matches Err(x) && x@ == e && t == m1,
                    Ok(h) => if instance_at(m1.shared.heap@, h) is None
                        || !instance_at(m1.shared.heap@, h)->0.methods@.contains_key(method) {
                        r matches Err(x) && t == m1 && x@ == ErrSpec::InvalidOperation(
                            "Method '"@ + method + "' not found in static box '"@ + name + "'"@)
                    } else {
                        exists|u0: NyashInterpreter, ra: Result<Seq<NyashBox>, RuntimeError>|
                            #[trigger] args_rel(m1, args, fuel - 2, u0, ra) && match ra {
                                Err(e) => r == Err::<NyashBox, RuntimeError>(e) && t == u0,
                                Ok(a) => call_fn_post(u0, t, *instance_at(m1.shared.heap@, h)->0.methods@[method], a,
                                    Some(NyashBox::InstanceBox(h)), fuel - 1, r),
                            }
                    },
                },
            }
}

/// What `name.method(args)` does when `name` names a static function or a
/// static box (as `static_target` says), run with `fuel`: the static
/// function as `static_function_post` says, else the static box's method as
/// `static_box_call_post` says.
pub open spec fn static_call_post(s: NyashInterpreter, t: NyashInterpreter, object: ASTNode, method: Seq<char>,
    args: Seq<ASTNode>, fuel: int, r: Result<NyashBox, RuntimeError>) -> bool
{
    match object {
        ASTNode::Variable { name, .. } => if s.shared.static_functions@.contains_key(name@)
            && s.shared.static_functions@[name@]@.contains_key(method) {
            static_function_post(s, t, name@, method, *s.shared.static_functions@[name@]@[method], args, fuel, r)
        } else if s.shared.static_box_definitions@.contains_key(name@) {
            static_box_call_post(s, t, name@, method, args, fuel, r)
        } else {
            true
        },
        _ => true,
    }
}

/// What such a call, run as (part of) a statement with `fuel`, does: a
/// call of a static function or of a static box's method as
/// `static_call_post` says; on any other object, what `execute_method_call`
/// states of the receiver's errors, the builtin methods, the methods every
/// value has, and the methods of instances.
pub open spec fn method_step(s: NyashInterpreter, e: ASTNode, t: NyashInterpreter, r: Result<NyashBox, RuntimeError>, fuel: int) -> bool {
    match e {
        ASTNode::MethodCall { object, method, arguments } => static_call_post(s, t, *object, method@, arguments@, fuel - 3, r)
            && (!static_target(s, *object, method@) ==> {
            &&& match pure_eval(s, *object) {
                Err(x) => r matches Err(y) && y@ == x && t == s,
                Ok(recv) => match method_call_pure_spec(s, recv, method@, arguments@) {
                    Some(o) => outcome(r) == o,
                    None => true,
                },
            }
            &&& match instance_method_call_spec(s, *object, method@, arguments@) {
                Some(o) => outcome(r) == o && t == s,
                None => true,
            }
            &&& (!universal_method(method@) && method@ != "fini"@) ==> match pure_eval(s, *object) {
                Ok(BoxSpec::InstanceBox(h)) => user_method_post(s, t, h, method@, arguments@, fuel - 4, r),
                _ => true,
            }
        }),
        _ => false,
    }
}

/// A `new` or a method call as `new_expr` and `method_expr` say.
pub open spec fn call_expr(e: ASTNode, fuel: int) -> bool {
    new_expr(e, fuel) || method_expr(e, fuel)
}

/// What such a `new` or method call does.
pub open spec fn call_step(s: NyashInterpreter, e: ASTNode, t: NyashInterpreter, r: Result<NyashBox, RuntimeError>, fuel: int) -> bool {
    if e is New { new_step(s, e, t, r, fuel) } else { method_step(s, e, t, r, fuel) }
}

/// A statement whose effect the interpreter states: an expression that
/// only reads the state, or a `new` or method call of such parts; an
/// assignment of one to a variable, or of an expression that only reads the
/// state to a field of such an expression; `print` of one; `break`,
/// `continue`, or `return` of nothing or of one. Its expressions nest less
/// deeply than `fuel`.
pub open spec fn flat_stmt(st: ASTNode, fuel: int) -> bool {
    match st {
        ASTNode::Assignment { target, value } => match *target {
            ASTNode::Variable { .. } => pure_expr(*value) && expr_depth(*value) < fuel || call_expr(*value, fuel),
            ASTNode::FieldAccess { object, .. } => pure_expr(*value) && expr_depth(*value) < fuel
                && pure_expr(*object) && expr_depth(*object) < fuel - 1,
            _ => false,
        },
        ASTNode::Print { expression } => pure_expr(*expression) && expr_depth(*expression) < fuel,
        ASTNode::Break => true,
        ASTNode::Continue => true,
        ASTNode::Return { value } => match value {
            None => true,
            Some(e) => pure_expr(*e) && expr_depth(*e) < fuel,
        },
        _ => pure_expr(st) && expr_depth(st) < fuel || call_expr(st, fuel),
    }
}

/// Each statement is a flat one.
pub open spec fn flat_stmts(stmts: Seq<ASTNode>, fuel: int) -> bool {
    forall|i: int| 0 <= i < stmts.len() ==> flat_stmt(#[trigger] stmts[i], fuel)
}

/// What running the flat statement `st` in `s` does: the state `t` after it
/// and its outcome `r`.
pub open spec fn flat_step(s: NyashInterpreter, st: ASTNode, t: NyashInterpreter, r: Result<NyashBox, RuntimeError>, fuel: int) -> bool {
    match st {
        ASTNode::Assignment { target, value } => match *target {
            ASTNode::Variable { name, .. } => if *value is New || *value is MethodCall {
                exists|m: NyashInterpreter, r0: Result<NyashBox, RuntimeError>| #[trigger] call_step(s, *value, m, r0, fuel)
                    && match r0 {
                        Err(_) => t == m && r == r0,
                        Ok(v) => r == r0 && crate::interp::set_variable_post(m, t, name@, v),
                    }
            } else {
                match pure_eval(s, *value) {
                    Ok(x) => r matches Ok(v) && v@ == x && crate::interp::set_variable_post(s, t, name@, v),
                    Err(x) => r matches Err(e) && e@ == x && t == s,
                }
            },
            ASTNode::FieldAccess { object, field } => field_assign_post(s, t, *object, field@, *value, r),
            _ => false,
        },
        ASTNode::Print { expression } => match pure_eval(s, *expression) {
            Ok(x) => r matches Ok(v) && v@ == BoxSpec::VoidBox
                && t.output@ == s.output@.push(t.output@.last())
                && t.output@.last()@ == display(s.shared.heap@, x, DISPLAY_DEPTH as nat)
                && t.shared == s.shared && t.local_vars == s.local_vars && t.outbox_vars == s.outbox_vars
                && t.control_flow == s.control_flow,
            Err(x) => r matches Err(e) && e@ == x && t == s,
        },
        ASTNode::Break => r matches Ok(v) && v@ == BoxSpec::VoidBox && t.control_flow is Break && same_but_flow(s, t),
        ASTNode::Continue => r matches Ok(v) && v@ == BoxSpec::VoidBox && t.control_flow is Continue && same_but_flow(s, t),
        ASTNode::Return { value } => match value {
            None => r matches Ok(v) && v@ == BoxSpec::VoidBox && same_but_flow(s, t)
                && (t.control_flow matches ControlFlow::Return(y) && y@ == BoxSpec::VoidBox),
            Some(e) => match pure_eval(s, *e) {
                Ok(x) => r matches Ok(v) && v@ == BoxSpec::VoidBox && same_but_flow(s, t)
                    && (t.control_flow matches ControlFlow::Return(y) && y@ == x),
                Err(x) => r matches Err(e) && e@ == x && t == s,
            },
        },
        _ => if st is New || st is MethodCall { call_step(s, st, t, r, fuel) } else { outcome(r) == pure_eval(s, st) && t == s },
    }
}

/// What running the flat statements `stmts` in `s` does, after a statement
/// whose value was `last`: each runs in turn; an error ends the run with
/// it; a statement that leaves `break`, `continue` or `return` pending ends
/// the run with its value; else the value is that of the last statement.
pub open spec fn block_rel(s: NyashInterpreter, stmts: Seq<ASTNode>, last: NyashBox, t: NyashInterpreter,
    r: Result<NyashBox, RuntimeError>, fuel: int) -> bool
    decreases stmts.len(),
{
    if stmts.len() == 0 {
        t == s && r == Ok::<NyashBox, RuntimeError>(last)
    } else {
        exists|m: NyashInterpreter, r1: Result<NyashBox, RuntimeError>| #[trigger] flat_step(s, stmts[0], m, r1, fuel)
            && match r1 {
                Err(_) => t == m && r == r1,
                Ok(v) => if m.control_flow is Normal {
                    block_rel(m, stmts.drop_first(), v, t, r, fuel)
                } else {
                    t == m && r == r1
                },
            }
    }
}

/// An `if` whose condition only reads the state and whose branches are
/// flat statements.
pub open spec fn if_stmt(st: ASTNode, fuel: int) -> bool {
    match st {
        ASTNode::If { condition, then_body, else_body } => pure_expr(*condition) && expr_depth(*condition) < fuel
            && fuel > 2 && flat_stmts(then_body@, fuel - 2) && match else_body {
                Some(b) => flat_stmts(b@, fuel - 2),
                None => true,
            },
        _ => false,
    }
}

/// Running the branch `b` of an `if` in `s`: the block's error, else void.
pub open spec fn branch_step(s: NyashInterpreter, b: Seq<ASTNode>, t: NyashInterpreter, r: Result<NyashBox, RuntimeError>, fuel: int) -> bool {
    exists|rb: Result<NyashBox, RuntimeError>| #[trigger] block_rel(s, b, NyashBox::VoidBox, t, rb, fuel) && match rb {
        Err(_) => r == rb,
        Ok(_) => r matches Ok(v) && v@ == BoxSpec::VoidBox,
    }
}

/// What running such an `if` in `s` does: the condition's error, or the
/// branch it picks run as a block (nothing for a missing `else`); the
/// statement's value is void.
pub open spec fn if_step(s: NyashInterpreter, st: ASTNode, t: NyashInterpreter, r: Result<NyashBox, RuntimeError>, fuel: int) -> bool {
    match st {
        ASTNode::If { condition, then_body, else_body } => match pure_eval(s, *condition) {
            Err(x) => r matches Err(e) && e@ == x && t == s,
            Ok(c) => if crate::ops::truthy(c) {
                branch_step(s, then_body@, t, r, fuel - 2)
            } else {
                match else_body {
                    Some(b) => branch_step(s, b@, t, r, fuel - 2),
                    None => r matches Ok(v) && v@ == BoxSpec::VoidBox && t == s,
                }
            },
        },
        _ => false,
    }
}

/// A statement whose effect the interpreter states exactly: a flat one, or
/// an `if` over flat ones.
pub open spec fn plain_stmt(st: ASTNode, fuel: int) -> bool {
    flat_stmt(st, fuel) || if_stmt(st, fuel)
}

/// Each statement is a plain one.
pub open spec fn plain_stmts(stmts: Seq<ASTNode>, fuel: int) -> bool {
    forall|i: int| 0 <= i < stmts.len() ==> plain_stmt(#[trigger] stmts[i], fuel)
}

/// What running the plain statement `st` in `s` does.
pub open spec fn plain_step(s: NyashInterpreter, st: ASTNode, t: NyashInterpreter, r: Result<NyashBox, RuntimeError>, fuel: int) -> bool {
    if st is If { if_step(s, st, t, r, fuel) } else { flat_step(s, st, t, r, fuel) }
}

/// Whether the declaration of `class` marks `field` weak.
pub open spec fn weak_field_spec(s: NyashInterpreter, class: Seq<char>, field: Seq<char>) -> bool {
    s.shared.box_declarations@.contains_key(class)
        && exists|i: int| 0 <= i < s.shared.box_declarations@[class].weak_fields@.len()
            && #[trigger] s.shared.box_declarations@[class].weak_fields@[i]@ == field
}

/// What `recv.field` reads: a field of an instance, where a weak field
/// whose instance has been finalized reads null.
pub open spec fn field_read_spec(s: NyashInterpreter, recv: BoxSpec, field: Seq<char>) -> Result<BoxSpec, ErrSpec> {
    match recv {
        BoxSpec::InstanceBox(h) => match instance_at(s.shared.heap@, h) {
            None => Err(ErrSpec::TypeError("Cannot access field of a dangling instance"@)),
            Some(inst) => if !inst.fields@.contains_key(field) {
                Err(ErrSpec::InvalidOperation("Field '"@ + field + "' not found in "@ + inst.class_name@))
            } else if weak_field_spec(s, inst.class_name@, field) && inst.fields@[field]@ is InstanceBox
                && s.invalidated_ids@.contains(inst.fields@[field]@->InstanceBox_0 as u64) {
                Ok(BoxSpec::NullBox)
            } else {
                Ok(inst.fields@[field]@)
            },
        },
        _ => Err(ErrSpec::TypeError("Cannot access field '"@ + field + "' on non-instance type. Type: "@
            + box_type_name_spec(recv))),
    }
}

/// What `me.field` (or `this.field`) reads; `who` is the word the errors use.
pub open spec fn me_field_spec(s: NyashInterpreter, field: Seq<char>, who: Seq<char>) -> Result<BoxSpec, ErrSpec> {
    match s.resolve_spec("me"@) {
        None => Err(ErrSpec::InvalidOperation("'this' is not bound in the current context"@)),
        Some(BoxSpec::InstanceBox(h)) => match instance_at(s.shared.heap@, h) {
            Some(inst) => if inst.fields@.contains_key(field) {
                Ok(inst.fields@[field]@)
            } else {
                Err(ErrSpec::InvalidOperation("Field '"@ + field + "' not found on "@ + who))
            },
            None => Err(ErrSpec::TypeError("'this' is not an instance"@)),
        },
        Some(_) => Err(ErrSpec::TypeError("'this' is not an instance"@)),
    }
}

/// The value a literal denotes.
pub open spec fn literal_spec(v: LiteralValue) -> BoxSpec {
    match v {
        LiteralValue::String(s) => BoxSpec::StringBox(s@),
        LiteralValue::Integer(i) => BoxSpec::IntegerBox(i),
        LiteralValue::Bool(b) => BoxSpec::BoolBox(b),
        LiteralValue::Null => BoxSpec::NullBox,
        LiteralValue::Void => BoxSpec::VoidBox,
    }
}

/// The value of a literal.
pub fn literal_value(v: &LiteralValue) -> (r: NyashBox)
    ensures
        r@ == literal_spec(*v),
{
    match v {
        LiteralValue::String(s) => NyashBox::StringBox(s.clone()),
        LiteralValue::Integer(i) => NyashBox::IntegerBox(*i),
        LiteralValue::Bool(b) => NyashBox::BoolBox(*b),
        LiteralValue::Null => NyashBox::NullBox,
        LiteralValue::Void => NyashBox::VoidBox,
    }
}

/// How a pattern of `peek` reads as text.
pub open spec fn literal_text(v: LiteralValue) -> Seq<char> {
    match v {
        LiteralValue::String(s) => s@,
        LiteralValue::Integer(i) => int_text(i as int),
        LiteralValue::Bool(b) => bool_text(b),
        LiteralValue::Null => "null"@,
        LiteralValue::Void => "void"@,
    }
}

fn literal_string(v: &LiteralValue) -> (r: String)
    ensures
        r@ == literal_text(*v),
{
    match v {
        LiteralValue::String(s) => s.clone(),
        LiteralValue::Integer(i) => i64_to_string(*i),
        LiteralValue::Bool(b) => if *b { String::from_str("true") } else { String::from_str("false") },
        LiteralValue::Null => String::from_str("null"),
        LiteralValue::Void => String::from_str("void"),
    }
}

/// The error when the fuel of an evaluation has run out.
pub open spec fn step_limit_err() -> ErrSpec {
    ErrSpec::RuntimeFailure("evaluation step limit reached"@)
}

fn step_limit() -> (e: RuntimeError)
    ensures
        e@ == step_limit_err(),
{
    RuntimeError::RuntimeFailure { message: String::from_str("evaluation step limit reached") }
}

fn invalid(a: &str, b: &String, c: &str) -> (e: RuntimeError)
    ensures
        e@ == ErrSpec::InvalidOperation(a@ + b@ + c@),
{
    let mut m = String::from_str(a);
    append_text(&mut m, b);
    m.append(c);
    RuntimeError::InvalidOperation { message: m }
}

fn invalid_op(m: &str) -> (e: RuntimeError)
    ensures
        e@ == ErrSpec::InvalidOperation(m@),
{
    RuntimeError::InvalidOperation { message: String::from_str(m) }
}

fn type_err(m: &str) -> (e: RuntimeError)
    ensures
        e@ == ErrSpec::TypeError(m@),
{
    RuntimeError::TypeError { message: String::from_str(m) }
}

/// The name of a node's kind.
pub fn node_type(node: &ASTNode) -> (r: String)
    ensures
        r@.len() > 0,
{
    let r = match node {
        ASTNode::Program { .. } => String::from_str("Program"),
        ASTNode::Literal { .. } => String::from_str("Literal"),
        ASTNode::Variable { .. } => String::from_str("Variable"),
        ASTNode::BinaryOp { .. } => String::from_str("BinaryOp"),
        ASTNode::UnaryOp { .. } => String::from_str("UnaryOp"),
        ASTNode::MethodCall { .. } => String::from_str("MethodCall"),
        ASTNode::FieldAccess { .. } => String::from_str("FieldAccess"),
        ASTNode::New { .. } => String::from_str("New"),
        ASTNode::This => String::from_str("This"),
        ASTNode::Me => String::from_str("Me"),
        ASTNode::ThisField { .. } => String::from_str("ThisField"),
        ASTNode::MeField { .. } => String::from_str("MeField"),
        ASTNode::FunctionCall { .. } => String::from_str("FunctionCall"),
        ASTNode::FromCall { .. } => String::from_str("FromCall"),
        ASTNode::PeekExpr { .. } => String::from_str("PeekExpr"),
        ASTNode::Assignment { .. } => String::from_str("Assignment"),
        ASTNode::Local { .. } => String::from_str("Local"),
        ASTNode::If { .. } => String::from_str("If"),
        ASTNode::Loop { .. } => String::from_str("Loop"),
        ASTNode::Break => String::from_str("Break"),
        ASTNode::Continue => String::from_str("Continue"),
        ASTNode::Return { .. } => String::from_str("Return"),
        ASTNode::Print { .. } => String::from_str("Print"),
        ASTNode::FunctionDeclaration { .. } => String::from_str("FunctionDeclaration"),
    };
    proof {
        reveal_strlit("Program");
        reveal_strlit("Literal");
        reveal_strlit("Variable");
        reveal_strlit("BinaryOp");
        reveal_strlit("UnaryOp");
        reveal_strlit("MethodCall");
        reveal_strlit("FieldAccess");
        reveal_strlit("New");
        reveal_strlit("This");
        reveal_strlit("Me");
        reveal_strlit("ThisField");
        reveal_strlit("MeField");
        reveal_strlit("FunctionCall");
        reveal_strlit("FromCall");
        reveal_strlit("PeekExpr");
        reveal_strlit("Assignment");
        reveal_strlit("Local");
        reveal_strlit("If");
        reveal_strlit("Loop");
        reveal_strlit("Break");
        reveal_strlit("Continue");
        reveal_strlit("Return");
        reveal_strlit("Print");
        reveal_strlit("FunctionDeclaration");
    }
    r
}

/// Whether `x` is one of `ids`.
pub fn contains_id(ids: &Vec<u64>, x: u64) -> (b: bool)
    ensures
        b == ids@.contains(x),
{
    let mut i: usize = 0;
    while i < ids.len()
        invariant
            i <= ids@.len(),
            forall|j: int| 0 <= j < i ==> ids@[j] != x,
        decreases ids@.len() - i,
    {
        if ids[i] == x {
            return true;
        }
        i = i + 1;
    }
    false
}

/// The instance at `h` in the heap, if `h` holds one.
pub open spec fn instance_at(heap: Seq<HeapObject>, h: usize) -> Option<InstanceBox> {
    if h < heap.len() && heap[h as int] is Instance { Some(heap[h as int]->Instance_0) } else { None }
}


/// The text that shows an instance whose class name has no '#' names that
/// instance for weak-reference invalidation.
proof fn lemma_display_names_instance(heap: Seq<HeapObject>, h: usize)
    requires
        instance_at(heap, h) is Some,
        !instance_at(heap, h)->0.class_name@.contains('#'),
    ensures
        crate::interp::weak_target_id(display(heap, BoxSpec::InstanceBox(h), DISPLAY_DEPTH as nat)) == Some(h as u64),
{
    let inst = instance_at(heap, h)->0;
    assert(display(heap, BoxSpec::InstanceBox(h), DISPLAY_DEPTH as nat)
        == "<"@ + inst.class_name@ + " instance #"@ + crate::text::int_text(h as int) + ">"@);
    crate::interp::lemma_instance_text_id(inst.class_name@, h);
}

impl NyashInterpreter {
    /// The field `field` of the instance at `h`: `None` when `h` holds no
    /// instance, `Some(None)` when the instance has no such field.
    pub fn instance_field(&self, h: usize, field: &String) -> (r: Option<Option<NyashBox>>)
        requires
            self.wf(),
        ensures
            match instance_at(self.shared.heap@, h) {
                None => r is None,
                Some(inst) => match r {
                    Some(Some(v)) => inst.fields@.contains_key(field@) && v == inst.fields@[field@],
                    Some(None) => !inst.fields@.contains_key(field@),
                    None => false,
                },
            },
    {
        match heap_get(&self.shared.heap, h) {
            Some(HeapObject::Instance(inst)) => {
                proof { assert(heap_wf(self.shared.heap@)); assert(inst.wf()); }
                match inst.fields.get(field) {
                    Some(v) => Some(Some(v.clone_box())),
                    None => Some(None),
                }
            },
            _ => None,
        }
    }

    /// The class of the instance at `h`, if `h` holds one.
    pub fn instance_class(&self, h: usize) -> (r: Option<String>)
        ensures
            match instance_at(self.shared.heap@, h) {
                None => r is None,
                Some(inst) => r matches Some(c) && c@ == inst.class_name@,
            },
    {
        match heap_get(&self.shared.heap, h) {
            Some(HeapObject::Instance(inst)) => Some(inst.class_name.clone()),
            _ => None,
        }
    }

    /// Stores `value` in the field `field` of the instance at `h`. Only a
    /// field that the instance has can be assigned.
    pub fn set_instance_field(&mut self, h: usize, field: &String, value: NyashBox) -> (r: Result<(), RuntimeError>)
        requires
            old(self).wf(),
        ensures
            defs_kept(old(self).shared, final(self).shared),
            final(self).wf(),
            final(self).local_vars == old(self).local_vars,
            final(self).outbox_vars == old(self).outbox_vars,
            final(self).control_flow == old(self).control_flow,
            final(self).shared.global_box == old(self).shared.global_box,
            final(self).shared.box_declarations == old(self).shared.box_declarations,
            final(self).shared.static_box_definitions == old(self).shared.static_box_definitions,
            final(self).shared.static_functions == old(self).shared.static_functions,
            final(self).shared.heap@.len() == old(self).shared.heap@.len(),
            match instance_at(old(self).shared.heap@, h) {
                None => r matches Err(e) && e@ == ErrSpec::TypeError("Cannot assign a field of a non-instance value"@)
                    && final(self).shared.heap == old(self).shared.heap,
                Some(inst) => if inst.fields@.contains_key(field@) {
                    &&& r is Ok
                    &&& instance_at(final(self).shared.heap@, h) matches Some(ni)
                    &&& ni.fields@ == inst.fields@.insert(field@, value)
                    &&& ni.class_name == inst.class_name
                    &&& ni.methods == inst.methods
                    &&& forall|j: int| 0 <= j < old(self).shared.heap@.len() && j != h ==>
                        #[trigger] final(self).shared.heap@[j] == old(self).shared.heap@[j]
                } else {
                    &&& r matches Err(e) && e@ == ErrSpec::InvalidOperation("Field '"@ + field@ + "' does not exist in "@ + inst.class_name@)
                    &&& final(self).shared.heap == old(self).shared.heap
                },
            },
    {
        let ghost old_heap = self.shared.heap@;
        let class = match self.instance_field(h, field) {
            None => { return Err(type_err("Cannot assign a field of a non-instance value")); },
            Some(None) => {
                let c = match self.instance_class(h) { Some(c) => c, None => String::new() };
                let mut m = String::from_str("Field '");
                append_text(&mut m, field);
                m.append("' does not exist in ");
                append_text(&mut m, &c);
                return Err(RuntimeError::InvalidOperation { message: m });
            },
            Some(Some(_)) => (),
        };
        let mut obj = HeapObject::Array(Vec::new());
        std::mem::swap(&mut obj, &mut self.shared.heap[h]);
        match &mut obj {
            HeapObject::Instance(inst) => {
                proof { assert(old_heap[h as int] is Instance); assert(heap_wf(old_heap)); }
                inst.fields.insert(field.clone(), value);
            },
            _ => {},
        }
        self.shared.heap.set(h, obj);
        proof {
            assert forall|j: int| 0 <= j < self.shared.heap@.len() implies match #[trigger] self.shared.heap@[j] {
                HeapObject::Instance(inst) => inst.wf(),
                HeapObject::Dict(m) => m.wf(),
                HeapObject::Array(_) => true,
            } by {
                if j != h {
                    assert(self.shared.heap@[j] == old_heap[j]);
                }
            }
        }
        Ok(())
    }

    /// Puts `o` at the end of the heap and gives its handle.
    pub fn allocate(&mut self, o: HeapObject) -> (h: usize)
        requires
            old(self).wf(),
            match o {
                HeapObject::Instance(inst) => inst.wf(),
                HeapObject::Dict(m) => m.wf(),
                HeapObject::Array(_) => true,
            },
        ensures
            defs_kept(old(self).shared, final(self).shared),
            final(self).wf(),
            h == old(self).shared.heap@.len(),
            final(self).shared.heap@ == old(self).shared.heap@.push(o),
            final(self).local_vars == old(self).local_vars,
            final(self).outbox_vars == old(self).outbox_vars,
            final(self).control_flow == old(self).control_flow,
            final(self).shared.global_box == old(self).shared.global_box,
            final(self).shared.box_declarations == old(self).shared.box_declarations,
            final(self).shared.static_box_definitions == old(self).shared.static_box_definitions,
            final(self).shared.static_functions == old(self).shared.static_functions,
            final(self).runtime == old(self).runtime,
    {
        let h = self.shared.heap.len();
        proof { lemma_heap_push(self.shared.heap@, o); }
        self.shared.heap.push(o);
        h
    }

    /// A copy of a value: an array, a map or an instance is copied into a new
    /// object whose elements, entries or fields are those of the original;
    /// any other value is itself.
    pub fn clone_value(&mut self, v: &NyashBox) -> (r: NyashBox)
        requires
            old(self).wf(),
        ensures
            defs_kept(old(self).shared, final(self).shared),
            final(self).wf(),
            final(self).local_vars == old(self).local_vars,
            final(self).outbox_vars == old(self).outbox_vars,
            final(self).control_flow == old(self).control_flow,
            final(self).shared.global_box == old(self).shared.global_box,
            final(self).shared.box_declarations == old(self).shared.box_declarations,
            final(self).shared.static_box_definitions == old(self).shared.static_box_definitions,
            final(self).shared.static_functions == old(self).shared.static_functions,
            final(self).shared.heap@.len() >= old(self).shared.heap@.len(),
            final(self).shared.heap@.take(old(self).shared.heap@.len() as int) == old(self).shared.heap@,
            match v@ {
                BoxSpec::ArrayBox(h) => if h < old(self).shared.heap@.len() && old(self).shared.heap@[h as int] is Array {
                    &&& r@ == BoxSpec::ArrayBox(old(self).shared.heap@.len() as usize)
                    &&& final(self).shared.heap@.last() is Array
                    &&& views(final(self).shared.heap@.last()->Array_0@) == views(old(self).shared.heap@[h as int]->Array_0@)
                } else {
                    r == *v
                },
                BoxSpec::MapBox(h) => if h < old(self).shared.heap@.len() && old(self).shared.heap@[h as int] is Dict {
                    &&& r@ == BoxSpec::MapBox(old(self).shared.heap@.len() as usize)
                    &&& final(self).shared.heap@.last() is Dict
                    &&& final(self).shared.heap@.last()->Dict_0@ == old(self).shared.heap@[h as int]->Dict_0@
                } else {
                    r == *v
                },
                BoxSpec::InstanceBox(h) => if h < old(self).shared.heap@.len() && old(self).shared.heap@[h as int] is Instance {
                    &&& r@ == BoxSpec::InstanceBox(old(self).shared.heap@.len() as usize)
                    &&& final(self).shared.heap@.last() is Instance
                    &&& final(self).shared.heap@.last()->Instance_0.fields@ == old(self).shared.heap@[h as int]->Instance_0.fields@
                    &&& final(self).shared.heap@.last()->Instance_0.class_name@ == old(self).shared.heap@[h as int]->Instance_0.class_name@
                } else {
                    r == *v
                },
                _ => r == *v,
            },
            clone_post(*old(self), *final(self), v@, r@),
    {
        let ghost old_heap = self.shared.heap@;
        let copy: Option<HeapObject> = match v {
            NyashBox::ArrayBox(h) => match heap_get(&self.shared.heap, *h) {
                Some(HeapObject::Array(items)) => {
                    let mut c: Vec<NyashBox> = Vec::new();
                    let mut i: usize = 0;
                    while i < items.len()
                        invariant
                            i <= items@.len(),
                            c@.len() == i,
                            forall|j: int| 0 <= j < i ==> #[trigger] c@[j] == items@[j],
                        decreases items@.len() - i,
                    {
                        c.push(items[i].clone_box());
                        i = i + 1;
                    }
                    assert(views(c@) =~= views(items@));
                    Some(HeapObject::Array(c))
                },
                _ => None,
            },
            NyashBox::MapBox(h) => match heap_get(&self.shared.heap, *h) {
                Some(HeapObject::Dict(d)) => {
                    proof { assert(heap_wf(old_heap)); assert(d.wf()); }
                    Some(HeapObject::Dict(d.clone_values()))
                },
                _ => None,
            },
            NyashBox::InstanceBox(h) => match heap_get(&self.shared.heap, *h) {
                Some(HeapObject::Instance(inst)) => {
                    proof { assert(heap_wf(old_heap)); assert(inst.wf()); }
                    Some(HeapObject::Instance(InstanceBox {
                        class_name: inst.class_name.clone(),
                        fields: inst.fields.clone_values(),
                        methods: inst.methods.share_all(),
                    }))
                },
                _ => None,
            },
            _ => None,
        };
        match copy {
            Some(o) => {
                let n = self.allocate(o);
                proof { assert(self.shared.heap@.take(old_heap.len() as int) =~= old_heap); }
                match v {
                    NyashBox::ArrayBox(_) => NyashBox::ArrayBox(n),
                    NyashBox::MapBox(_) => NyashBox::MapBox(n),
                    _ => NyashBox::InstanceBox(n),
                }
            },
            None => {
                proof { assert(self.shared.heap@.take(old_heap.len() as int) =~= old_heap); }
                v.clone_box()
            },
        }
    }
}


impl NyashInterpreter {
    /// Evaluates an expression.
    #[verifier::loop_isolation(false)]
    #[verifier::rlimit(90)]
    pub fn execute_expression(&mut self, node: &ASTNode, fuel: u64) -> (r: Result<NyashBox, RuntimeError>)
        requires
            old(self).wf(),
        ensures
            expr_post(*old(self), *node, fuel as int, *final(self), r),
            call_args_post(*old(self), *node, fuel as int, *final(self), r),
            expr_program_post(*old(self), *node, fuel as int, *final(self), r),
        decreases fuel,
    {
        if fuel == 0 {
            return Err(step_limit());
        }
        let f = fuel - 1;
        match node {
            ASTNode::Program { statements } => {
                let ghost plain = fuel > 1;
                let mut result = NyashBox::VoidBox;
                let n = statements.len();
                let mut i: usize = 0;
                proof { assert(statements@.skip(0) =~= statements@); }
                while i < n
                    invariant
                        self.wf(),
                        defs_kept(old(self).shared, self.shared),
                        n == statements@.len(),
                        i <= n,
                        f == fuel - 1,
                        plain ==> self.discard_context == old(self).discard_context,
                        plain ==> forall|t: NyashInterpreter, q: Result<NyashBox, RuntimeError>|
                            #[trigger] prog_rel(*self, statements@.skip(i as int), result, t, q, false, fuel - 1)
                                ==> prog_rel(*old(self), statements@, NyashBox::VoidBox, t, q, false, fuel - 1),
                    decreases n - i,
                {
                    let ghost cur = *self;
                    let ghost prevr = result;
                    let ghost rest = statements@.skip(i as int);
                    proof {
                        assert(rest[0] == statements@[i as int]);
                        assert(rest.drop_first() =~= statements@.skip(i as int + 1));
                        assert(rest.len() == n - i);
                    }
                    let prev = self.discard_context;
                    self.discard_context = i + 1 != n;
                    proof { assert(*self == with_discard(cur, not_last(rest.len()))); }
                    let r1 = self.execute_statement(&statements[i], f);
                    let ghost g1 = r1;
                    let ghost m = *self;
                    proof {
                        if plain {
                            assert(stmt_post(with_discard(cur, not_last(rest.len())), rest[0], fuel - 1, *self, g1));
                        }
                    }
                    result = match r1 {
                        Ok(v) => v,
                        Err(e) => {
                            proof { if plain { assert(prog_rel(cur, rest, prevr, *self, g1, false, fuel - 1)); } }
                            return Err(e);
                        },
                    };
                    self.discard_context = prev;
                    proof { if plain { assert(*self == with_discard(m, cur.discard_context)); } }
                    match &self.control_flow {
                        ControlFlow::Break => {
                            proof { if plain { assert(prog_rel(cur, rest, prevr, *self, Err::<NyashBox, RuntimeError>(RuntimeError::BreakOutsideLoop), false, fuel - 1)); } }
                            return Err(RuntimeError::BreakOutsideLoop);
                        },
                        ControlFlow::Continue => {
                            proof { if plain { assert(prog_rel(cur, rest, prevr, *self, Err::<NyashBox, RuntimeError>(RuntimeError::BreakOutsideLoop), false, fuel - 1)); } }
                            return Err(RuntimeError::BreakOutsideLoop);
                        },
                        ControlFlow::Return(_) => {
                            proof { if plain { assert(prog_rel(cur, rest, prevr, *self, Err::<NyashBox, RuntimeError>(RuntimeError::ReturnOutsideFunction), false, fuel - 1)); } }
                            return Err(RuntimeError::ReturnOutsideFunction);
                        },
                        ControlFlow::Throw(_) => {
                            proof { if plain { assert(prog_rel(cur, rest, prevr, *self, Err::<NyashBox, RuntimeError>(RuntimeError::UncaughtException), false, fuel - 1)); } }
                            return Err(RuntimeError::UncaughtException);
                        },
                        ControlFlow::Normal => {},
                    }
                    proof {
                        if plain {
                            assert forall|t: NyashInterpreter, q: Result<NyashBox, RuntimeError>|
                                #[trigger] prog_rel(*self, statements@.skip(i as int + 1), result, t, q, false, fuel - 1)
                                implies prog_rel(*old(self), statements@, NyashBox::VoidBox, t, q, false, fuel - 1) by {
                                assert(prog_rel(cur, rest, prevr, t, q, false, fuel - 1));
                            }
                        }
                    }
                    i = i + 1;
                }
                proof {
                    if plain {
                        assert(statements@.skip(i as int).len() == 0);
                        assert(prog_rel(*self, statements@.skip(i as int), result, *self, Ok::<NyashBox, RuntimeError>(result), false, fuel - 1));
                    }
                }
                Ok(result)
            },
            ASTNode::Literal { value } => Ok(literal_value(value)),
            ASTNode::Variable { name, span } => {
                match self.resolve_variable(name) {
                    Ok(v) => Ok(v),
                    Err(_) => Err(RuntimeError::UndefinedVariableAt { name: name.clone(), span: span.copy_span() }),
                }
            },
            ASTNode::BinaryOp { operator, left, right } => {
                let l = self.execute_expression(left, f)?;
                let r = self.execute_expression(right, f)?;
                binary_op_values(&self.shared.heap, operator, &l, &r)
            },
            ASTNode::UnaryOp { operator, operand } => {
                let v = self.execute_expression(operand, f)?;
                unary_op_value(operator, &v)
            },
            ASTNode::MethodCall { object, method, arguments } => {
                let ghost s0 = *self;
                let rm = self.execute_method_call(object, method, arguments, f);
                proof {
                    if fuel > 2 {
                        assert(builtin_call_general_post(s0, **object, method@, arguments@, fuel - 2, *self, rm));
                        assert(static_call_post(s0, *self, **object, method@, arguments@, fuel - 2, rm));
                        assert(static_run_post(s0, *self, **object, method@, arguments@, fuel - 2, rm));
                    }
                }
                rm
            },
            ASTNode::FieldAccess { object, field } => {
                self.execute_field_access(object, field, f)
            },
            ASTNode::New { class, arguments, type_arguments } => {
                let ghost s0 = *self;
                let rn = self.execute_new(class, arguments, type_arguments, f);
                proof {
                    if fuel > 2 {
                        let (m, ra) = choose|m: NyashInterpreter, ra: Result<Seq<NyashBox>, RuntimeError>|
                            #[trigger] args_rel(s0, arguments@, f - 2, m, ra)
                            && match ra {
                                Err(e) => rn == Err::<NyashBox, RuntimeError>(e) && *self == m,
                                Ok(a) => new_values_post(m, *self, class@, names(type_arguments@), a, (f - 1) as nat, rn),
                            };
                        assert(args_rel(s0, arguments@, fuel - 3, m, ra));
                    }
                }
                rn
            },
            ASTNode::This => {
                match self.resolve_variable(&String::from_str("me")) {
                    Ok(v) => Ok(v),
                    Err(_) => Err(invalid_op("'this' is only available inside methods")),
                }
            },
            ASTNode::Me => {
                match self.resolve_variable(&String::from_str("me")) {
                    Ok(v) => Ok(v),
                    Err(_) => Err(invalid_op("'me' is only available inside methods")),
                }
            },
            ASTNode::ThisField { field } => self.me_field(field, "this"),
            ASTNode::MeField { field } => self.me_field(field, "me"),
            ASTNode::FunctionCall { name, arguments } => {
                let ghost s0 = *self;
                let rf = self.execute_function_call(name, arguments, f);
                proof {
                    if fuel > 2 && s0.shared.global_box.methods@.contains_key(name@) {
                        let (u, ra) = choose|u: NyashInterpreter, ra: Result<Seq<NyashBox>, RuntimeError>|
                            #[trigger] args_rel(s0, arguments@, f - 2, u, ra) && match ra {
                                Err(e) => rf == Err::<NyashBox, RuntimeError>(e) && *self == u,
                                Ok(a) => if a.len() != s0.shared.global_box.methods@[name@].params@.len() {
                                    rf matches Err(x) && *self == u && x@ == ErrSpec::InvalidOperation(
                                        count_text("Function "@, name@, " expects "@, s0.shared.global_box.methods@[name@].params@.len(), a.len()))
                                } else {
                                    call_fn_post(u, *self, *s0.shared.global_box.methods@[name@], a, None, f - 1, rf)
                                },
                            };
                        assert(args_rel(s0, arguments@, fuel - 3, u, ra));
                    }
                }
                rf
            },
            ASTNode::FromCall { parent, method, arguments } => {
                self.execute_from_call(parent, method, arguments, f)
            },
            ASTNode::PeekExpr { scrutinee, arms, else_expr } => {
                let v = self.execute_expression(scrutinee, f)?;
                let text = display_box(&self.shared.heap, &v, DISPLAY_DEPTH);
                let mut i: usize = 0;
                while i < arms.len()
                    invariant
                        self.wf(),
                        defs_kept(old(self).shared, self.shared),
                        i <= arms@.len(),
                    decreases arms@.len() - i,
                {
                    if literal_string(&arms[i].pattern) == text {
                        return self.execute_expression(&arms[i].body, f);
                    }
                    i = i + 1;
                }
                self.execute_expression(else_expr, f)
            },
            _ => {
                let t = node_type(node);
                Err(invalid("Cannot execute ", &t, " as expression"))
            },
        }
    }

    /// A field of `me`: `who` names it in the errors ("me" or "this").
    fn me_field(&self, field: &String, who: &str) -> (r: Result<NyashBox, RuntimeError>)
        requires
            self.wf(),
        ensures
            outcome(r) == me_field_spec(*self, field@, who@),
    {
        let me = match self.resolve_variable(&String::from_str("me")) {
            Ok(v) => v,
            Err(_) => { return Err(invalid_op("'this' is not bound in the current context")); },
        };
        match me {
            NyashBox::InstanceBox(h) => match self.instance_field(h, field) {
                Some(Some(v)) => Ok(v),
                Some(None) => {
                    let mut m = String::from_str("Field '");
                    append_text(&mut m, field);
                    m.append("' not found on ");
                    m.append(who);
                    Err(RuntimeError::InvalidOperation { message: m })
                },
                None => Err(type_err("'this' is not an instance")),
            },
            _ => Err(type_err("'this' is not an instance")),
        }
    }

    /// Evaluates the arguments of a call, in order.
    #[verifier::loop_isolation(false)]
    #[verifier::rlimit(40)]
    pub fn eval_args(&mut self, arguments: &Vec<ASTNode>, fuel: u64) -> (r: Result<Vec<NyashBox>, RuntimeError>)
        requires
            old(self).wf(),
        ensures
            defs_kept(old(self).shared, final(self).shared),
            final(self).wf(),
            r matches Ok(v) ==> v@.len() == arguments@.len(),
            fuel > 0 ==> args_rel(*old(self), arguments@, fuel - 1, *final(self), values_of(r)),
            fuel > 0 && all_pure(arguments@, fuel as int) ==> *final(self) == *old(self) && match pure_eval_args(*old(self), arguments@) {
                Ok(vs) => r matches Ok(v) && crate::methods::views(v@) == vs,
                Err(e) => r matches Err(x) && x@ == e,
            },
        decreases fuel,
    {
        if fuel == 0 {
            return Err(step_limit());
        }
        let mut values: Vec<NyashBox> = Vec::new();
        let mut i: usize = 0;
        assert(arguments@.take(0) =~= Seq::<ASTNode>::empty());
        assert(crate::methods::views(values@) =~= Seq::<BoxSpec>::empty());
        proof {
            assert(arguments@.skip(0) =~= arguments@);
            assert forall|q: Result<Seq<NyashBox>, RuntimeError>| #[trigger] prepend_values(values@, q) == q by {
                match q {
                    Ok(vs) => { assert(values@ + vs =~= vs); },
                    Err(_) => {},
                }
            }
        }
        while i < arguments.len()
            invariant
                self.wf(),
                defs_kept(old(self).shared, self.shared),
                i <= arguments@.len(),
                values@.len() == i,
                all_pure(arguments@, fuel as int) ==> *self == *old(self)
                    && pure_eval_args(*old(self), arguments@.take(i as int)) == Ok::<Seq<BoxSpec>, ErrSpec>(crate::methods::views(values@)),
                forall|t: NyashInterpreter, q: Result<Seq<NyashBox>, RuntimeError>|
                    #[trigger] args_rel(*self, arguments@.skip(i as int), fuel - 1, t, q)
                        ==> args_rel(*old(self), arguments@, fuel - 1, t, prepend_values(values@, q)),
            decreases arguments@.len() - i,
        {
            let ghost cur = *self;
            let ghost rest = arguments@.skip(i as int);
            let ghost vals = values@;
            proof {
                assert(rest[0] == arguments@[i as int]);
                assert(rest.drop_first() =~= arguments@.skip(i as int + 1));
            }
            proof {
                if all_pure(arguments@, fuel as int) {
                    assert(arguments@.take(i + 1).drop_last() =~= arguments@.take(i as int));
                    assert(arguments@.take(i + 1).last() == arguments@[i as int]);
                    assert(pure_expr(arguments@[i as int]));
                }
            }
            let r0 = self.execute_expression(&arguments[i], fuel - 1);
            let ghost g0 = r0;
            let ghost m = *self;
            proof { assert(expr_post(cur, rest[0], fuel - 1, m, g0)); }
            let v = match r0 {
                Ok(v) => v,
                Err(e) => {
                    proof {
                        if all_pure(arguments@, fuel as int) {
                            lemma_pure_eval_args_err(*old(self), arguments@, i + 1);
                        }
                        assert(args_rel(cur, rest, fuel - 1, m, Err::<Seq<NyashBox>, RuntimeError>(e)));
                    }
                    return Err(e);
                },
            };
            let ghost before = values@;
            values.push(v);
            proof {
                if all_pure(arguments@, fuel as int) {
                    assert(crate::methods::views(values@) =~= crate::methods::views(before).push(v@));
                }
                assert forall|t: NyashInterpreter, q: Result<Seq<NyashBox>, RuntimeError>|
                    #[trigger] args_rel(*self, arguments@.skip(i as int + 1), fuel - 1, t, q)
                    implies args_rel(*old(self), arguments@, fuel - 1, t, prepend_values(values@, q)) by {
                    let q1 = prepend_values(seq![v], q);
                    match q {
                        Ok(vs) => {
                            assert((seq![v] + vs).drop_first() =~= vs);
                            assert(vals + (seq![v] + vs) =~= values@ + vs);
                        },
                        Err(_) => {},
                    }
                    assert(args_rel(cur, rest, fuel - 1, t, q1));
                }
            }
            i = i + 1;
        }
        proof {
            assert(arguments@.take(arguments@.len() as int) =~= arguments@);
            assert(arguments@.skip(i as int).len() == 0);
            assert(args_rel(*self, arguments@.skip(i as int), fuel - 1, *self, Ok::<Seq<NyashBox>, RuntimeError>(Seq::empty())));
            assert(values@ + Seq::<NyashBox>::empty() =~= values@);
        }
        Ok(values)
    }

    /// Executes a statement. `break`, `continue` and `return` are left in
    /// `control_flow` for the enclosing loop or call to act on.
    #[verifier::loop_isolation(false)]
    #[verifier::rlimit(80)]
    pub fn execute_statement(&mut self, node: &ASTNode, fuel: u64) -> (r: Result<NyashBox, RuntimeError>)
        requires
            old(self).wf(),
        ensures
            stmt_post(*old(self), *node, fuel as int, *final(self), r),
            local_post(*old(self), *node, fuel as int, *final(self), r),
            loop_stmt_post(*old(self), *node, fuel as int, *final(self), r),
        decreases fuel,
    {
        if fuel == 0 {
            return Err(step_limit());
        }
        let f = fuel - 1;
        match node {
            ASTNode::Assignment { target, value } => {
                let ghost s0 = *self;
                let rv = self.execute_expression(value, f);
                let ghost g0 = rv;
                let ghost m = *self;
                proof {
                    if call_expr(**value, fuel as int) {
                        assert(call_step(s0, **value, m, g0, fuel as int));
                    }
                }
                let v = match rv {
                    Ok(v) => v,
                    Err(e) => { return Err(e); },
                };
                self.assign(target, v.clone_box(), f)?;
                Ok(v)
            },
            ASTNode::Local { variables, initial_values } => {
                let mut i: usize = 0;
                while i < variables.len()
                    invariant
                        self.wf(),
                        defs_kept(old(self).shared, self.shared),
                        i <= variables@.len(),
                        f == fuel - 1,
                        forall|t: NyashInterpreter, q: Result<NyashBox, RuntimeError>|
                            #[trigger] local_run(*self, variables@, initial_values@, i as int, f as int, t, q)
                                ==> local_run(*old(self), variables@, initial_values@, 0, f as int, t, q),
                    decreases variables@.len() - i,
                {
                    let ghost cur = *self;
                    let v = if i < initial_values.len() {
                        match &initial_values[i] {
                            Some(e) => {
                                let re = self.execute_expression(e, f);
                                let ghost ge = re;
                                proof { assert(expr_post(cur, initial_values@[i as int]->0, f as int, *self, ge)); }
                                match re {
                                    Ok(x) => x,
                                    Err(err) => {
                                        proof {
                                            assert(local_run(cur, variables@, initial_values@, i as int, f as int, *self,
                                                Err::<NyashBox, RuntimeError>(err)));
                                        }
                                        return Err(err);
                                    },
                                }
                            },
                            None => NyashBox::VoidBox,
                        }
                    } else {
                        NyashBox::VoidBox
                    };
                    let ghost mid = *self;
                    let ghost gv = v;
                    self.declare_local_variable(&variables[i], v);
                    proof {
                        assert forall|t: NyashInterpreter, q: Result<NyashBox, RuntimeError>|
                            #[trigger] local_run(*self, variables@, initial_values@, i as int + 1, f as int, t, q)
                            implies local_run(*old(self), variables@, initial_values@, 0, f as int, t, q) by {
                            assert(crate::interp::declare_local_post(mid, *self, variables@[i as int]@, gv));
                            assert(local_run(cur, variables@, initial_values@, i as int, f as int, t, q));
                        }
                    }
                    i = i + 1;
                }
                proof {
                    assert(local_run(*self, variables@, initial_values@, i as int, f as int, *self,
                        Ok::<NyashBox, RuntimeError>(NyashBox::VoidBox)));
                }
                Ok(NyashBox::VoidBox)
            },
            ASTNode::If { condition, then_body, else_body } => {
                let ghost s0 = *self;
                let c = self.execute_expression(condition, f)?;
                if is_truthy(&c) {
                    let rb = self.execute_block(then_body, f);
                    let ghost gb = rb;
                    proof {
                        if if_stmt(*node, fuel as int) {
                            assert(block_rel(s0, then_body@, NyashBox::VoidBox, *self, gb, fuel - 2));
                        }
                    }
                    match rb {
                        Ok(_) => {},
                        Err(e) => {
                            proof {
                                if if_stmt(*node, fuel as int) {
                                    assert(pure_eval(s0, **condition) == Ok::<BoxSpec, ErrSpec>(c@));
                                    assert(crate::ops::truthy(c@));
                                    assert(block_rel(s0, then_body@, NyashBox::VoidBox, *self, gb, fuel - 2));
                                    assert(if_step(s0, *node, *self, gb, fuel as int));
                                }
                            }
                            return Err(e);
                        },
                    }
                } else {
                    match else_body {
                        Some(b) => {
                            let rb = self.execute_block(b, f);
                            let ghost gb = rb;
                            proof {
                                if if_stmt(*node, fuel as int) {
                                    assert(block_rel(s0, b@, NyashBox::VoidBox, *self, gb, fuel - 2));
                                }
                            }
                            match rb {
                                Ok(_) => {},
                                Err(e) => {
                                    proof {
                                        if if_stmt(*node, fuel as int) {
                                            assert(if_step(s0, *node, *self, gb, fuel as int));
                                        }
                                    }
                                    return Err(e);
                                },
                            }
                        },
                        None => {},
                    }
                }
                Ok(NyashBox::VoidBox)
            },
            ASTNode::Loop { condition, body } => {
                let ghost s0 = *self;
                let rl = self.execute_loop(condition, body, f);
                let ghost grl = rl;
                proof { if fuel > 1 { assert(loop_rel(s0, **condition, body@, fuel - 2, fuel - 1, *self, grl)); } }
                match rl {
                    Ok(_) => {},
                    Err(e) => { return Err(e); },
                }
                Ok(NyashBox::VoidBox)
            },
            ASTNode::Break => {
                self.control_flow = ControlFlow::Break;
                Ok(NyashBox::VoidBox)
            },
            ASTNode::Continue => {
                self.control_flow = ControlFlow::Continue;
                Ok(NyashBox::VoidBox)
            },
            ASTNode::Return { value } => {
                let ghost s0 = *self;
                let v = match value {
                    Some(e) => {
                        let re = self.execute_expression(e, f);
                        let ghost ge = re;
                        proof { assert(expr_post(s0, **e, f as int, *self, ge)); }
                        match re {
                            Ok(x) => x,
                            Err(err) => { return Err(err); },
                        }
                    },
                    None => NyashBox::VoidBox,
                };
                self.control_flow = ControlFlow::Return(v);
                Ok(NyashBox::VoidBox)
            },
            ASTNode::Print { expression } => {
                let ghost s0 = *self;
                let re = self.execute_expression(expression, f);
                let ghost ge = re;
                let ghost m = *self;
                proof { assert(expr_post(s0, **expression, f as int, m, ge)); }
                let v = match re {
                    Ok(x) => x,
                    Err(err) => { return Err(err); },
                };
                let text = display_box(&self.shared.heap, &v, DISPLAY_DEPTH);
                self.output.push(text);
                Ok(NyashBox::VoidBox)
            },
            ASTNode::FunctionDeclaration { decl } => {
                let name = decl.name.clone();
                self.register_global_function(name, share_rc(decl))?;
                Ok(NyashBox::VoidBox)
            },
            _ => {
                let ghost s0 = *self;
                let rv = self.execute_expression(node, f);
                proof {
                    if call_expr(*node, fuel as int) {
                        assert(call_step(s0, *node, *self, rv, fuel as int));
                    }
                }
                rv
            },
        }
    }

    /// Stores `v` where `target` names: a variable, a field of an instance,
    /// or a field of `me`.
    fn assign(&mut self, target: &ASTNode, v: NyashBox, fuel: u64) -> (r: Result<(), RuntimeError>)
        requires
            old(self).wf(),
        ensures
            fuel > 0 ==> match *target {
                ASTNode::Variable { name, .. } => r is Ok && crate::interp::set_variable_post(*old(self), *final(self), name@, v),
                ASTNode::FieldAccess { object, field } => pure_expr(*object) && expr_depth(*object) < fuel ==>
                    match pure_eval(*old(self), *object) {
                        Err(x) => r matches Err(e) && e@ == x && *final(self) == *old(self),
                        Ok(BoxSpec::InstanceBox(h)) => match store_error(*old(self), h, field@) {
                            Some(x) => r matches Err(e) && e@ == x && store_frame(*old(self), *final(self))
                                && final(self).shared.heap == old(self).shared.heap,
                            None => r is Ok && store_done(*old(self), *final(self), h, field@, v),
                        },
                        Ok(_) => r matches Err(e) && e@ == ErrSpec::TypeError("Cannot assign a field of a non-instance value"@)
                            && *final(self) == *old(self),
                    },
                ASTNode::ThisField { field } => me_store_post(*old(self), *final(self), field@, v, r),
                ASTNode::MeField { field } => me_store_post(*old(self), *final(self), field@, v, r),
                _ => true,
            },
            defs_kept(old(self).shared, final(self).shared),
            final(self).wf(),
        decreases fuel,
    {
        if fuel == 0 {
            return Err(step_limit());
        }
        match target {
            ASTNode::Variable { name, .. } => self.set_variable(name, v),
            ASTNode::FieldAccess { object, field } => {
                let o = self.execute_expression(object, fuel - 1)?;
                match o {
                    NyashBox::InstanceBox(h) => self.set_instance_field(h, field, v),
                    _ => Err(type_err("Cannot assign a field of a non-instance value")),
                }
            },
            ASTNode::ThisField { field } | ASTNode::MeField { field } => {
                match self.resolve_variable(&String::from_str("me")) {
                    Ok(NyashBox::InstanceBox(h)) => self.set_instance_field(h, field, v),
                    Ok(_) => Err(type_err("'this' is not an instance")),
                    Err(_) => Err(invalid_op("'this' is not bound in the current context")),
                }
            },
            _ => Err(invalid_op("Invalid assignment target")),
        }
    }

    /// Executes statements until one of them leaves `control_flow` other
    /// than normal; gives the value of the last one executed.
    #[verifier::loop_isolation(false)]
    pub fn execute_block(&mut self, statements: &Vec<ASTNode>, fuel: u64) -> (r: Result<NyashBox, RuntimeError>)
        requires
            old(self).wf(),
        ensures
            defs_kept(old(self).shared, final(self).shared),
            final(self).wf(),
            fuel > 1 && simple_stmts(statements@, fuel - 1) && old(self).control_flow is Normal ==>
                match simple_run(*old(self), statements@, BoxSpec::VoidBox) {
                    Err(x) => r matches Err(e) && e@ == x && *final(self) == *old(self),
                    Ok((v, None)) => r matches Ok(y) && y@ == v && *final(self) == *old(self),
                    Ok((_, Some(rv))) => r matches Ok(y) && y@ == BoxSpec::VoidBox
                        && same_but_flow(*old(self), *final(self))
                        && (final(self).control_flow matches ControlFlow::Return(z) && z@ == rv),
                },
            fuel > 1 && flat_stmts(statements@, fuel - 1) ==> block_rel(*old(self), statements@, NyashBox::VoidBox, *final(self), r, fuel - 1),
            fuel > 0 ==> gblock_rel(*old(self), statements@, NyashBox::VoidBox, fuel - 1, *final(self), r),
        decreases fuel,
    {
        if fuel == 0 {
            return Err(step_limit());
        }
        let ghost simple = fuel > 1 && simple_stmts(statements@, fuel - 1) && old(self).control_flow is Normal;
        let ghost flat = fuel > 1 && flat_stmts(statements@, fuel - 1);
        let mut result = NyashBox::VoidBox;
        let mut i: usize = 0;
        proof { assert(statements@.skip(0) =~= statements@); }
        while i < statements.len()
            invariant
                self.wf(),
                defs_kept(old(self).shared, self.shared),
                i <= statements@.len(),
                simple ==> *self == *old(self)
                    && simple_run(*old(self), statements@, BoxSpec::VoidBox)
                        == simple_run(*old(self), statements@.skip(i as int), result@),
                flat ==> forall|t: NyashInterpreter, q: Result<NyashBox, RuntimeError>|
                    #[trigger] block_rel(*self, statements@.skip(i as int), result, t, q, fuel - 1)
                        ==> block_rel(*old(self), statements@, NyashBox::VoidBox, t, q, fuel - 1),
                forall|t: NyashInterpreter, q: Result<NyashBox, RuntimeError>|
                    #[trigger] gblock_rel(*self, statements@.skip(i as int), result, fuel - 1, t, q)
                        ==> gblock_rel(*old(self), statements@, NyashBox::VoidBox, fuel - 1, t, q),
            decreases statements@.len() - i,
        {
            let ghost cur = *self;
            let ghost prev = result;
            let ghost rest = statements@.skip(i as int);
            proof {
                assert(rest[0] == statements@[i as int]);
                assert(rest.drop_first() =~= statements@.skip(i as int + 1));
                if simple {
                    assert(simple_stmt(statements@[i as int], fuel - 1));
                }
                if flat {
                    assert(flat_stmt(statements@[i as int], fuel - 1));
                }
            }
            let r1 = self.execute_statement(&statements[i], fuel - 1);
            let ghost g1 = r1;
            proof {
                assert(stmt_post(cur, rest[0], fuel - 1, *self, g1));
                if flat {
                    assert(flat_step(cur, rest[0], *self, g1, fuel - 1));
                }
            }
            result = match r1 {
                Ok(v) => v,
                Err(e) => {
                    proof {
                        if flat {
                            assert(block_rel(cur, rest, prev, *self, g1, fuel - 1));
                        }
                        assert(gblock_rel(cur, rest, prev, fuel - 1, *self, g1));
                    }
                    return Err(e);
                },
            };
            match &self.control_flow {
                ControlFlow::Normal => {},
                _ => {
                    proof {
                        if flat {
                            assert(block_rel(cur, rest, prev, *self, g1, fuel - 1));
                        }
                        assert(gblock_rel(cur, rest, prev, fuel - 1, *self, g1));
                    }
                    return Ok(result);
                },
            }
            proof {
                if flat {
                    assert forall|t: NyashInterpreter, q: Result<NyashBox, RuntimeError>|
                        #[trigger] block_rel(*self, statements@.skip(i as int + 1), result, t, q, fuel - 1)
                        implies block_rel(*old(self), statements@, NyashBox::VoidBox, t, q, fuel - 1) by {
                        assert(flat_step(cur, rest[0], *self, g1, fuel - 1));
                        assert(block_rel(cur, rest, prev, t, q, fuel - 1));
                    }
                }
                assert forall|t: NyashInterpreter, q: Result<NyashBox, RuntimeError>|
                    #[trigger] gblock_rel(*self, statements@.skip(i as int + 1), result, fuel - 1, t, q)
                    implies gblock_rel(*old(self), statements@, NyashBox::VoidBox, fuel - 1, t, q) by {
                    assert(gblock_rel(cur, rest, prev, fuel - 1, t, q));
                }
            }
            i = i + 1;
        }
        proof {
            assert(gblock_rel(*self, statements@.skip(i as int), result, fuel - 1, *self, Ok::<NyashBox, RuntimeError>(result)));
        }
        proof {
            if flat {
                assert(statements@.skip(i as int).len() == 0);
                assert(block_rel(*self, statements@.skip(i as int), result, *self, Ok::<NyashBox, RuntimeError>(result), fuel - 1));
            }
        }
        Ok(result)
    }

    /// `loop(condition) { body }`: runs the body while the condition holds;
    /// `break` ends the loop, `continue` goes to the next round, and `return`
    /// leaves it with `control_flow` set for the enclosing call.
    #[verifier::loop_isolation(false)]
    fn execute_loop(&mut self, condition: &ASTNode, body: &Vec<ASTNode>, fuel: u64) -> (r: Result<(), RuntimeError>)
        requires
            old(self).wf(),
        ensures
            defs_kept(old(self).shared, final(self).shared),
            final(self).wf(),
            fuel > 1 && pure_expr(*condition) && expr_depth(*condition) < fuel ==> match pure_eval(*old(self), *condition) {
                Err(x) => r matches Err(e) && e@ == x && *final(self) == *old(self),
                Ok(c) => !crate::ops::truthy(c) ==> r is Ok && *final(self) == *old(self),
            },
            fuel > 0 ==> loop_rel(*old(self), *condition, body@, fuel - 1, fuel as int, *final(self), r),
        decreases fuel,
    {
        if fuel == 0 {
            return Err(step_limit());
        }
        let mut rounds: u64 = fuel;
        let ghost mut first = true;
        loop
            invariant
                self.wf(),
                defs_kept(old(self).shared, self.shared),
                rounds <= fuel,
                first ==> rounds == fuel && *self == *old(self),
                !first && fuel > 1 && pure_expr(*condition) && expr_depth(*condition) < fuel
                    ==> pure_eval(*old(self), *condition) is Ok
                        && crate::ops::truthy(pure_eval(*old(self), *condition)->Ok_0),
                forall|t: NyashInterpreter, q: Result<(), RuntimeError>|
                    #[trigger] loop_rel(*self, *condition, body@, fuel - 1, rounds as int, t, q)
                        ==> loop_rel(*old(self), *condition, body@, fuel - 1, fuel as int, t, q),
            decreases rounds,
        {
            let ghost cur = *self;
            let ghost rnd = rounds as int;
            if rounds == 0 {
                let e = step_limit();
                proof { assert(loop_rel(cur, *condition, body@, fuel - 1, 0, *self, Err::<(), RuntimeError>(e))); }
                return Err(e);
            }
            rounds = rounds - 1;
            let rc = self.execute_expression(condition, fuel - 1);
            let ghost gc = rc;
            let ghost m0 = *self;
            proof { assert(expr_post(cur, *condition, fuel - 1, m0, gc)); }
            let c = match rc {
                Ok(c) => c,
                Err(e) => {
                    proof { assert(loop_rel(cur, *condition, body@, fuel - 1, rnd, *self, Err::<(), RuntimeError>(e))); }
                    return Err(e);
                },
            };
            if !is_truthy(&c) {
                proof { assert(loop_rel(cur, *condition, body@, fuel - 1, rnd, *self, Ok::<(), RuntimeError>(()))); }
                return Ok(());
            }
            proof { first = false; }
            let rb = self.execute_block(body, fuel - 1);
            let ghost gb = rb;
            let ghost m1 = *self;
            proof { assert(gblock_rel(m0, body@, NyashBox::VoidBox, fuel - 2, m1, gb)); }
            match rb {
                Ok(_) => {},
                Err(e) => {
                    proof { assert(loop_rel(cur, *condition, body@, fuel - 1, rnd, *self, Err::<(), RuntimeError>(e))); }
                    return Err(e);
                },
            }
            proof {
                if !(self.control_flow is Break || self.control_flow is Continue || self.control_flow is Normal) {
                    assert(loop_rel(cur, *condition, body@, fuel - 1, rnd, *self, Ok::<(), RuntimeError>(())));
                }
            }
            match &self.control_flow {
                ControlFlow::Break => {
                    self.control_flow = ControlFlow::Normal;
                    proof {
                        assert(*self == with_normal_flow(m1));
                        assert(loop_rel(cur, *condition, body@, fuel - 1, rnd, *self, Ok::<(), RuntimeError>(())));
                    }
                    return Ok(());
                },
                ControlFlow::Continue => {
                    self.control_flow = ControlFlow::Normal;
                    proof {
                        assert(*self == with_normal_flow(m1));
                        assert forall|t: NyashInterpreter, q: Result<(), RuntimeError>|
                            #[trigger] loop_rel(*self, *condition, body@, fuel - 1, rounds as int, t, q)
                            implies loop_rel(*old(self), *condition, body@, fuel - 1, fuel as int, t, q) by {
                            assert(loop_rel(cur, *condition, body@, fuel - 1, rnd, t, q));
                        }
                    }
                },
                ControlFlow::Normal => {
                    proof {
                        assert forall|t: NyashInterpreter, q: Result<(), RuntimeError>|
                            #[trigger] loop_rel(*self, *condition, body@, fuel - 1, rounds as int, t, q)
                            implies loop_rel(*old(self), *condition, body@, fuel - 1, fuel as int, t, q) by {
                            assert(loop_rel(cur, *condition, body@, fuel - 1, rnd, t, q));
                        }
                    }
                },
                _ => { return Ok(()); },
            }
        }
    }

    /// Runs the body of a function: a `return` ends it and gives its value,
    /// else the value of the last statement is given.
    #[verifier::loop_isolation(false)]
    fn run_body(&mut self, body: &Vec<ASTNode>, fuel: u64) -> (r: Result<NyashBox, RuntimeError>)
        requires
            old(self).wf(),
        ensures
            defs_kept(old(self).shared, final(self).shared),
            final(self).wf(),
            fuel > 1 && simple_stmts(body@, fuel - 1) && old(self).control_flow is Normal ==>
                outcome(r) == simple_body(*old(self), body@) && *final(self) == *old(self),
            fuel > 0 ==> body_rel(*old(self), body@, NyashBox::VoidBox, fuel - 1, *final(self), r),
        decreases fuel,
    {
        if fuel == 0 {
            return Err(step_limit());
        }
        let ghost simple = fuel > 1 && simple_stmts(body@, fuel - 1) && old(self).control_flow is Normal;
        let mut result = NyashBox::VoidBox;
        let mut i: usize = 0;
        proof { assert(body@.skip(0) =~= body@); }
        while i < body.len()
            invariant
                self.wf(),
                defs_kept(old(self).shared, self.shared),
                i <= body@.len(),
                simple ==> *self == *old(self)
                    && simple_run(*old(self), body@, BoxSpec::VoidBox) == simple_run(*old(self), body@.skip(i as int), result@),
                forall|t: NyashInterpreter, q: Result<NyashBox, RuntimeError>|
                    #[trigger] body_rel(*self, body@.skip(i as int), result, fuel - 1, t, q)
                        ==> body_rel(*old(self), body@, NyashBox::VoidBox, fuel - 1, t, q),
            decreases body@.len() - i,
        {
            let ghost cur = *self;
            let ghost prev = result;
            let ghost rest = body@.skip(i as int);
            proof {
                assert(rest[0] == body@[i as int]);
                assert(rest.drop_first() =~= body@.skip(i as int + 1));
            }
            proof {
                if simple {
                    assert(body@.skip(i as int)[0] == body@[i as int]);
                    assert(body@.skip(i as int).drop_first() =~= body@.skip(i as int + 1));
                    assert(simple_stmt(body@[i as int], fuel - 1));
                }
            }
            let r1 = self.execute_statement(&body[i], fuel - 1);
            let ghost g1 = r1;
            let ghost m = *self;
            proof { assert(stmt_post(cur, rest[0], fuel - 1, m, g1)); }
            result = match r1 {
                Ok(v) => v,
                Err(e) => {
                    proof { assert(body_rel(cur, rest, prev, fuel - 1, m, Err::<NyashBox, RuntimeError>(e))); }
                    return Err(e);
                },
            };
            let mut cf = ControlFlow::Normal;
            std::mem::swap(&mut cf, &mut self.control_flow);
            match cf {
                ControlFlow::Return(v) => {
                    proof {
                        assert(*self == with_normal_flow(m));
                        assert(body_rel(cur, rest, prev, fuel - 1, *self, Ok::<NyashBox, RuntimeError>(v)));
                    }
                    return Ok(v);
                },
                other => { self.control_flow = other; },
            }
            proof {
                assert(*self == m);
                assert forall|t: NyashInterpreter, q: Result<NyashBox, RuntimeError>|
                    #[trigger] body_rel(*self, body@.skip(i as int + 1), result, fuel - 1, t, q)
                    implies body_rel(*old(self), body@, NyashBox::VoidBox, fuel - 1, t, q) by {
                    assert(body_rel(cur, rest, prev, fuel - 1, t, q));
                }
            }
            i = i + 1;
        }
        proof {
            assert(body@.skip(i as int).len() == 0);
            assert(body_rel(*self, body@.skip(i as int), result, fuel - 1, *self, Ok::<NyashBox, RuntimeError>(result)));
        }
        Ok(result)
    }

    /// Calls `decl` with the argument values `args`, in a scope of its own:
    /// the local variables are saved and cleared, `me` is bound when given,
    /// and each parameter is bound to its argument; the locals come back
    /// when the body has run.
    #[verifier::loop_isolation(false)]
    pub fn call_function(&mut self, decl: &FunctionDecl, args: &Vec<NyashBox>, me: Option<NyashBox>, fuel: u64)
        -> (r: Result<NyashBox, RuntimeError>)
        requires
            old(self).wf(),
        ensures
            call_fn_post(*old(self), *final(self), *decl, args@, me, fuel as int, r),
        decreases fuel,
    {
        if fuel == 0 {
            return Err(step_limit());
        }
        let ghost me0 = me;
        let saved = self.save_local_vars();
        self.local_vars.clear();
        match me {
            Some(m) => { self.declare_local_variable(&String::from_str("me"), m); },
            None => {},
        }
        proof { assert(self.local_vars@ =~= call_locals(me0, decl.params@, args@, 0)); }
        let mut i: usize = 0;
        while i < decl.params.len() && i < args.len()
            invariant
                self.wf(),
                defs_kept(old(self).shared, self.shared),
                saved.wf(),
                saved@ == old(self).local_vars@,
                i <= decl.params@.len(),
                i <= args@.len(),
                same_but_locals(*old(self), *self),
                self.local_vars@ == call_locals(me0, decl.params@, args@, i as nat),
            decreases decl.params@.len() - i,
        {
            self.declare_local_variable(&decl.params[i], args[i].clone_box());
            i = i + 1;
        }
        let ghost t = *self;
        proof { assert(call_state(*old(self), t, me0, decl.params@, args@)); }
        let rb = self.run_body(&decl.body, fuel - 1);
        let ghost grb = rb;
        let ghost w = *self;
        proof { if fuel > 1 { assert(body_rel(t, decl.body@, NyashBox::VoidBox, fuel - 2, w, grb)); } }
        let result = match rb {
            Ok(v) => v,
            Err(e) => { return Err(e); },
        };
        self.restore_local_vars(saved);
        Ok(result)
    }
}


/// The error of a constructor of a builtin box called with the wrong number
/// of arguments.
pub open spec fn ctor_arity_text(class: Seq<char>, n: nat, got: nat) -> Seq<char> {
    class + " constructor expects "@ + crate::text::decimal(n) + crate::methods::arg_word(n) + crate::text::decimal(got)
}

/// What `new` of a builtin box gives, or `None` when `class` is no builtin
/// box of an enabled group. An array or a map is made at the end of the heap.
pub open spec fn builtin_new_spec(heap: Seq<HeapObject>, basic: bool, collections: bool, class: Seq<char>, a: Seq<BoxSpec>)
    -> Option<Result<BoxSpec, ErrSpec>>
{
    let n = a.len();
    if basic && class == "StringBox"@ {
        Some(if n != 1 {
            Err(ErrSpec::InvalidOperation(ctor_arity_text(class, 1, n)))
        } else {
            Ok(BoxSpec::StringBox(display(heap, a[0], DISPLAY_DEPTH as nat)))
        })
    } else if basic && class == "IntegerBox"@ {
        Some(if n != 1 {
            Err(ErrSpec::InvalidOperation(ctor_arity_text(class, 1, n)))
        } else {
            match a[0] {
                BoxSpec::IntegerBox(i) => Ok(BoxSpec::IntegerBox(i)),
                BoxSpec::StringBox(s) => match crate::text::parse_i64_spec(s) {
                    Some(v) => Ok(BoxSpec::IntegerBox(v)),
                    None => Err(ErrSpec::TypeError("Cannot convert '"@ + s + "' to integer"@)),
                },
                _ => Err(ErrSpec::TypeError("IntegerBox constructor requires integer or string argument"@)),
            }
        })
    } else if basic && class == "BoolBox"@ {
        Some(if n != 1 {
            Err(ErrSpec::InvalidOperation(ctor_arity_text(class, 1, n)))
        } else {
            match a[0] {
                BoxSpec::BoolBox(b) => Ok(BoxSpec::BoolBox(b)),
                BoxSpec::StringBox(s) => if s == "true"@ {
                    Ok(BoxSpec::BoolBox(true))
                } else if s == "false"@ {
                    Ok(BoxSpec::BoolBox(false))
                } else {
                    Err(ErrSpec::TypeError("Cannot convert '"@ + s + "' to boolean"@))
                },
                _ => Err(ErrSpec::TypeError("BoolBox constructor requires boolean or string argument"@)),
            }
        })
    } else if basic && class == "NullBox"@ {
        Some(if n != 0 { Err(ErrSpec::InvalidOperation(ctor_arity_text(class, 0, n))) } else { Ok(BoxSpec::NullBox) })
    } else if collections && class == "ArrayBox"@ {
        Some(if n != 0 {
            Err(ErrSpec::InvalidOperation(ctor_arity_text(class, 0, n)))
        } else {
            Ok(BoxSpec::ArrayBox(heap.len() as usize))
        })
    } else if collections && class == "MapBox"@ {
        Some(if n != 0 {
            Err(ErrSpec::InvalidOperation(ctor_arity_text(class, 0, n)))
        } else {
            Ok(BoxSpec::MapBox(heap.len() as usize))
        })
    } else {
        None
    }
}

fn ctor_arity_error(class: &String, expected: usize, got: usize) -> (e: RuntimeError)
    ensures
        e@ == ErrSpec::InvalidOperation(ctor_arity_text(class@, expected as nat, got as nat)),
{
    let mut m = class.clone();
    m.append(" constructor expects ");
    append_text(&mut m, &crate::methods::decimal_string(expected));
    if expected == 1 {
        m.append(" argument, got ");
    } else {
        m.append(" arguments, got ");
    }
    append_text(&mut m, &crate::methods::decimal_string(got));
    RuntimeError::InvalidOperation { message: m }
}

/// Whether a registered factory makes boxes named `class`.
pub open spec fn factory_spec(s: NyashInterpreter, class: Seq<char>) -> bool {
    exists|i: int, j: int| 0 <= i < s.runtime.factories@.len()
        && 0 <= j < s.runtime.factories@[i].box_types@.len()
        && #[trigger] s.runtime.factories@[i].box_types@[j]@ == class
}

/// What `new class<targs>(...)` with `n` evaluated arguments gives when
/// `class` is no builtin box: the errors of a declared box (its generic
/// arguments, an interface, its inheritance, no constructor for `n`
/// arguments), a new instance at the next handle when no constructor runs,
/// and an undefined class when neither a declaration nor a factory knows it.
/// `None` where a constructor runs and decides.
pub open spec fn declared_new_spec(s: NyashInterpreter, class: Seq<char>, targs: Seq<Seq<char>>, n: nat, fuel: nat)
    -> Option<Result<BoxSpec, ErrSpec>>
{
    let decls = s.shared.box_declarations@;
    if s.shared.static_box_definitions@.contains_key(class) {
        Some(Err(ErrSpec::InvalidOperation("Cannot instantiate static box '"@ + class
            + "'. Static boxes cannot be instantiated."@)))
    } else if decls.contains_key(class) {
        let d = decls[class];
        if (d.type_parameters@.len() > 0 || targs.len() > 0) && generic_error(decls, d, targs) is Some {
            Some(Err(generic_error(decls, d, targs)->0))
        } else if d.is_interface {
            Some(Err(ErrSpec::InvalidOperation("Cannot instantiate interface '"@ + class + "'"@)))
        } else {
            match inherit_spec(decls, d, fuel) {
                Err(e) => Some(Err(e)),
                Ok(_) => if targs.len() == 0 && d.constructors@.contains_key("birth/"@ + crate::text::decimal(n)) {
                    None
                } else if n > 0 {
                    Some(Err(ErrSpec::InvalidOperation("No constructor found for "@ + class + " with "@
                        + crate::text::decimal(n) + " arguments"@)))
                } else {
                    Some(Ok(BoxSpec::InstanceBox(s.shared.heap@.len() as usize)))
                },
            }
        }
    } else if factory_spec(s, class) {
        Some(Ok(BoxSpec::InstanceBox(s.shared.heap@.len() as usize)))
    } else {
        Some(Err(ErrSpec::UndefinedClass(class)))
    }
}

/// The class name of an instance made by `new class<targs>`.
pub open spec fn instance_name(class: Seq<char>, targs: Seq<Seq<char>>) -> Seq<char> {
    if targs.len() > 0 { class + "_"@ + crate::text::join_text(targs, "_"@) } else { class }
}

/// `inst` has exactly the fields `fields`, each holding void, and the
/// methods `methods`.
pub open spec fn fresh_instance(inst: InstanceBox, name: Seq<char>, fields: Seq<Seq<char>>,
    methods: Map<Seq<char>, Rc<FunctionDecl>>) -> bool
{
    &&& inst.class_name@ == name
    &&& inst.methods@ == methods
    &&& forall|k: Seq<char>| #[trigger] inst.fields@.contains_key(k) <==> fields.contains(k)
    &&& forall|k: Seq<char>| #[trigger] inst.fields@.contains_key(k) ==> inst.fields@[k]@ == BoxSpec::VoidBox
}

/// After `new class<targs>` made an instance without running a constructor,
/// `t` is `s` with that instance added at the next handle: for a declared
/// box with the fields and methods it inherits, all fields void; for a box
/// of a factory with no fields and no methods.
pub open spec fn new_instance_post(s: NyashInterpreter, t: NyashInterpreter, class: Seq<char>, targs: Seq<Seq<char>>,
    fuel: nat) -> bool
{
    let h = s.shared.heap@.len() as usize;
    let decls = s.shared.box_declarations@;
    &&& crate::methods::heap_grown(s.shared.heap@, t.shared.heap@)
    &&& instance_at(t.shared.heap@, h) is Some
    &&& if decls.contains_key(class) {
        &&& inherit_spec(decls, decls[class], fuel) is Ok
        &&& fresh_instance(instance_at(t.shared.heap@, h)->0, instance_name(class, targs),
            inherit_spec(decls, decls[class], fuel)->Ok_0.0, inherit_spec(decls, decls[class], fuel)->Ok_0.1)
    } else {
        fresh_instance(instance_at(t.shared.heap@, h)->0, class, Seq::empty(), Map::empty())
    }
}

/// What `new class(...)` does in `s` on the argument values `a`: a builtin
/// box as `builtin_new_spec` says; else a declared box, a static box, an
/// interface or a factory-made box as `declared_new_spec` says, with the
/// new instance as `new_instance_post` says; else the declared constructor
/// runs as `ctor_new_post` says.
pub open spec fn new_values_post(s: NyashInterpreter, t: NyashInterpreter, class: Seq<char>, targs: Seq<Seq<char>>,
    a: Seq<NyashBox>, fuel: nat, r: Result<NyashBox, RuntimeError>) -> bool
{
    let vs = crate::methods::views(a);
    match builtin_new_spec(s.shared.heap@, s.runtime.builtin_groups.basic, s.runtime.builtin_groups.collections, class, vs) {
        Some(o) => outcome(r) == o,
        None => match declared_new_spec(s, class, targs, vs.len(), fuel) {
            Some(o) => outcome(r) == o && (o is Ok ==> new_instance_post(s, t, class, targs, fuel)),
            None => ctor_new_post(s, t, class, vs, fuel, r),
        },
    }
}

/// What `new class(...)` does, on arguments that evaluated to `vs`, when
/// the class declares a constructor `birth` for that many arguments (the
/// case where `declared_new_spec` gives `None`): a new instance is made as
/// `new_instance_post` says and the constructor runs on it. A constructor
/// with another number of parameters is an error; a success gives the new
/// instance; a constructor whose body only reads the state runs that body
/// with its parameters and `me` bound, and fails exactly when a statement
/// of it fails, with the first error.
pub open spec fn ctor_new_post(s: NyashInterpreter, t: NyashInterpreter, class: Seq<char>, vs: Seq<BoxSpec>, fuel: nat,
    r: Result<NyashBox, RuntimeError>) -> bool
{
    let c = s.shared.box_declarations@[class].constructors@["birth/"@ + crate::text::decimal(vs.len())];
    let h = s.shared.heap@.len() as usize;
    &&& fuel > 1 && c.params@.len() != vs.len() ==> (r matches Err(x) && x@ == ErrSpec::InvalidOperation("Constructor expects "@
        + crate::text::decimal(c.params@.len()) + " arguments, got "@ + crate::text::decimal(vs.len())))
    &&& r is Ok ==> (r matches Ok(v) && v@ == BoxSpec::InstanceBox(h))
    &&& c.params@.len() == vs.len() && fuel > 2 && all_pure(c.body@, fuel - 2) ==>
        exists|m: NyashInterpreter, u: NyashInterpreter, a: Seq<NyashBox>|
            #![trigger new_instance_post(s, m, class, Seq::empty(), fuel), same_but_locals(m, u), crate::methods::views(a)]
            new_instance_post(s, m, class, Seq::empty(), fuel) && crate::methods::views(a) == vs
            && same_but_locals(m, u) && same_but_locals(m, t)
            && u.local_vars@ == call_locals(None, c.params@, a, a.len()).insert("me"@, NyashBox::InstanceBox(h))
            && match pure_eval_args(u, c.body@) {
                Err(e) => r matches Err(x) && x@ == e,
                Ok(_) => r is Ok,
            }
}

impl NyashInterpreter {
    /// `new` of a builtin box of an enabled group, on evaluated arguments;
    /// `None` when `class` is none of them.
    #[verifier::rlimit(40)]
    pub fn create_builtin_box(&mut self, class: &String, args: &Vec<NyashBox>) -> (r: Option<Result<NyashBox, RuntimeError>>)
        requires
            old(self).wf(),
        ensures
            defs_kept(old(self).shared, final(self).shared),
            final(self).wf(),
            final(self).local_vars == old(self).local_vars,
            final(self).control_flow == old(self).control_flow,
            final(self).runtime == old(self).runtime,
            ({
                let s = builtin_new_spec(old(self).shared.heap@, old(self).runtime.builtin_groups.basic,
                    old(self).runtime.builtin_groups.collections, class@, views(args@));
                match r {
                    None => s is None && final(self).shared == old(self).shared,
                    Some(x) => s == Some(crate::ops::outcome(x)),
                }
            }),
            final(self).shared.heap@.len() >= old(self).shared.heap@.len(),
            final(self).shared.heap@.take(old(self).shared.heap@.len() as int) == old(self).shared.heap@,
    {
        let n = args.len();
        assert(views(args@).len() == n);
        if n > 0 {
            assert(views(args@)[0] == args@[0]@);
        }
        let ghost old_heap = self.shared.heap@;
        proof { assert(old_heap.take(old_heap.len() as int) =~= old_heap); }
        let basic = self.runtime.builtin_groups.basic;
        let collections = self.runtime.builtin_groups.collections;
        if basic && is_named(class, "StringBox") {
            if n != 1 {
                return Some(Err(ctor_arity_error(class, 1, n)));
            }
            return Some(Ok(NyashBox::StringBox(display_box(&self.shared.heap, &args[0], DISPLAY_DEPTH))));
        }
        if basic && is_named(class, "IntegerBox") {
            if n != 1 {
                return Some(Err(ctor_arity_error(class, 1, n)));
            }
            return Some(match &args[0] {
                NyashBox::IntegerBox(i) => Ok(NyashBox::IntegerBox(*i)),
                NyashBox::StringBox(s) => match crate::text::parse_i64(&chars_of(s.as_str())) {
                    Some(v) => Ok(NyashBox::IntegerBox(v)),
                    None => Err(RuntimeError::TypeError {
                        message: {
                            let mut m = String::from_str("Cannot convert '");
                            append_text(&mut m, s);
                            m.append("' to integer");
                            m
                        },
                    }),
                },
                _ => Err(type_err("IntegerBox constructor requires integer or string argument")),
            });
        }
        if basic && is_named(class, "BoolBox") {
            if n != 1 {
                return Some(Err(ctor_arity_error(class, 1, n)));
            }
            return Some(match &args[0] {
                NyashBox::BoolBox(b) => Ok(NyashBox::BoolBox(*b)),
                NyashBox::StringBox(s) => if is_named(s, "true") {
                    Ok(NyashBox::BoolBox(true))
                } else if is_named(s, "false") {
                    Ok(NyashBox::BoolBox(false))
                } else {
                    let mut m = String::from_str("Cannot convert '");
                    append_text(&mut m, s);
                    m.append("' to boolean");
                    Err(RuntimeError::TypeError { message: m })
                },
                _ => Err(type_err("BoolBox constructor requires boolean or string argument")),
            });
        }
        if basic && is_named(class, "NullBox") {
            if n != 0 {
                return Some(Err(ctor_arity_error(class, 0, n)));
            }
            return Some(Ok(NyashBox::NullBox));
        }
        if collections && is_named(class, "ArrayBox") {
            if n != 0 {
                return Some(Err(ctor_arity_error(class, 0, n)));
            }
            let h = self.allocate(HeapObject::Array(Vec::new()));
            proof { assert(self.shared.heap@.take(old_heap.len() as int) =~= old_heap); }
            return Some(Ok(NyashBox::ArrayBox(h)));
        }
        if collections && is_named(class, "MapBox") {
            if n != 0 {
                return Some(Err(ctor_arity_error(class, 0, n)));
            }
            let h = self.allocate(HeapObject::Dict(AssocMap::new()));
            proof { assert(self.shared.heap@.take(old_heap.len() as int) =~= old_heap); }
            return Some(Ok(NyashBox::MapBox(h)));
        }
        None
    }

    /// Whether a registered factory makes boxes called `class`.
    pub fn factory_makes(&self, class: &String) -> (b: bool)
        ensures
            b == exists|i: int, j: int| 0 <= i < self.runtime.factories@.len()
                && 0 <= j < self.runtime.factories@[i].box_types@.len()
                && #[trigger] self.runtime.factories@[i].box_types@[j]@ == class@,
    {
        let mut i: usize = 0;
        while i < self.runtime.factories.len()
            invariant
                i <= self.runtime.factories@.len(),
                forall|k: int, j: int| 0 <= k < i && 0 <= j < self.runtime.factories@[k].box_types@.len()
                    ==> #[trigger] self.runtime.factories@[k].box_types@[j]@ != class@,
            decreases self.runtime.factories@.len() - i,
        {
            let types = &self.runtime.factories[i].box_types;
            let mut j: usize = 0;
            while j < types.len()
                invariant
                    i < self.runtime.factories@.len(),
                    j <= types@.len(),
                    types == self.runtime.factories@[i as int].box_types,
                    forall|k: int| 0 <= k < j ==> #[trigger] types@[k]@ != class@,
                decreases types@.len() - j,
            {
                if types[j] == *class {
                    assert(self.runtime.factories@[i as int].box_types@[j as int]@ == class@);
                    return true;
                }
                j = j + 1;
            }
            i = i + 1;
        }
        false
    }
}


/// The text of a call with the wrong number of arguments.
pub open spec fn count_text(a: Seq<char>, b: Seq<char>, c: Seq<char>, expected: nat, got: nat) -> Seq<char> {
    a + b + c + crate::text::decimal(expected) + " arguments, got "@ + crate::text::decimal(got)
}

fn count_message(a: &str, b: &String, c: &str, expected: usize, got: usize) -> (e: RuntimeError)
    ensures
        e@ == ErrSpec::InvalidOperation(count_text(a@, b@, c@, expected as nat, got as nat)),
{
    let mut m = String::from_str(a);
    append_text(&mut m, b);
    m.append(c);
    append_text(&mut m, &crate::methods::decimal_string(expected));
    m.append(" arguments, got ");
    append_text(&mut m, &crate::methods::decimal_string(got));
    RuntimeError::InvalidOperation { message: m }
}

impl NyashInterpreter {
    /// Calls a top-level function: a method of the global box.
    pub fn execute_function_call(&mut self, name: &String, arguments: &Vec<ASTNode>, fuel: u64)
        -> (r: Result<NyashBox, RuntimeError>)
        requires
            old(self).wf(),
        ensures
            defs_kept(old(self).shared, final(self).shared),
            final(self).wf(),
            fuel > 0 && !old(self).shared.global_box.methods@.contains_key(name@) ==>
                (r matches Err(e) && e@ == ErrSpec::UndefinedFunction(name@) && *final(self) == *old(self)),
            fuel > 1 && old(self).shared.global_box.methods@.contains_key(name@) && all_pure(arguments@, fuel - 1) ==>
                match pure_eval_args(*old(self), arguments@) {
                    Err(e) => r matches Err(x) && x@ == e && *final(self) == *old(self),
                    Ok(vs) => vs.len() != old(self).shared.global_box.methods@[name@].params@.len() ==> (r matches Err(x)
                        && x@ == ErrSpec::InvalidOperation(count_text("Function "@, name@, " expects "@,
                            old(self).shared.global_box.methods@[name@].params@.len(), vs.len()))
                        && *final(self) == *old(self)),
                },
            fuel > 3 && old(self).shared.global_box.methods@.contains_key(name@) && all_pure(arguments@, fuel - 1)
                && pure_eval_args(*old(self), arguments@) is Ok && old(self).control_flow is Normal
                && pure_eval_args(*old(self), arguments@)->Ok_0.len() == old(self).shared.global_box.methods@[name@].params@.len()
                && simple_stmts(old(self).shared.global_box.methods@[name@].body@, fuel - 3) ==> {
                let decl = old(self).shared.global_box.methods@[name@];
                &&& exists|t: NyashInterpreter, a: Seq<NyashBox>| #[trigger] call_state(*old(self), t, None, decl.params@, a)
                    && views(a) == pure_eval_args(*old(self), arguments@)->Ok_0 && outcome(r) == simple_body(t, decl.body@)
                &&& r is Ok ==> same_but_locals(*old(self), *final(self))
            },
            fuel > 1 && old(self).shared.global_box.methods@.contains_key(name@) ==> {
                let decl = old(self).shared.global_box.methods@[name@];
                exists|u: NyashInterpreter, ra: Result<Seq<NyashBox>, RuntimeError>|
                    #[trigger] args_rel(*old(self), arguments@, fuel - 2, u, ra) && match ra {
                        Err(e) => r == Err::<NyashBox, RuntimeError>(e) && *final(self) == u,
                        Ok(a) => if a.len() != decl.params@.len() {
                            r matches Err(x) && *final(self) == u && x@ == ErrSpec::InvalidOperation(
                                count_text("Function "@, name@, " expects "@, decl.params@.len(), a.len()))
                        } else {
                            call_fn_post(u, *final(self), *decl, a, None, fuel - 1, r)
                        },
                    }
            },
        decreases fuel,
    {
        if fuel == 0 {
            return Err(step_limit());
        }
        let decl = match self.shared.global_box.methods.get(name) {
            Some(d) => share_rc(d),
            None => { return Err(RuntimeError::UndefinedFunction { name: name.clone() }); },
        };
        let ghost s0 = *self;
        let ra = self.eval_args(arguments, fuel - 1);
        let ghost u = *self;
        let ghost gra = values_of(ra);
        proof { if fuel > 1 { assert(args_rel(s0, arguments@, fuel - 2, u, gra)); } }
        let args = match ra {
            Ok(a) => a,
            Err(e) => { return Err(e); },
        };
        if args.len() != decl.params.len() {
            return Err(count_message("Function ", name, " expects ", decl.params.len(), args.len()));
        }
        self.call_function(&decl, &args, None, fuel - 1)
    }

    /// The singleton of the static box `name` in the statics namespace:
    /// `Ok(None)` when the namespace has no member of that name.
    fn statics_member(&self, name: &String) -> (r: Result<Option<NyashBox>, RuntimeError>)
        requires
            self.wf(),
        ensures
            match crate::interp::statics_field(self.shared) {
                None => r matches Err(e) && e@ == ErrSpec::RuntimeFailure("statics namespace not found in GlobalBox"@),
                Some(ns) => match ns {
                    NyashBox::InstanceBox(h) => match instance_at(self.shared.heap@, h) {
                        Some(inst) => r matches Ok(o) && if inst.fields@.contains_key(name@) {
                            o == Some(inst.fields@[name@])
                        } else {
                            o is None
                        },
                        None => r matches Err(e) && e@ == ErrSpec::TypeError("statics field is not an InstanceBox"@),
                    },
                    _ => r matches Err(e) && e@ == ErrSpec::TypeError("statics field is not an InstanceBox"@),
                },
            },
    {
        let ns = match self.shared.global_box.fields.get(&String::from_str("statics")) {
            Some(v) => v.clone_box(),
            None => {
                return Err(RuntimeError::RuntimeFailure {
                    message: String::from_str("statics namespace not found in GlobalBox"),
                });
            },
        };
        match ns {
            NyashBox::InstanceBox(h) => match self.instance_field(h, name) {
                Some(v) => Ok(v),
                None => Err(type_err("statics field is not an InstanceBox")),
            },
            _ => Err(type_err("statics field is not an InstanceBox")),
        }
    }

    /// Makes sure the static box `name` is initialized: on first use its
    /// singleton is made and registered in the statics namespace, and its
    /// static initializer runs with `me` bound to it. A box whose
    /// initialization is under way is a circular dependency.
    #[verifier::loop_isolation(false)]
    pub fn initialize_static_box(&mut self, name: &String, fuel: u64) -> (r: Result<(), RuntimeError>)
        requires
            old(self).wf(),
        ensures
            defs_kept(old(self).shared, final(self).shared),
            final(self).wf(),
            fuel > 0 ==> static_init_post(*old(self), *final(self), name@, r),
            first_init_post(*old(self), *final(self), name@, fuel as int, r),
            init_any_post(*old(self), *final(self), name@, fuel as int, r),
        decreases fuel,
    {
        if fuel == 0 {
            return Err(step_limit());
        }
        let ghost defs0 = old(self).shared.static_box_definitions@;
        let (state, init_fields, methods, init) = match self.shared.static_box_definitions.get(name) {
            None => { return Err(RuntimeError::UndefinedClass { name: name.clone() }); },
            Some(d) => {
                proof { assert(self.shared.static_box_definitions@.contains_key(name@)); }
                let st = match d.initialization_state {
                    crate::state::StaticBoxState::NotInitialized => crate::state::StaticBoxState::NotInitialized,
                    crate::state::StaticBoxState::Initializing => crate::state::StaticBoxState::Initializing,
                    crate::state::StaticBoxState::Initialized => crate::state::StaticBoxState::Initialized,
                };
                let init = match &d.static_init {
                    Some(s) => Some(share_rc(s)),
                    None => None,
                };
                (st, d.init_fields.clone(), d.methods.share_all(), init)
            },
        };
        match state {
            crate::state::StaticBoxState::Initialized => { return Ok(()); },
            crate::state::StaticBoxState::Initializing => {
                return Err(RuntimeError::RuntimeFailure {
                    message: {
                        let mut m = String::from_str("Circular dependency detected during initialization of static box '");
                        append_text(&mut m, name);
                        m.append("'");
                        m
                    },
                });
            },
            crate::state::StaticBoxState::NotInitialized => {},
        }
        let ghost d0 = defs0[name@];
        let ghost go2 = statics_ok(*old(self)) && fuel > 1;
        let ghost go = statics_ok(*old(self)) && fuel > 1
            && (d0.static_init is None || all_pure(d0.static_init->0@, fuel - 1));
        self.set_static_box_state(name, crate::state::StaticBoxState::Initializing)?;
        proof {
            assert(crate::interp::statics_field(self.shared) == crate::interp::statics_field(old(self).shared));
            assert(self.shared.heap@ == old(self).shared.heap@);
        }
        let ghost s1 = self.shared;
        let heap_len = self.shared.heap.len();
        self.ensure_statics_namespace()?;
        proof {
            if go2 {
                match crate::interp::statics_field(s1) {
                    Some(NyashBox::InstanceBox(h)) => {
                        assert(instance_at(s1.heap@, h) is Some);
                        assert(self.shared == s1);
                    },
                    None => {
                        assert(self.shared.heap@[s1.heap@.len() as int] is Instance);
                    },
                    Some(_) => {},
                }
            }
        }
        let ghost ns_h: usize = match crate::interp::statics_field(self.shared) {
            Some(NyashBox::InstanceBox(h)) => h,
            _ => 0,
        };
        proof {
            if go2 {
                assert(crate::interp::statics_field(self.shared) == Some(NyashBox::InstanceBox(ns_h)));
                match crate::interp::statics_field(s1) {
                    Some(NyashBox::InstanceBox(h)) => {
                        assert(h == ns_h);
                        assert(instance_at(self.shared.heap@, ns_h) is Some);
                    },
                    _ => {
                        assert(heap_len == s1.heap@.len());
                        assert(ns_h == heap_len);
                        assert(instance_at(self.shared.heap@, ns_h) is Some);
                    },
                }
                assert(ns_h < self.shared.heap@.len() && self.shared.heap@[ns_h as int] is Instance);
            }
        }
        let mut class = name.clone();
        class.append("_singleton");
        let singleton = InstanceBox::new(class, &init_fields, methods);
        proof {
            assert forall|k: Seq<char>| #[trigger] singleton.fields@.contains_key(k) <==> names(d0.init_fields@).contains(k) by {
                if names(d0.init_fields@).contains(k) {
                    let w = choose|w: int| 0 <= w < names(d0.init_fields@).len() && #[trigger] names(d0.init_fields@)[w] == k;
                    assert(init_fields@[w] == d0.init_fields@[w]);
                }
                if singleton.fields@.contains_key(k) {
                    let w = choose|w: int| 0 <= w < init_fields@.len() && #[trigger] init_fields@[w]@ == k;
                    assert(init_fields@[w] == d0.init_fields@[w]);
                    assert(names(d0.init_fields@)[w] == k);
                }
            }
        }
        let ghost heap1 = self.shared.heap@;
        let heap1_len = self.shared.heap.len();
        let ghost single = singleton;
        self.set_static_instance(name, singleton)?;
        proof {
            if go2 {
                let n = heap1_len;
                assert(self.shared.heap@.subrange(0, n as int)[ns_h as int] == self.shared.heap@[ns_h as int]);
                assert(crate::interp::statics_field(self.shared) == Some(NyashBox::InstanceBox(ns_h)));
                assert(instance_at(self.shared.heap@, ns_h) is Some);
                assert(instance_at(self.shared.heap@, ns_h)->0.fields@.contains_key(name@));
                assert(singleton_of(*self, name@) == Some(n as usize));
                assert(instance_at(self.shared.heap@, n as usize) == Some(single));
                assert(singleton_made(*self, name@, d0));
                assert(n >= old(self).shared.heap@.len());
            }
        }
        match init {
            Some(statements) => {
                let me = match self.statics_member(name)? {
                    Some(v) => v,
                    None => NyashBox::VoidBox,
                };
                let me_name = String::from_str("me");
                self.declare_local_variable(&me_name, me);
                let ghost m = *self;
                proof {
                    if go2 {
                        assert(init_scope(*old(self), m, name@, d0));
                    }
                }
                let mut i: usize = 0;
                proof {
                    assert(statements@.take(0) =~= Seq::<ASTNode>::empty());
                    assert(statements@.skip(0) =~= statements@);
                }
                while i < statements.len()
                    invariant
                        self.wf(),
                        defs_kept(old(self).shared, self.shared),
                        i <= statements@.len(),
                        go ==> *self == m && pure_eval_args(m, statements@.take(i as int)) is Ok,
                        go2 ==> forall|t: NyashInterpreter, q: Result<(), RuntimeError>|
                            #[trigger] init_run(*self, statements@.skip(i as int), fuel - 1, t, q)
                                ==> init_run(m, statements@, fuel - 1, t, q),
                    decreases statements@.len() - i,
                {
                    let ghost cur = *self;
                    let ghost rest = statements@.skip(i as int);
                    proof {
                        assert(rest[0] == statements@[i as int]);
                        assert(rest.drop_first() =~= statements@.skip(i as int + 1));
                    }
                    proof {
                        if go {
                            assert(statements@.take(i as int + 1).drop_last() =~= statements@.take(i as int));
                            assert(statements@.take(i as int + 1).last() == statements@[i as int]);
                            assert(pure_expr(statements@[i as int]) && expr_depth(statements@[i as int]) < fuel - 1);
                        }
                    }
                    let rs = self.execute_statement(&statements[i], fuel - 1);
                    let ghost gs = rs;
                    proof { assert(stmt_post(cur, rest[0], fuel - 1, *self, gs)); }
                    match rs {
                        Ok(_) => {},
                        Err(e) => {
                            proof {
                                if go { lemma_pure_eval_args_err(m, statements@, i as int + 1); }
                                if go2 {
                                    assert(init_run(cur, rest, fuel - 1, *self, Err::<(), RuntimeError>(e)));
                                }
                            }
                            return Err(e);
                        },
                    }
                    proof {
                        if go2 {
                            assert forall|t: NyashInterpreter, q: Result<(), RuntimeError>|
                                #[trigger] init_run(*self, statements@.skip(i as int + 1), fuel - 1, t, q)
                                implies init_run(m, statements@, fuel - 1, t, q) by {
                                assert(init_run(cur, rest, fuel - 1, t, q));
                            }
                        }
                    }
                    i = i + 1;
                }
                proof {
                    if go { assert(statements@.take(i as int) =~= statements@); }
                    if go2 {
                        assert(statements@.skip(i as int).len() == 0);
                        assert(init_run(*self, statements@.skip(i as int), fuel - 1, *self, Ok::<(), RuntimeError>(())));
                        assert(init_run(m, statements@, fuel - 1, *self, Ok::<(), RuntimeError>(())));
                    }
                }
                self.local_vars.remove(&me_name);
            },
            None => {},
        }
        self.set_static_box_state(name, crate::state::StaticBoxState::Initialized)?;
        proof {
            if go {
                assert(self.shared.static_box_definitions@ =~= defs0.insert(name@,
                    crate::interp::with_state(d0, crate::state::StaticBoxState::Initialized)));
            }
        }
        Ok(())
    }

    /// `object.field`: a field of a static box, or of an instance.
    pub fn execute_field_access(&mut self, object: &ASTNode, field: &String, fuel: u64)
        -> (r: Result<NyashBox, RuntimeError>)
        requires
            old(self).wf(),
        ensures
            defs_kept(old(self).shared, final(self).shared),
            final(self).wf(),
            fuel > 1 && pure_expr(*object) && expr_depth(*object) < fuel
                && !(*object matches ASTNode::Variable { name, .. } && old(self).shared.static_box_definitions@.contains_key(name@))
                ==> *final(self) == *old(self) && match pure_eval(*old(self), *object) {
                Err(e) => r matches Err(x) && x@ == e,
                Ok(recv) => outcome(r) == field_read_spec(*old(self), recv, field@),
            },
        decreases fuel,
    {
        if fuel == 0 {
            return Err(step_limit());
        }
        match object {
            ASTNode::Variable { name, .. } => {
                if self.is_static_box(name) {
                    self.initialize_static_box(name, fuel - 1)?;
                    let member = match self.statics_member(name)? {
                        Some(v) => v,
                        None => {
                            return Err(RuntimeError::RuntimeFailure {
                                message: {
                                    let mut m = String::from_str("Static box '");
                                    append_text(&mut m, name);
                                    m.append("' instance not found in statics namespace");
                                    m
                                },
                            });
                        },
                    };
                    return match member {
                        NyashBox::InstanceBox(h) => match self.instance_field(h, field) {
                            Some(Some(v)) => Ok(v),
                            _ => {
                                let mut m = String::from_str("Field '");
                                append_text(&mut m, field);
                                m.append("' not found in static box '");
                                append_text(&mut m, name);
                                m.append("'");
                                Err(RuntimeError::InvalidOperation { message: m })
                            },
                        },
                        _ => Err(invalid("Static box '", name, "' is not an InstanceBox")),
                    };
                }
            },
            _ => {},
        }
        let o = self.execute_expression(object, fuel - 1)?;
        match o {
            NyashBox::InstanceBox(h) => {
                let class = match self.instance_class(h) {
                    Some(c) => c,
                    None => { return Err(type_err("Cannot access field of a dangling instance")); },
                };
                let v = match self.instance_field(h, field) {
                    Some(Some(v)) => v,
                    _ => {
                        let mut m = String::from_str("Field '");
                        append_text(&mut m, field);
                        m.append("' not found in ");
                        append_text(&mut m, &class);
                        return Err(RuntimeError::InvalidOperation { message: m });
                    },
                };
                if self.is_weak_field(&class, field) {
                    match v {
                        NyashBox::InstanceBox(t) => {
                            if contains_id(&self.invalidated_ids, t as u64) {
                                return Ok(NyashBox::NullBox);
                            }
                        },
                        _ => {},
                    }
                }
                Ok(v)
            },
            _ => {
                let mut m = String::from_str("Cannot access field '");
                append_text(&mut m, field);
                m.append("' on non-instance type. Type: ");
                append_text(&mut m, &o.box_type_name());
                Err(RuntimeError::TypeError { message: m })
            },
        }
    }

    /// Whether the declaration of `class` marks `field` weak.
    pub fn is_weak_field(&self, class: &String, field: &String) -> (b: bool)
        requires
            self.wf(),
        ensures
            b == (self.shared.box_declarations@.contains_key(class@)
                && exists|i: int| 0 <= i < self.shared.box_declarations@[class@].weak_fields@.len()
                    && #[trigger] self.shared.box_declarations@[class@].weak_fields@[i]@ == field@),
    {
        match self.shared.box_declarations.get(class) {
            Some(d) => {
                let mut i: usize = 0;
                while i < d.weak_fields.len()
                    invariant
                        self.shared.box_declarations@.contains_key(class@),
                        *d == self.shared.box_declarations@[class@],
                        i <= d.weak_fields@.len(),
                        forall|k: int| 0 <= k < i ==> #[trigger] d.weak_fields@[k]@ != field@,
                    decreases d.weak_fields@.len() - i,
                {
                    if d.weak_fields[i] == *field {
                        assert(self.shared.box_declarations@[class@].weak_fields@[i as int]@ == field@);
                        return true;
                    }
                    i = i + 1;
                }
                false
            },
            None => false,
        }
    }

    /// `new class(arguments)`: evaluates the arguments left to right, then
    /// makes the box from their values as `new_from_values` does.
    pub fn execute_new(&mut self, class: &String, arguments: &Vec<ASTNode>, type_arguments: &Vec<String>, fuel: u64)
        -> (r: Result<NyashBox, RuntimeError>)
        requires
            old(self).wf(),
        ensures
            defs_kept(old(self).shared, final(self).shared),
            final(self).wf(),
            fuel > 1 && all_pure(arguments@, fuel - 1) ==> match pure_eval_args(*old(self), arguments@) {
                Err(e) => r matches Err(x) && x@ == e && *final(self) == *old(self),
                Ok(vs) => match builtin_new_spec(old(self).shared.heap@, old(self).runtime.builtin_groups.basic,
                    old(self).runtime.builtin_groups.collections, class@, vs) {
                    Some(o) => outcome(r) == o,
                    None => match declared_new_spec(*old(self), class@, names(type_arguments@), vs.len(), (fuel - 1) as nat) {
                        Some(o) => outcome(r) == o && (o is Ok
                            ==> new_instance_post(*old(self), *final(self), class@, names(type_arguments@), (fuel - 1) as nat)),
                        None => ctor_new_post(*old(self), *final(self), class@, vs, (fuel - 1) as nat, r),
                    },
                },
            },
            fuel > 1 ==> exists|m: NyashInterpreter, ra: Result<Seq<NyashBox>, RuntimeError>|
                #[trigger] args_rel(*old(self), arguments@, fuel - 2, m, ra)
                && match ra {
                    Err(e) => r == Err::<NyashBox, RuntimeError>(e) && *final(self) == m,
                    Ok(a) => new_values_post(m, *final(self), class@, names(type_arguments@), a, (fuel - 1) as nat, r),
                },
        decreases fuel,
    {
        if fuel == 0 {
            return Err(step_limit());
        }
        let ghost s0 = *self;
        let ra = self.eval_args(arguments, fuel - 1);
        let ghost m = *self;
        let ghost gra = values_of(ra);
        proof { if fuel > 1 { assert(args_rel(s0, arguments@, fuel - 2, m, gra)); } }
        let args = match ra {
            Ok(a) => a,
            Err(e) => { return Err(e); },
        };
        self.new_from_values(class, &args, type_arguments, fuel - 1)
    }

    /// `new class(...)` on arguments that evaluated to `args`: a builtin box,
    /// an instance of a declared box (whose constructor `birth` runs when it
    /// takes that many arguments), or an instance made by a registered
    /// factory, as `new_values_post` says.
    pub fn new_from_values(&mut self, class: &String, args: &Vec<NyashBox>, type_arguments: &Vec<String>, fuel: u64)
        -> (r: Result<NyashBox, RuntimeError>)
        requires
            old(self).wf(),
        ensures
            defs_kept(old(self).shared, final(self).shared),
            final(self).wf(),
            fuel > 0 ==> new_values_post(*old(self), *final(self), class@, names(type_arguments@), args@, fuel as nat, r),
        decreases fuel,
    {
        if fuel == 0 {
            return Err(step_limit());
        }
        match self.create_builtin_box(class, args) {
            Some(r) => { return r; },
            None => {},
        }
        if self.is_static_box(class) {
            return Err(invalid("Cannot instantiate static box '", class, "'. Static boxes cannot be instantiated."));
        }
        let decl = match self.shared.box_declarations.get(class) {
            Some(d) => {
                proof { assert(self.shared.box_declarations@.contains_key(class@)); }
                if d.type_parameters.len() > 0 || type_arguments.len() > 0 {
                    self.validate_generic_arguments(d, type_arguments)?;
                }
                if d.is_interface {
                    return Err(invalid("Cannot instantiate interface '", class, "'"));
                }
                let mut key = String::from_str("birth/");
                append_text(&mut key, &crate::methods::decimal_string(args.len()));
                // A specialized generic box files its constructors under its
                // specialized name, so `birth` is not found for it.
                let ctor = if type_arguments.len() > 0 {
                    None
                } else {
                    match d.constructors.get(&key) {
                        Some(c) => Some(share_rc(c)),
                        None => None,
                    }
                };
                let instance_class = if type_arguments.len() > 0 {
                    let mut n = class.clone();
                    n.append("_");
                    append_text(&mut n, &join_strings(type_arguments, "_"));
                    proof { assert(type_arguments@.map_values(|s: String| s@) =~= names(type_arguments@)); }
                    n
                } else {
                    class.clone()
                };
                proof { assert(instance_class@ == instance_name(class@, names(type_arguments@))); }
                let (fields, methods) = self.resolve_inheritance(d, fuel)?;
                Some((fields, methods, ctor, instance_class))
            },
            None => None,
        };
        match decl {
            Some((fields, methods, ctor, instance_class)) => {
                let ghost class_name = instance_class@;
                let inst = InstanceBox::new(instance_class, &fields, methods);
                proof {
                    assert forall|k: Seq<char>| #[trigger] inst.fields@.contains_key(k) <==> names(fields@).contains(k) by {
                        if names(fields@).contains(k) {
                            let w = choose|w: int| 0 <= w < names(fields@).len() && #[trigger] names(fields@)[w] == k;
                            assert(fields@[w]@ == k);
                        }
                        if inst.fields@.contains_key(k) {
                            let w = choose|w: int| 0 <= w < fields@.len() && #[trigger] fields@[w]@ == k;
                            assert(names(fields@)[w] == k);
                        }
                    }
                }
                let h = self.allocate(HeapObject::Instance(inst));
                match ctor {
                    Some(c) => {
                        let ghost m = *self;
                        proof {
                            if true {
                                assert(h == old(self).shared.heap@.len());
                                assert(self.shared.heap@.take(h as int) =~= old(self).shared.heap@);
                                assert(instance_at(self.shared.heap@, h) is Some);
                                assert(old(self).shared.box_declarations@.contains_key(class@));
                                assert(new_instance_post(*old(self), m, class@, Seq::empty(), fuel as nat));
                            }
                        }
                        let rc = self.execute_constructor(h, &c, args, fuel - 1);
                        proof {
                            if c.params@.len() == args@.len() && fuel - 1 > 1 && all_pure(c.body@, fuel - 2) {
                                let u = choose|u: NyashInterpreter| #[trigger] same_but_locals(m, u)
                                    && u.local_vars@ == call_locals(None, c.params@, args@, args@.len()).insert("me"@, NyashBox::InstanceBox(h))
                                    && match pure_eval_args(u, c.body@) {
                                        Err(e) => rc matches Err(x) && x@ == e,
                                        Ok(_) => rc is Ok,
                                    };
                                assert(crate::methods::views(args@) == crate::methods::views(args@));
                            }
                        }
                        rc?;
                        Ok(NyashBox::InstanceBox(h))
                    },
                    None => {
                        if args.len() > 0 {
                            let mut m = String::from_str("No constructor found for ");
                            append_text(&mut m, class);
                            m.append(" with ");
                            append_text(&mut m, &crate::methods::decimal_string(args.len()));
                            m.append(" arguments");
                            Err(RuntimeError::InvalidOperation { message: m })
                        } else {
                            proof {
                                if true {
                                    assert(h == old(self).shared.heap@.len());
                                    assert(self.shared.heap@.take(h as int) =~= old(self).shared.heap@);
                                    assert(instance_at(self.shared.heap@, h) is Some);
                                    assert(old(self).shared.box_declarations@.contains_key(class@));
                                }
                            }
                            Ok(NyashBox::InstanceBox(h))
                        }
                    },
                }
            },
            None => {
                if self.factory_makes(class) {
                    let no_fields: Vec<String> = Vec::new();
                    let inst = InstanceBox::new(class.clone(), &no_fields, AssocMap::new());
                    let h = self.allocate(HeapObject::Instance(inst));
                    proof {
                        if true {
                            assert(h == old(self).shared.heap@.len());
                            assert(self.shared.heap@.take(h as int) =~= old(self).shared.heap@);
                            assert(instance_at(self.shared.heap@, h) is Some);
                            assert(!old(self).shared.box_declarations@.contains_key(class@));
                            assert(instance_at(self.shared.heap@, h)->0.methods@ == Map::<Seq<char>, Rc<FunctionDecl>>::empty());
                        }
                    }
                    Ok(NyashBox::InstanceBox(h))
                } else {
                    Err(RuntimeError::UndefinedClass { name: class.clone() })
                }
            },
        }
    }

    /// Runs the constructor `ctor` on the new instance at `h`: its parameters
    /// and `me` are bound in a scope of their own, which ends, error or not,
    /// when the body has run.
    #[verifier::loop_isolation(false)]
    fn execute_constructor(&mut self, h: usize, ctor: &FunctionDecl, args: &Vec<NyashBox>, fuel: u64)
        -> (r: Result<(), RuntimeError>)
        requires
            old(self).wf(),
        ensures
            final(self).local_vars@ == old(self).local_vars@,
            defs_kept(old(self).shared, final(self).shared),
            final(self).wf(),
            fuel > 0 && ctor.params@.len() != args@.len() ==> (r matches Err(x) && *final(self) == *old(self)
                && x@ == ErrSpec::InvalidOperation("Constructor expects "@ + crate::text::decimal(ctor.params@.len())
                    + " arguments, got "@ + crate::text::decimal(args@.len()))),
            fuel > 1 && ctor.params@.len() == args@.len() && all_pure(ctor.body@, fuel - 1) ==> {
                &&& exists|t: NyashInterpreter| #[trigger] same_but_locals(*old(self), t)
                    && t.local_vars@ == call_locals(None, ctor.params@, args@, args@.len()).insert("me"@, NyashBox::InstanceBox(h))
                    && match pure_eval_args(t, ctor.body@) {
                        Err(e) => r matches Err(x) && x@ == e,
                        Ok(_) => r is Ok,
                    }
                &&& same_but_locals(*old(self), *final(self))
            },
        decreases fuel,
    {
        if fuel == 0 {
            return Err(step_limit());
        }
        if ctor.params.len() != args.len() {
            let mut m = String::from_str("Constructor expects ");
            append_text(&mut m, &crate::methods::decimal_string(ctor.params.len()));
            m.append(" arguments, got ");
            append_text(&mut m, &crate::methods::decimal_string(args.len()));
            return Err(RuntimeError::InvalidOperation { message: m });
        }
        let ghost pure_body = fuel > 1 && all_pure(ctor.body@, fuel - 1);
        let saved = self.save_local_vars();
        self.local_vars.clear();
        proof { assert(self.local_vars@ =~= call_locals(None, ctor.params@, args@, 0)); }
        let mut i: usize = 0;
        while i < ctor.params.len()
            invariant
                self.wf(),
                defs_kept(old(self).shared, self.shared),
                saved.wf(),
                saved@ == old(self).local_vars@,
                ctor.params@.len() == args@.len(),
                i <= ctor.params@.len(),
                same_but_locals(*old(self), *self),
                self.local_vars@ == call_locals(None, ctor.params@, args@, i as nat),
            decreases ctor.params@.len() - i,
        {
            self.declare_local_variable(&ctor.params[i], args[i].clone_box());
            i = i + 1;
        }
        self.declare_local_variable(&String::from_str("me"), NyashBox::InstanceBox(h));
        let ghost t = *self;
        let mut result: Result<(), RuntimeError> = Ok(());
        let mut j: usize = 0;
        proof { assert(ctor.body@.take(0) =~= Seq::<ASTNode>::empty()); }
        while j < ctor.body.len()
            invariant
                self.wf(),
                defs_kept(old(self).shared, self.shared),
                saved.wf(),
                saved@ == old(self).local_vars@,
                j <= ctor.body@.len(),
                result is Ok,
                pure_body ==> *self == t && pure_eval_args(t, ctor.body@.take(j as int)) is Ok,
            decreases ctor.body@.len() - j,
        {
            proof {
                if pure_body {
                    assert(ctor.body@.take(j as int + 1).drop_last() =~= ctor.body@.take(j as int));
                    assert(ctor.body@.take(j as int + 1).last() == ctor.body@[j as int]);
                    assert(pure_expr(ctor.body@[j as int]) && expr_depth(ctor.body@[j as int]) < fuel - 1);
                }
            }
            match self.execute_statement(&ctor.body[j], fuel - 1) {
                Ok(_) => {},
                Err(e) => {
                    proof {
                        if pure_body {
                            crate::eval::lemma_pure_eval_args_err(t, ctor.body@, j as int + 1);
                        }
                    }
                    result = Err(e);
                    break;
                },
            }
            j = j + 1;
        }
        proof {
            if pure_body && result is Ok {
                assert(ctor.body@.take(j as int) =~= ctor.body@);
            }
            if pure_body {
                assert(same_but_locals(*old(self), t));
                assert(t.local_vars@ == call_locals(None, ctor.params@, args@, args@.len()).insert("me"@, NyashBox::InstanceBox(h)));
                assert(match pure_eval_args(t, ctor.body@) {
                    Err(e) => result matches Err(x) && x@ == e,
                    Ok(_) => result is Ok,
                });
            }
        }
        self.restore_local_vars(saved);
        result
    }
}


impl NyashInterpreter {
    /// A method of a builtin value on evaluated arguments: `None` for a
    /// value with no builtin methods (an instance, or void).
    pub fn builtin_method(&mut self, recv: &NyashBox, method: &String, args: &Vec<NyashBox>)
        -> (r: Option<Result<NyashBox, RuntimeError>>)
        requires
            old(self).wf(),
        ensures
            builtin_method_post(*old(self), *recv, method@, args@, *final(self), r),
    {
        match recv {
            NyashBox::StringBox(s) => Some(string_method(&mut self.shared.heap, s, method, args)),
            NyashBox::IntegerBox(i) => Some(integer_method(*i, method, args)),
            NyashBox::BoolBox(b) => Some(bool_method(*b, method, args)),
            NyashBox::NullBox => Some(null_method(method, args)),
            NyashBox::ArrayBox(h) => {
                let is_array = match heap_get(&self.shared.heap, *h) {
                    Some(HeapObject::Array(_)) => true,
                    _ => false,
                };
                if is_array {
                    Some(array_method(&mut self.shared.heap, *h, method, args))
                } else {
                    Some(Err(invalid("Cannot call method '", method, "' on a dangling array")))
                }
            },
            NyashBox::MapBox(h) => {
                let is_map = match heap_get(&self.shared.heap, *h) {
                    Some(HeapObject::Dict(_)) => true,
                    _ => false,
                };
                if is_map {
                    Some(map_method(&mut self.shared.heap, *h, method, args))
                } else {
                    Some(Err(invalid("Cannot call method '", method, "' on a dangling map")))
                }
            },
            _ => None,
        }
    }

    /// `object.method(arguments)`: a static function of a box, a method of a
    /// static box, one of the methods every value has (`toString`, `type`,
    /// `equals`, `clone`), a method of a builtin value, `fini` or a method of
    /// an instance.
    #[verifier::rlimit(80)]
    pub fn execute_method_call(&mut self, object: &ASTNode, method: &String, arguments: &Vec<ASTNode>, fuel: u64)
        -> (r: Result<NyashBox, RuntimeError>)
        requires
            old(self).wf(),
        ensures
            defs_kept(old(self).shared, final(self).shared),
            final(self).wf(),
            fuel > 1 && pure_expr(*object) && expr_depth(*object) < fuel && all_pure(arguments@, fuel - 1)
                && !static_target(*old(self), *object, method@) ==> match pure_eval(*old(self), *object) {
                Err(e) => r matches Err(x) && x@ == e && *final(self) == *old(self),
                Ok(recv) => match method_call_pure_spec(*old(self), recv, method@, arguments@) {
                    Some(o) => outcome(r) == o,
                    None => true,
                },
            },
            (fuel > 1 && pure_expr(*object) && expr_depth(*object) < fuel && !static_target(*old(self), *object, method@)
                && method@ == "fini"@ && r is Ok && fini_target(*old(self), *object) is Some)
                ==> final(self).invalidated_ids@.contains(fini_target(*old(self), *object)->0 as u64),
            (fuel > 2 && pure_expr(*object) && expr_depth(*object) < fuel && !static_target(*old(self), *object, method@)
                && method@ == "fini"@ && fini_again(*old(self), *object))
                ==> (r matches Ok(v) && v@ == BoxSpec::VoidBox && *final(self) == *old(self)),
            fuel > 2 && pure_expr(*object) && expr_depth(*object) < fuel && all_pure(arguments@, fuel - 2)
                && !static_target(*old(self), *object, method@) ==>
                match instance_method_call_spec(*old(self), *object, method@, arguments@) {
                    Some(o) => outcome(r) == o && *final(self) == *old(self),
                    None => true,
                },
            fuel > 4 && pure_expr(*object) && expr_depth(*object) < fuel && all_pure(arguments@, fuel - 2)
                && !static_target(*old(self), *object, method@) && !universal_method(method@) && method@ != "fini"@ ==>
                match pure_eval(*old(self), *object) {
                    Ok(BoxSpec::InstanceBox(h)) => user_method_post(*old(self), *final(self), h, method@, arguments@, fuel - 2, r),
                    _ => true,
                },
            fuel > 1 && pure_expr(*object) && expr_depth(*object) < fuel && !static_target(*old(self), *object, method@)
                && method@ == "clone"@ ==> match pure_eval(*old(self), *object) {
                    Err(e) => r matches Err(x) && x@ == e && *final(self) == *old(self),
                    Ok(recv) => if arguments@.len() != 0 {
                        r matches Err(x) && x@ == crate::methods::arity_err(method@, 0, arguments@.len())
                            && *final(self) == *old(self)
                    } else {
                        r matches Ok(v) && clone_post(*old(self), *final(self), recv, v@)
                    },
                },
            fuel > 1 ==> static_call_post(*old(self), *final(self), *object, method@, arguments@, fuel - 1, r),
            fuel > 2 && pure_expr(*object) && expr_depth(*object) < fuel && !static_target(*old(self), *object, method@)
                && method@ == "fini"@ ==> fini_post(*old(self), *final(self), *object, r),
            fuel > 1 ==> builtin_call_general_post(*old(self), *object, method@, arguments@, fuel - 1, *final(self), r),
            fuel > 1 ==> static_run_post(*old(self), *final(self), *object, method@, arguments@, fuel - 1, r),
        decreases fuel,
    {
        if fuel == 0 {
            return Err(step_limit());
        }
        proof { lemma_method_names(); }
        let f = fuel - 1;
        match object {
            ASTNode::Variable { name, .. } => {
                let static_fn = match self.shared.static_functions.get(name) {
                    Some(fns) => {
                        proof { assert(self.shared.static_functions@.contains_key(name@)); }
                        match fns.get(method) {
                            Some(d) => Some(share_rc(d)),
                            None => None,
                        }
                    },
                    None => None,
                };
                match static_fn {
                    Some(decl) => { return self.call_static_function(name, method, &decl, arguments, f); },
                    None => {},
                }
                if self.is_static_box(name) {
                    return self.call_static_box_method(name, method, arguments, f);
                }
            },
            _ => {},
        }
        let ghost s0 = *self;
        let rr = self.execute_expression(object, f);
        let ghost m0 = *self;
        let ghost g0 = rr;
        proof { assert(expr_post(s0, *object, f as int, m0, g0)); }
        let recv = match rr {
            Ok(v) => v,
            Err(e) => { return Err(e); },
        };
        let n = arguments.len();
        if is_named(method, "toString") {
            if n != 0 {
                return Err(arity_error(method, 0, n));
            }
            return Ok(NyashBox::StringBox(display_box(&self.shared.heap, &recv, DISPLAY_DEPTH)));
        }
        if is_named(method, "type") {
            if n != 0 {
                return Err(arity_error(method, 0, n));
            }
            return Ok(NyashBox::StringBox(recv.box_type_name()));
        }
        if is_named(method, "equals") {
            if n != 1 {
                return Err(arity_error(method, 1, n));
            }
            let rhs = self.execute_expression(&arguments[0], f)?;
            return Ok(NyashBox::BoolBox(compare_values(&recv, &rhs)));
        }
        if is_named(method, "clone") {
            if n != 0 {
                return Err(arity_error(method, 0, n));
            }
            return Ok(self.clone_value(&recv));
        }
        match recv {
            NyashBox::InstanceBox(h) => self.call_instance_method(object, h, method, arguments, f),
            NyashBox::VoidBox => {
                Err(RuntimeError::TypeError {
                    message: {
                        let mut m = String::from_str("Cannot call method '");
                        append_text(&mut m, method);
                        m.append("' on non-instance type");
                        m
                    },
                })
            },
            _ => {
                let ra = self.eval_args(arguments, f);
                let ghost m = *self;
                let ghost gra = values_of(ra);
                proof { if f > 0 { assert(args_rel(m0, arguments@, f - 1, m, gra)); } }
                let args = match ra {
                    Ok(a) => a,
                    Err(e) => { return Err(e); },
                };
                match self.builtin_method(&recv, method, &args) {
                    Some(r) => r,
                    None => Err(invalid("Cannot call method '", method, "' on non-instance type")),
                }
            },
        }
    }

    /// A static function `name.method`: run with the local and outbox
    /// variables saved and cleared, and put back afterwards.
    #[verifier::loop_isolation(false)]
    fn call_static_function(&mut self, name: &String, method: &String, decl: &FunctionDecl, arguments: &Vec<ASTNode>, fuel: u64)
        -> (r: Result<NyashBox, RuntimeError>)
        requires
            old(self).wf(),
        ensures
            defs_kept(old(self).shared, final(self).shared),
            final(self).wf(),
            static_function_post(*old(self), *final(self), name@, method@, *decl, arguments@, fuel as int, r),
            static_function_run(*old(self), *final(self), name@, method@, *decl, arguments@, fuel as int, r),
        decreases fuel,
    {
        if fuel == 0 {
            return Err(step_limit());
        }
        let ghost s0 = *self;
        let ra = self.eval_args(arguments, fuel - 1);
        let ghost u0 = *self;
        let ghost gra = values_of(ra);
        proof { if fuel > 1 { assert(args_rel(s0, arguments@, fuel - 2, u0, gra)); } }
        let args = match ra {
            Ok(a) => a,
            Err(e) => { return Err(e); },
        };
        if args.len() != decl.params.len() {
            let mut m = String::from_str("Static method ");
            append_text(&mut m, name);
            m.append(".");
            append_text(&mut m, method);
            m.append(" expects ");
            append_text(&mut m, &crate::methods::decimal_string(decl.params.len()));
            m.append(" arguments, got ");
            append_text(&mut m, &crate::methods::decimal_string(args.len()));
            proof {
                assert(m@ =~= count_text("Static method "@, name@ + "."@ + method@, " expects "@,
                    decl.params@.len(), args@.len()));
            }
            return Err(RuntimeError::InvalidOperation { message: m });
        }
        let ghost s1 = *self;
        let saved_locals = self.save_local_vars();
        let saved_outbox = self.save_outbox_vars();
        self.local_vars.clear();
        self.outbox_vars.clear();
        proof { assert(self.local_vars@ =~= call_locals(None, decl.params@, args@, 0)); }
        let mut i: usize = 0;
        while i < decl.params.len()
            invariant
                self.wf(),
                defs_kept(old(self).shared, self.shared),
                saved_locals.wf(),
                saved_outbox.wf(),
                saved_locals@ == s1.local_vars@,
                saved_outbox@ == s1.outbox_vars@,
                decl.params@.len() == args@.len(),
                i <= decl.params@.len(),
                self.shared == s1.shared,
                self.control_flow == s1.control_flow,
                self.invalidated_ids == s1.invalidated_ids,
                self.runtime == s1.runtime,
                self.discard_context == s1.discard_context,
                self.output == s1.output,
                self.outbox_vars@ == Map::<Seq<char>, NyashBox>::empty(),
                self.local_vars@ == call_locals(None, decl.params@, args@, i as nat),
            decreases decl.params@.len() - i,
        {
            self.declare_local_variable(&decl.params[i], args[i].clone_box());
            i = i + 1;
        }
        let ghost t = *self;
        proof { assert(static_call_state(s1, t, decl.params@, args@)); }
        let rb = self.run_body(&decl.body, fuel - 1);
        let ghost grb = rb;
        let ghost w = *self;
        proof {
            if fuel > 1 {
                assert(s1 == u0);
                assert(body_rel(t, decl.body@, NyashBox::VoidBox, fuel - 2, w, grb));
            }
        }
        let result = match rb {
            Ok(v) => v,
            Err(e) => { return Err(e); },
        };
        self.restore_local_vars(saved_locals);
        self.restore_outbox_vars(saved_outbox);
        Ok(result)
    }

    /// A method of the static box `name`, called on its singleton, which is
    /// initialized first.
    fn call_static_box_method(&mut self, name: &String, method: &String, arguments: &Vec<ASTNode>, fuel: u64)
        -> (r: Result<NyashBox, RuntimeError>)
        requires
            old(self).wf(),
        ensures
            defs_kept(old(self).shared, final(self).shared),
            final(self).wf(),
            static_box_call_post(*old(self), *final(self), name@, method@, arguments@, fuel as int, r),
            static_box_run(*old(self), *final(self), name@, method@, arguments@, fuel as int, r),
        decreases fuel,
    {
        if fuel == 0 {
            return Err(step_limit());
        }
        let ghost s0 = *self;
        let ri = self.initialize_static_box(name, fuel - 1);
        let ghost m1 = *self;
        let ghost gri = ri;
        proof { if fuel > 1 { assert(static_init_post(s0, m1, name@, gri)); } }
        match ri {
            Ok(_) => {},
            Err(e) => { return Err(e); },
        }
        let member = match self.statics_member(name)? {
            Some(v) => v,
            None => { return Err(invalid("Static box '", name, "' not found in statics namespace")); },
        };
        let h = match member {
            NyashBox::InstanceBox(h) => h,
            _ => { return Err(RuntimeError::TypeError { message: {
                let mut m = String::from_str("Static box '");
                append_text(&mut m, name);
                m.append("' is not an InstanceBox");
                m
            } }); },
        };
        let decl = match self.instance_method(h, method) {
            Some(d) => d,
            None => {
                let mut m = String::from_str("Method '");
                append_text(&mut m, method);
                m.append("' not found in static box '");
                append_text(&mut m, name);
                m.append("'");
                return Err(RuntimeError::InvalidOperation { message: m });
            },
        };
        let ra = self.eval_args(arguments, fuel - 1);
        let ghost u0 = *self;
        let ghost gra = values_of(ra);
        proof { if fuel > 1 { assert(args_rel(m1, arguments@, fuel - 2, u0, gra)); } }
        let args = match ra {
            Ok(a) => a,
            Err(e) => { return Err(e); },
        };
        self.call_function(&decl, &args, Some(NyashBox::InstanceBox(h)), fuel - 1)
    }

    /// The method `method` of the instance at `h`, if it has one.
    pub fn instance_method(&self, h: usize, method: &String) -> (r: Option<Rc<FunctionDecl>>)
        requires
            self.wf(),
        ensures
            match instance_at(self.shared.heap@, h) {
                None => r is None,
                Some(inst) => match r {
                    Some(d) => inst.methods@.contains_key(method@) && d == inst.methods@[method@],
                    None => !inst.methods@.contains_key(method@),
                },
            },
    {
        match heap_get(&self.shared.heap, h) {
            Some(HeapObject::Instance(inst)) => {
                proof { assert(heap_wf(self.shared.heap@)); assert(inst.wf()); }
                match inst.methods.get(method) {
                    Some(d) => Some(share_rc(d)),
                    None => None,
                }
            },
            _ => None,
        }
    }

    /// `fini` on the instance at `h`: once only, its own `fini` runs, and
    /// weak references to it read null from then on. A weak field of `me`
    /// cannot be finalized through `me`.
    fn finalize_instance(&mut self, object: &ASTNode, h: usize, fuel: u64) -> (r: Result<NyashBox, RuntimeError>)
        requires
            old(self).wf(),
        ensures
            defs_kept(old(self).shared, final(self).shared),
            final(self).wf(),
            (r is Ok && instance_at(old(self).shared.heap@, h) is Some
                && !instance_at(old(self).shared.heap@, h)->0.class_name@.contains('#'))
                ==> final(self).invalidated_ids@.contains(h as u64),
            fuel > 0 ==> match fini_refusal(*old(self), *object) {
                Some(e) => r matches Err(x) && x@ == e && *final(self) == *old(self),
                None => if old(self).invalidated_ids@.contains(h as u64) {
                    r matches Ok(v) && v@ == BoxSpec::VoidBox && *final(self) == *old(self)
                } else if instance_at(old(self).shared.heap@, h) is Some
                    && instance_at(old(self).shared.heap@, h)->0.methods@.contains_key("fini"@) {
                    &&& r is Ok ==> (crate::interp::weak_target_id(display(old(self).shared.heap@, BoxSpec::InstanceBox(h),
                        DISPLAY_DEPTH as nat)) matches Some(id) ==> final(self).invalidated_ids@.contains(id))
                    &&& fuel > 3 && old(self).control_flow is Normal
                        && simple_stmts(instance_at(old(self).shared.heap@, h)->0.methods@["fini"@].body@, fuel - 3) ==>
                        exists|t: NyashInterpreter| #[trigger] call_state(*old(self), t, Some(NyashBox::InstanceBox(h)),
                            instance_at(old(self).shared.heap@, h)->0.methods@["fini"@].params@, Seq::empty())
                            && match simple_body(t, instance_at(old(self).shared.heap@, h)->0.methods@["fini"@].body@) {
                                Err(e) => r matches Err(x) && x@ == e,
                                Ok(_) => r matches Ok(v) && v@ == BoxSpec::VoidBox,
                            }
                } else {
                    &&& r matches Ok(v) && v@ == BoxSpec::VoidBox
                    &&& crate::interp::invalidation_post(old(self).invalidated_ids@, final(self).invalidated_ids@,
                        display(old(self).shared.heap@, BoxSpec::InstanceBox(h), DISPLAY_DEPTH as nat))
                    &&& final(self).shared == old(self).shared
                    &&& final(self).local_vars == old(self).local_vars
                    &&& final(self).outbox_vars == old(self).outbox_vars
                    &&& final(self).control_flow == old(self).control_flow
                    &&& final(self).output == old(self).output
                },
            },
        decreases fuel,
    {
        if fuel == 0 {
            return Err(step_limit());
        }
        let ghost h0 = old(self).shared.heap@;
        match object {
            ASTNode::FieldAccess { object: inner, field } => {
                let is_me = match &**inner {
                    ASTNode::Me | ASTNode::This => true,
                    ASTNode::Variable { name, .. } => is_named(name, "me"),
                    _ => false,
                };
                if is_me {
                    match self.resolve_variable(&String::from_str("me")) {
                        Ok(NyashBox::InstanceBox(mh)) => {
                            match self.instance_class(mh) {
                                Some(mc) => {
                                    if self.is_weak_field(&mc, field) {
                                        return Err(invalid("Cannot finalize weak field '", field, "' (non-owning reference)"));
                                    }
                                },
                                None => {},
                            }
                        },
                        _ => {},
                    }
                }
            },
            _ => {},
        }
        if contains_id(&self.invalidated_ids, h as u64) {
            return Ok(NyashBox::VoidBox);
        }
        // The text names the class and the handle, neither of which the
        // `fini` body can change.
        assert(self.shared.heap@ == h0);
        let info = display_box(&self.shared.heap, &NyashBox::InstanceBox(h), DISPLAY_DEPTH);
        match self.instance_method(h, &String::from_str("fini")) {
            Some(decl) => {
                let no_args: Vec<NyashBox> = Vec::new();
                self.call_function(&decl, &no_args, Some(NyashBox::InstanceBox(h)), fuel - 1)?;
            },
            None => {},
        }
        proof {
            if instance_at(h0, h) is Some && !instance_at(h0, h)->0.class_name@.contains('#') {
                lemma_display_names_instance(h0, h);
                assert(crate::interp::weak_target_id(info@) == Some(h as u64));
            }
        }
        let ghost before = self.invalidated_ids@;
        self.trigger_weak_reference_invalidation(info.as_str());
        proof {
            if let Some(id) = crate::interp::weak_target_id(info@) {
                if !before.contains(id) {
                    assert(self.invalidated_ids@[before.len() as int] == id);
                }
            }
            if instance_at(h0, h) is Some && !instance_at(h0, h)->0.class_name@.contains('#') && !before.contains(h as u64) {
                assert(self.invalidated_ids@[before.len() as int] == h as u64);
            }
        }
        Ok(NyashBox::VoidBox)
    }

    /// A method of the instance at `h`. `fini` finalizes it once: its own
    /// `fini` runs, and weak references to it read null from then on.
    #[verifier::loop_isolation(false)]
    fn call_instance_method(&mut self, object: &ASTNode, h: usize, method: &String, arguments: &Vec<ASTNode>, fuel: u64)
        -> (r: Result<NyashBox, RuntimeError>)
        requires
            old(self).wf(),
        ensures
            defs_kept(old(self).shared, final(self).shared),
            final(self).wf(),
            (r is Ok && method@ == "fini"@ && instance_at(old(self).shared.heap@, h) is Some
                && !instance_at(old(self).shared.heap@, h)->0.class_name@.contains('#'))
                ==> final(self).invalidated_ids@.contains(h as u64),
            fuel > 1 && method@ == "fini"@ && instance_at(old(self).shared.heap@, h) is Some ==>
                match fini_refusal(*old(self), *object) {
                    Some(e) => r matches Err(x) && x@ == e && *final(self) == *old(self),
                    None => old(self).invalidated_ids@.contains(h as u64)
                        ==> (r matches Ok(v) && v@ == BoxSpec::VoidBox && *final(self) == *old(self)),
                },
            fuel > 1 && method@ != "fini"@ && all_pure(arguments@, fuel - 1) ==>
                match instance_call_spec(*old(self), h, method@, arguments@) {
                    Some(o) => outcome(r) == o && *final(self) == *old(self),
                    None => true,
                },
            fuel > 3 && method@ != "fini"@ && all_pure(arguments@, fuel - 1) ==>
                user_method_post(*old(self), *final(self), h, method@, arguments@, fuel - 1, r),
            instance_args_post(*old(self), *final(self), h, method@, arguments@, fuel as int, r),
        decreases fuel,
    {
        if fuel == 0 {
            return Err(step_limit());
        }
        let class = match self.instance_class(h) {
            Some(c) => c,
            None => { return Err(invalid("Cannot call method '", method, "' on a dangling instance")); },
        };
        if is_named(method, "fini") {
            return self.finalize_instance(object, h, fuel - 1);
        }
        match self.instance_method(h, method) {
            Some(decl) => {
                let ghost s0 = *self;
                let ra = self.eval_args(arguments, fuel - 1);
                let ghost u = *self;
                let ghost gra = values_of(ra);
                proof { if fuel > 1 { assert(args_rel(s0, arguments@, fuel - 2, u, gra)); } }
                let args = match ra {
                    Ok(a) => a,
                    Err(e) => { return Err(e); },
                };
                if args.len() != decl.params.len() {
                    return Err(count_message("Method ", method, " expects ", decl.params.len(), args.len()));
                }
                let rc = self.call_function(&decl, &args, Some(NyashBox::InstanceBox(h)), fuel - 1);
                proof {
                    if fuel > 3 && all_pure(arguments@, fuel - 1) && simple_stmts(decl.body@, fuel - 3)
                        && s0.control_flow is Normal {
                        assert(s0 == *old(self));
                        let u = choose|u: NyashInterpreter| #[trigger] call_state(s0, u, Some(NyashBox::InstanceBox(h)), decl.params@, args@)
                            && outcome(rc) == simple_body(u, decl.body@);
                        assert(call_state(*old(self), u, Some(NyashBox::InstanceBox(h)), decl.params@, args@));
                    }
                }
                rc
            },
            None => {
                match self.builtin_parent(&class) {
                    Some(is_string) => {
                        let content = match self.instance_field(h, &String::from_str("__builtin_content")) {
                            Some(Some(v)) => v,
                            _ => NyashBox::VoidBox,
                        };
                        let args = self.eval_args(arguments, fuel - 1)?;
                        if is_string {
                            let s = match content {
                                NyashBox::StringBox(s) => s,
                                _ => String::new(),
                            };
                            string_method(&mut self.shared.heap, &s, method, &args)
                        } else {
                            let v: i64 = match content {
                                NyashBox::IntegerBox(v) => v,
                                _ => 0,
                            };
                            integer_method(v, method, &args)
                        }
                    },
                    None => {
                        let mut m = String::from_str("Method '");
                        append_text(&mut m, method);
                        m.append("' not found in ");
                        append_text(&mut m, &class);
                        Err(RuntimeError::InvalidOperation { message: m })
                    },
                }
            },
        }
    }

    /// The first builtin box among those that `class` extends: `Some(true)`
    /// for StringBox, `Some(false)` for IntegerBox, `None` when there is none.
    fn builtin_parent(&self, class: &String) -> (r: Option<bool>)
        requires
            self.wf(),
        ensures
            r is None <==> !has_builtin_parent(*self, class@),
    {
        match self.shared.box_declarations.get(class) {
            Some(d) => {
                let n = d.extends.len();
                let mut i: usize = 0;
                while i < n
                    invariant
                        n == d.extends@.len(),
                        *d == self.shared.box_declarations@[class@],
                        self.shared.box_declarations@.contains_key(class@),
                        i <= n,
                        forall|j: int| 0 <= j < i ==> !(#[trigger] d.extends@[j]@ == "StringBox"@
                            || d.extends@[j]@ == "IntegerBox"@),
                    decreases n - i,
                {
                    if is_named(&d.extends[i], "StringBox") {
                        return Some(true);
                    }
                    if is_named(&d.extends[i], "IntegerBox") {
                        return Some(false);
                    }
                    i = i + 1;
                }
                None
            },
            None => None,
        }
    }
}


/// Whether a static box "Main" declares a method "main".
pub open spec fn has_static_main(s: NyashInterpreter) -> bool {
    s.shared.static_box_definitions@.contains_key("Main"@)
        && s.shared.static_box_definitions@["Main"@].methods@.contains_key("main"@)
}

/// A program with no static box Main that ran to its end left no `break`,
/// `continue`, `return` or exception pending at the top level.
pub open spec fn top_level_normal(node: ASTNode, t: NyashInterpreter, r: Result<NyashBox, RuntimeError>) -> bool {
    (node matches ASTNode::Program { statements } && statements@.len() > 0 && r is Ok
        && !t.shared.static_box_definitions@.contains_key("Main"@))
        ==> t.control_flow is Normal
}

/// A program of expressions that only read the state, run from `s` with
/// no static `Main.main`: the first error, else the value of the last
/// expression (void for none); nothing changes either way.
pub open spec fn pure_program_post(s: NyashInterpreter, t: NyashInterpreter, node: ASTNode, fuel: int,
    r: Result<NyashBox, RuntimeError>) -> bool
{
    (node matches ASTNode::Program { statements } && fuel > 1 && all_pure(statements@, fuel - 1)
        && s.control_flow is Normal && !has_static_main(s))
    ==> match pure_eval_args(s, node->statements@) {
        Err(e) => r matches Err(x) && x@ == e && t.shared == s.shared && t.local_vars == s.local_vars
            && t.outbox_vars == s.outbox_vars && t.control_flow == s.control_flow && t.output == s.output,
        Ok(vs) => r matches Ok(v) && v@ == (if vs.len() == 0 { BoxSpec::VoidBox } else { vs.last() }) && t == s,
    }
}

/// `s` with the flag that says whether the current statement's value is
/// thrown away set to `d`.
pub open spec fn with_discard(s: NyashInterpreter, d: bool) -> NyashInterpreter {
    NyashInterpreter { discard_context: d, ..s }
}

/// Whether a statement with `remaining - 1` statements after it is not the
/// last one.
pub open spec fn not_last(remaining: nat) -> bool {
    remaining != 1
}

/// What running the remaining top-level statements `stmts` of a program in
/// `s` does, after a statement whose value was `last`. Each statement runs
/// as `stmt_post` says, with the value of all but the last one thrown away
/// and that flag put back after it; an error ends the
/// run with it; a `break` or `continue` left pending is the error
/// `BreakOutsideLoop`, a pending `return` is `ReturnOutsideFunction`, a
/// pending exception is `UncaughtException`, and the statements after it do
/// not run. After the last statement, the value is that of the last
/// statement; where `main` is set and a static `Main.main` is declared,
/// that method runs next, which this leaves open.
pub open spec fn prog_rel(s: NyashInterpreter, stmts: Seq<ASTNode>, last: NyashBox, t: NyashInterpreter,
    r: Result<NyashBox, RuntimeError>, main: bool, fuel: int) -> bool
    decreases stmts.len(),
{
    if stmts.len() == 0 {
        !(main && has_static_main(s)) ==> (t == s && r == Ok::<NyashBox, RuntimeError>(last))
    } else {
        exists|m: NyashInterpreter, r1: Result<NyashBox, RuntimeError>|
            #[trigger] stmt_post(with_discard(s, not_last(stmts.len())), stmts[0], fuel, m, r1)
            && match r1 {
                Err(_) => t == m && r == r1,
                Ok(v) => {
                    let m2 = with_discard(m, s.discard_context);
                    match m2.control_flow {
                        ControlFlow::Normal => prog_rel(m2, stmts.drop_first(), v, t, r, main, fuel),
                        ControlFlow::Break => t == m2 && r == Err::<NyashBox, RuntimeError>(RuntimeError::BreakOutsideLoop),
                        ControlFlow::Continue => t == m2 && r == Err::<NyashBox, RuntimeError>(RuntimeError::BreakOutsideLoop),
                        ControlFlow::Return(_) => t == m2 && r == Err::<NyashBox, RuntimeError>(RuntimeError::ReturnOutsideFunction),
                        ControlFlow::Throw(_) => t == m2 && r == Err::<NyashBox, RuntimeError>(RuntimeError::UncaughtException),
                    }
                },
            }
    }
}

/// A program run from `s`, as `prog_rel` says.
pub open spec fn program_post(s: NyashInterpreter, t: NyashInterpreter, node: ASTNode, fuel: int,
    r: Result<NyashBox, RuntimeError>) -> bool
{
    (node matches ASTNode::Program { statements } && fuel > 1)
        ==> prog_rel(s, node->statements@, NyashBox::VoidBox, t, r, true, fuel - 1)
}

/// What an expression that only reads the state gives does not depend on
/// whether the value of the current statement is thrown away.
proof fn lemma_pure_eval_discard(s: NyashInterpreter, t: NyashInterpreter, e: ASTNode)
    requires
        t.shared == s.shared,
        t.local_vars == s.local_vars,
        t.outbox_vars == s.outbox_vars,
    ensures
        pure_eval(t, e) == pure_eval(s, e),
    decreases e,
{
    match e {
        ASTNode::BinaryOp { left, right, .. } => {
            lemma_pure_eval_discard(s, t, *left);
            lemma_pure_eval_discard(s, t, *right);
        },
        ASTNode::UnaryOp { operand, .. } => {
            lemma_pure_eval_discard(s, t, *operand);
        },
        _ => {},
    }
}

/// The fuel that a whole program gets: in practice no limit.
pub const PROGRAM_FUEL: u64 = 0xffff_ffff_ffff_ffffu64;

impl NyashInterpreter {
    /// Whether a static box "Main" with a method "main" is declared, and how
    /// many parameters that method has.
    fn main_params(&self) -> (r: Option<usize>)
        requires
            self.wf(),
        ensures
            r is Some <==> has_static_main(*self),
    {
        match self.shared.static_box_definitions.get(&String::from_str("Main")) {
            Some(d) => {
                proof { assert(self.shared.static_box_definitions@.contains_key("Main"@)); }
                match d.methods.get(&String::from_str("main")) {
                    Some(m) => Some(m.params.len()),
                    None => None,
                }
            },
            None => None,
        }
    }

    /// Runs a program: each top-level statement in turn, then, when a static
    /// box Main declares `main`, `Main.main()` (given an empty array when it
    /// takes one parameter), whose value is the program's value. A `break`,
    /// `continue` or `return` that reaches the top level is an error.
    pub fn execute(&mut self, ast: &ASTNode) -> (r: Result<NyashBox, RuntimeError>)
        requires
            old(self).wf(),
        ensures
            defs_kept(old(self).shared, final(self).shared),
            final(self).wf(),
            top_level_normal(*ast, *final(self), r),
            pure_program_post(*old(self), *final(self), *ast, PROGRAM_FUEL as int, r),
            program_post(*old(self), *final(self), *ast, PROGRAM_FUEL as int, r),
    {
        self.execute_node(ast, PROGRAM_FUEL)
    }

    /// Runs a node as `execute` does, with the given fuel.
    #[verifier::loop_isolation(false)]
    pub fn execute_node(&mut self, node: &ASTNode, fuel: u64) -> (r: Result<NyashBox, RuntimeError>)
        requires
            old(self).wf(),
        ensures
            defs_kept(old(self).shared, final(self).shared),
            final(self).wf(),
            top_level_normal(*node, *final(self), r),
            pure_program_post(*old(self), *final(self), *node, fuel as int, r),
            program_post(*old(self), *final(self), *node, fuel as int, r),
    {
        if fuel == 0 {
            return Err(step_limit());
        }
        let statements = match node {
            ASTNode::Program { statements } => statements,
            _ => { return self.execute_statement(node, fuel - 1); },
        };
        let ghost pure = fuel > 1 && all_pure(statements@, fuel - 1) && old(self).control_flow is Normal
            && !has_static_main(*old(self));
        let ghost plain = fuel > 1;
        let mut result = NyashBox::VoidBox;
        let n = statements.len();
        let mut i: usize = 0;
        proof {
            assert(statements@.take(0) =~= Seq::<ASTNode>::empty());
            assert(statements@.skip(0) =~= statements@);
        }
        while i < n
            invariant
                plain ==> self.discard_context == old(self).discard_context,
                plain ==> forall|t: NyashInterpreter, q: Result<NyashBox, RuntimeError>|
                    #[trigger] prog_rel(*self, statements@.skip(i as int), result, t, q, true, fuel - 1)
                        ==> prog_rel(*old(self), statements@, NyashBox::VoidBox, t, q, true, fuel - 1),
                self.wf(),
                defs_kept(old(self).shared, self.shared),
                n == statements@.len(),
                i <= n,
                i > 0 ==> self.control_flow is Normal,
                pure ==> *self == *old(self) && pure_eval_args(*old(self), statements@.take(i as int)) is Ok
                    && pure_eval_args(*old(self), statements@.take(i as int))->Ok_0.len() == i
                    && (i == 0 ==> result@ == BoxSpec::VoidBox)
                    && (i > 0 ==> result@ == pure_eval_args(*old(self), statements@.take(i as int))->Ok_0.last()),
            decreases n - i,
        {
            proof {
                if pure {
                    assert(statements@.take(i as int + 1).drop_last() =~= statements@.take(i as int));
                    assert(statements@.take(i as int + 1).last() == statements@[i as int]);
                    assert(pure_expr(statements@[i as int]) && expr_depth(statements@[i as int]) < fuel - 1);
                }
            }
            let ghost cur = *self;
            let ghost prevr = result;
            let ghost rest = statements@.skip(i as int);
            proof {
                assert(rest[0] == statements@[i as int]);
                assert(rest.drop_first() =~= statements@.skip(i as int + 1));
                assert(rest.len() == n - i);
            }
            let prev = self.discard_context;
            self.discard_context = i + 1 != n;
            proof {
                if pure { lemma_pure_eval_discard(*old(self), *self, statements@[i as int]); }
                assert(*self == with_discard(cur, not_last(rest.len())));
            }
            let r1 = self.execute_statement(&statements[i], fuel - 1);
            let ghost g1 = r1;
            let ghost m = *self;
            proof {
                if plain {
                    assert(stmt_post(with_discard(cur, not_last(rest.len())), rest[0], fuel - 1, *self, g1));
                }
            }
            result = match r1 {
                Ok(v) => v,
                Err(e) => {
                    proof {
                        if pure {
                            lemma_pure_eval_args_err(*old(self), statements@, i as int + 1);
                        }
                        if plain {
                            assert(prog_rel(cur, rest, prevr, *self, g1, true, fuel - 1));
                        }
                    }
                    return Err(e);
                },
            };
            self.discard_context = prev;
            proof {
                if plain {
                    assert(*self == with_discard(m, cur.discard_context));
                }
            }
            match &self.control_flow {
                ControlFlow::Break => {
                    proof { if plain { assert(prog_rel(cur, rest, prevr, *self, Err::<NyashBox, RuntimeError>(RuntimeError::BreakOutsideLoop), true, fuel - 1)); } }
                    return Err(RuntimeError::BreakOutsideLoop);
                },
                ControlFlow::Continue => {
                    proof { if plain { assert(prog_rel(cur, rest, prevr, *self, Err::<NyashBox, RuntimeError>(RuntimeError::BreakOutsideLoop), true, fuel - 1)); } }
                    return Err(RuntimeError::BreakOutsideLoop);
                },
                ControlFlow::Return(_) => {
                    proof { if plain { assert(prog_rel(cur, rest, prevr, *self, Err::<NyashBox, RuntimeError>(RuntimeError::ReturnOutsideFunction), true, fuel - 1)); } }
                    return Err(RuntimeError::ReturnOutsideFunction);
                },
                ControlFlow::Throw(_) => {
                    proof { if plain { assert(prog_rel(cur, rest, prevr, *self, Err::<NyashBox, RuntimeError>(RuntimeError::UncaughtException), true, fuel - 1)); } }
                    return Err(RuntimeError::UncaughtException);
                },
                ControlFlow::Normal => {},
            }
            proof {
                if plain {
                    assert forall|t: NyashInterpreter, q: Result<NyashBox, RuntimeError>|
                        #[trigger] prog_rel(*self, statements@.skip(i as int + 1), result, t, q, true, fuel - 1)
                        implies prog_rel(*old(self), statements@, NyashBox::VoidBox, t, q, true, fuel - 1) by {
                        assert(prog_rel(cur, rest, prevr, t, q, true, fuel - 1));
                    }
                }
            }
            i = i + 1;
        }
        proof {
            if pure { assert(statements@.take(i as int) =~= statements@); }
            if plain { assert(statements@.skip(i as int).len() == 0); }
        }
        let ghost end = *self;
        match self.main_params() {
            Some(p) => {
                proof {
                    if plain {
                        assert forall|t: NyashInterpreter, q: Result<NyashBox, RuntimeError>|
                            #[trigger] prog_rel(*old(self), statements@, NyashBox::VoidBox, t, q, true, fuel - 1) by {
                            assert(prog_rel(end, statements@.skip(i as int), result, t, q, true, fuel - 1));
                        }
                    }
                }
                let main_box = String::from_str("Main");
                self.initialize_static_box(&main_box, fuel - 1)?;
                let mut args: Vec<ASTNode> = Vec::new();
                if p == 1 {
                    args.push(ASTNode::New { class: String::from_str("ArrayBox"), arguments: Vec::new(), type_arguments: Vec::new() });
                }
                let call = ASTNode::MethodCall {
                    object: Box::new(ASTNode::FieldAccess {
                        object: Box::new(ASTNode::Variable {
                            name: String::from_str("statics"),
                            span: Span { line: 0, column: 0 },
                        }),
                        field: main_box,
                    }),
                    method: String::from_str("main"),
                    arguments: args,
                };
                self.execute_statement(&call, fuel - 1)
            },
            None => {
                proof {
                    if plain {
                        assert(prog_rel(end, statements@.skip(i as int), result, end, Ok::<NyashBox, RuntimeError>(result), true, fuel - 1));
                    }
                }
                Ok(result)
            },
        }
    }
}


impl NyashInterpreter {
    /// Makes sure the static box `name` is initialized, as
    /// `initialize_static_box` does with all the fuel a program gets.
    pub fn ensure_static_box_initialized(&mut self, name: &str) -> (r: Result<(), RuntimeError>)
        requires
            old(self).wf(),
        ensures
            final(self).wf(),
            defs_kept(old(self).shared, final(self).shared),
            static_init_post(*old(self), *final(self), name@, r),
            first_init_post(*old(self), *final(self), name@, PROGRAM_FUEL as int, r),
            init_any_post(*old(self), *final(self), name@, PROGRAM_FUEL as int, r),
    {
        let n = String::from_str(name);
        self.initialize_static_box(&n, PROGRAM_FUEL)
    }
}


/// The builtin boxes that a declared box can delegate to.
pub open spec fn builtin_box_name(n: Seq<char>) -> bool {
    n == "StringBox"@ || n == "IntegerBox"@ || n == "BoolBox"@ || n == "NullBox"@ || n == "ArrayBox"@ || n == "MapBox"@
}

/// Whether `n` names a builtin box.
pub fn is_builtin_box(n: &String) -> (b: bool)
    ensures
        b == builtin_box_name(n@),
{
    is_named(n, "StringBox") || is_named(n, "IntegerBox") || is_named(n, "BoolBox") || is_named(n, "NullBox")
        || is_named(n, "ArrayBox") || is_named(n, "MapBox")
}

/// Whether `v` holds a string equal to `x`.
fn contains_string(v: &Vec<String>, x: &String) -> (b: bool)
    ensures
        b == exists|i: int| 0 <= i < v@.len() && #[trigger] v@[i]@ == x@,
{
    let mut i: usize = 0;
    while i < v.len()
        invariant
            i <= v@.len(),
            forall|j: int| 0 <= j < i ==> #[trigger] v@[j]@ != x@,
        decreases v@.len() - i,
    {
        if v[i] == *x {
            assert(v@[i as int]@ == x@);
            return true;
        }
        i = i + 1;
    }
    false
}

/// Adds every entry of `from` to `into`, replacing entries of the same name.
fn add_methods(into: &mut AssocMap<Rc<FunctionDecl>>, from: &AssocMap<Rc<FunctionDecl>>)
    requires
        old(into).wf(),
        from.wf(),
    ensures
        final(into).wf(),
        final(into)@ == old(into)@.union_prefer_right(from@),
{
    proof { from.lemma_keys(); }
    let ghost keys = from.key_seq();
    let mut i: usize = 0;
    while i < from.len()
        invariant
            into.wf(),
            from.wf(),
            keys == from.key_seq(),
            i <= keys.len(),
            keys.len() == from.val_seq().len(),
            forall|j: int| 0 <= j < keys.len() ==> from@.contains_key(#[trigger] keys[j])
                && from@[keys[j]] == from.val_seq()[j],
            forall|k: Seq<char>| #[trigger] from@.contains_key(k) <==> keys.contains(k),
            forall|k: Seq<char>| #[trigger] into@.contains_key(k)
                <==> (old(into)@.contains_key(k) || keys.take(i as int).contains(k)),
            forall|k: Seq<char>| #[trigger] into@.contains_key(k) ==> into@[k]
                == if keys.take(i as int).contains(k) { from@[k] } else { old(into)@[k] },
        decreases keys.len() - i,
    {
        let k = from.key_at(i).clone();
        let v = share_rc(from.value_at(i));
        let ghost before = into@;
        into.insert(k, v);
        proof {
            let t0 = keys.take(i as int);
            let t1 = keys.take(i as int + 1);
            assert(t1 =~= t0.push(keys[i as int]));
            assert(into@ == before.insert(keys[i as int], v));
            assert forall|q: Seq<char>| #[trigger] into@.contains_key(q)
                <==> (old(into)@.contains_key(q) || t1.contains(q)) by {
                assert(before.contains_key(q) <==> (old(into)@.contains_key(q) || t0.contains(q)));
                if t1.contains(q) && q != keys[i as int] {
                    let w = choose|w: int| 0 <= w < t1.len() && #[trigger] t1[w] == q;
                    assert(t0[w] == q);
                }
                if t0.contains(q) {
                    let w = choose|w: int| 0 <= w < t0.len() && #[trigger] t0[w] == q;
                    assert(t1[w] == q);
                }
                if q == keys[i as int] {
                    assert(t1[i as int] == q);
                }
            }
            assert forall|q: Seq<char>| #[trigger] into@.contains_key(q) implies into@[q]
                == if t1.contains(q) { from@[q] } else { old(into)@[q] } by {
                if q != keys[i as int] {
                    assert(before.contains_key(q));
                    assert(into@[q] == before[q]);
                    if t1.contains(q) {
                        let w = choose|w: int| 0 <= w < t1.len() && #[trigger] t1[w] == q;
                        assert(t0[w] == q);
                    }
                    if t0.contains(q) {
                        let w = choose|w: int| 0 <= w < t0.len() && #[trigger] t0[w] == q;
                        assert(t1[w] == q);
                    }
                } else {
                    assert(t1[i as int] == q);
                }
            }
        }
        i = i + 1;
    }
    proof { assert(keys.take(i as int) =~= keys); }
    assert(into@ =~= old(into)@.union_prefer_right(from@));
}

/// The texts of a sequence of strings.
pub open spec fn names(v: Seq<String>) -> Seq<Seq<char>> {
    v.map_values(|x: String| x@)
}

/// `fields` followed by each of `extra` that is not there yet, in order.
pub open spec fn with_missing(fields: Seq<Seq<char>>, extra: Seq<Seq<char>>) -> Seq<Seq<char>>
    decreases extra.len(),
{
    if extra.len() == 0 {
        fields
    } else {
        let f = with_missing(fields, extra.drop_last());
        if f.contains(extra.last()) { f } else { f.push(extra.last()) }
    }
}

/// The first of the interface methods `required` that `methods` lacks, as
/// the error that names it.
pub open spec fn missing_method(class: Seq<char>, iface: Seq<char>, required: Seq<Seq<char>>,
    methods: Map<Seq<char>, Rc<FunctionDecl>>) -> Option<ErrSpec>
    decreases required.len(),
{
    if required.len() == 0 {
        None
    } else {
        match missing_method(class, iface, required.drop_last(), methods) {
            Some(e) => Some(e),
            None => if methods.contains_key(required.last()) {
                None
            } else {
                Some(ErrSpec::InvalidOperation("Class '"@ + class + "' must implement method '"@ + required.last()
                    + "' from interface '"@ + iface + "'"@))
            },
        }
    }
}

/// The first of the interfaces `ifaces` that is undeclared, is no interface,
/// or has a method that `methods` lacks, as an error.
pub open spec fn implements_error(decls: Map<Seq<char>, BoxDeclaration>, class: Seq<char>, ifaces: Seq<Seq<char>>,
    methods: Map<Seq<char>, Rc<FunctionDecl>>) -> Option<ErrSpec>
    decreases ifaces.len(),
{
    if ifaces.len() == 0 {
        None
    } else {
        match implements_error(decls, class, ifaces.drop_last(), methods) {
            Some(e) => Some(e),
            None => {
                let n = ifaces.last();
                if !decls.contains_key(n) {
                    Some(ErrSpec::UndefinedClass(n))
                } else if !decls[n].is_interface {
                    Some(ErrSpec::InvalidOperation("'"@ + n + "' is not an interface"@))
                } else {
                    missing_method(class, n, decls[n].methods.key_seq(), methods)
                }
            },
        }
    }
}

/// The fields and methods that the boxes `parents` pass on, in order: a
/// builtin box passes nothing, an undeclared box or an interface is an error.
pub open spec fn parents_spec(decls: Map<Seq<char>, BoxDeclaration>, parents: Seq<Seq<char>>, fuel: nat)
    -> Result<(Seq<Seq<char>>, Map<Seq<char>, Rc<FunctionDecl>>), ErrSpec>
    decreases fuel, parents.len(),
{
    if parents.len() == 0 {
        Ok((Seq::empty(), Map::empty()))
    } else {
        match parents_spec(decls, parents.drop_last(), fuel) {
            Err(e) => Err(e),
            Ok((fs, ms)) => {
                let p = parents.last();
                if builtin_box_name(p) {
                    Ok((fs, ms))
                } else if !decls.contains_key(p) {
                    Err(ErrSpec::UndefinedClass(p))
                } else if decls[p].is_interface {
                    Err(ErrSpec::InvalidOperation("Cannot extend interface '"@ + p + "'. Use 'implements' instead."@))
                } else {
                    match inherit_spec(decls, decls[p], fuel) {
                        Err(e) => Err(e),
                        Ok((pf, pm)) => Ok((fs + pf, ms.union_prefer_right(pm))),
                    }
                }
            },
        }
    }
}

/// The fields and methods of an instance of `decl`: those its parents pass
/// on, then its own fields and the init fields not among them; its own
/// methods override inherited ones; each interface it implements must be
/// declared as one and have all its methods there.
pub open spec fn inherit_spec(decls: Map<Seq<char>, BoxDeclaration>, decl: BoxDeclaration, fuel: nat)
    -> Result<(Seq<Seq<char>>, Map<Seq<char>, Rc<FunctionDecl>>), ErrSpec>
    decreases fuel, 0nat,
{
    if fuel == 0 {
        Err(step_limit_err())
    } else {
        match parents_spec(decls, names(decl.extends@), (fuel - 1) as nat) {
            Err(e) => Err(e),
            Ok((pf, pm)) => {
                let fields = with_missing(pf + names(decl.fields@), names(decl.init_fields@));
                let methods = pm.union_prefer_right(decl.methods@);
                match implements_error(decls, decl.name@, names(decl.implements@), methods) {
                    Some(e) => Err(e),
                    None => Ok((fields, methods)),
                }
            },
        }
    }
}

/// Once a prefix of the parents fails, all of them fail the same way.
proof fn lemma_parents_err(decls: Map<Seq<char>, BoxDeclaration>, ps: Seq<Seq<char>>, fuel: nat, n: int)
    requires
        0 <= n <= ps.len(),
        parents_spec(decls, ps.take(n), fuel) is Err,
    ensures
        parents_spec(decls, ps, fuel) == parents_spec(decls, ps.take(n), fuel),
    decreases ps.len() - n,
{
    if n == ps.len() {
        assert(ps.take(n) =~= ps);
    } else {
        assert(ps.take(n + 1).drop_last() =~= ps.take(n));
        lemma_parents_err(decls, ps, fuel, n + 1);
    }
}

/// Once a prefix of the interfaces fails, all of them fail the same way.
proof fn lemma_implements_err(decls: Map<Seq<char>, BoxDeclaration>, class: Seq<char>, ifaces: Seq<Seq<char>>,
    methods: Map<Seq<char>, Rc<FunctionDecl>>, n: int)
    requires
        0 <= n <= ifaces.len(),
        implements_error(decls, class, ifaces.take(n), methods) is Some,
    ensures
        implements_error(decls, class, ifaces, methods) == implements_error(decls, class, ifaces.take(n), methods),
    decreases ifaces.len() - n,
{
    if n == ifaces.len() {
        assert(ifaces.take(n) =~= ifaces);
    } else {
        assert(ifaces.take(n + 1).drop_last() =~= ifaces.take(n));
        lemma_implements_err(decls, class, ifaces, methods, n + 1);
    }
}

/// Once a prefix of the required methods is missing one, so are all.
proof fn lemma_missing_method(class: Seq<char>, iface: Seq<char>, required: Seq<Seq<char>>,
    methods: Map<Seq<char>, Rc<FunctionDecl>>, n: int)
    requires
        0 <= n <= required.len(),
        missing_method(class, iface, required.take(n), methods) is Some,
    ensures
        missing_method(class, iface, required, methods) == missing_method(class, iface, required.take(n), methods),
    decreases required.len() - n,
{
    if n == required.len() {
        assert(required.take(n) =~= required);
    } else {
        assert(required.take(n + 1).drop_last() =~= required.take(n));
        lemma_missing_method(class, iface, required, methods, n + 1);
    }
}

impl NyashInterpreter {
    /// The fields and methods of a declared box together with those of the
    /// boxes it extends, parents first; its own methods override inherited
    /// ones, and its init fields follow its fields unless already there.
    /// A builtin parent gives nothing; an interface cannot be extended; the
    /// interfaces it implements must be declared as such and have all their
    /// methods there.
    pub fn resolve_inheritance(&self, decl: &BoxDeclaration, fuel: u64)
        -> (r: Result<(Vec<String>, AssocMap<Rc<FunctionDecl>>), RuntimeError>)
        requires
            self.wf(),
            decl.methods.wf(),
        ensures
            match inherit_spec(self.shared.box_declarations@, *decl, fuel as nat) {
                Ok(res) => r matches Ok(x) && names(x.0@) == res.0 && x.1@ == res.1 && x.1.wf(),
                Err(e) => r matches Err(x) && x@ == e,
            },
        decreases fuel, 0nat,
    {
        if fuel == 0 {
            return Err(step_limit());
        }
        let (mut fields, mut methods) = self.inherit_from_parents(decl, fuel - 1)?;
        let ghost pfields = names(fields@);
        let ghost own = names(decl.fields@);
        let mut j: usize = 0;
        proof { assert(pfields + own.take(0) =~= pfields); }
        while j < decl.fields.len()
            invariant
                methods.wf(),
                j <= decl.fields@.len(),
                own == names(decl.fields@),
                names(fields@) == pfields + own.take(j as int),
            decreases decl.fields@.len() - j,
        {
            let ghost before = fields@;
            fields.push(decl.fields[j].clone());
            proof {
                assert(own.take(j as int + 1) =~= own.take(j as int).push(decl.fields@[j as int]@));
                assert(names(fields@) =~= names(before).push(decl.fields@[j as int]@));
            }
            j = j + 1;
        }
        proof { assert(own.take(j as int) =~= own); }
        let ghost with_own = names(fields@);
        let ghost inits = names(decl.init_fields@);
        let mut k: usize = 0;
        proof { assert(inits.take(0) =~= Seq::<Seq<char>>::empty()); }
        while k < decl.init_fields.len()
            invariant
                methods.wf(),
                k <= decl.init_fields@.len(),
                inits == names(decl.init_fields@),
                names(fields@) == with_missing(with_own, inits.take(k as int)),
            decreases decl.init_fields@.len() - k,
        {
            proof {
                assert(inits.take(k as int + 1).drop_last() =~= inits.take(k as int));
                assert(inits.take(k as int + 1).last() == decl.init_fields@[k as int]@);
            }
            let ghost before = fields@;
            if !contains_string(&fields, &decl.init_fields[k]) {
                fields.push(decl.init_fields[k].clone());
                proof {
                    assert(!names(before).contains(decl.init_fields@[k as int]@)) by {
                        if names(before).contains(decl.init_fields@[k as int]@) {
                            let w = choose|w: int| 0 <= w < names(before).len()
                                && #[trigger] names(before)[w] == decl.init_fields@[k as int]@;
                            assert(before[w]@ == decl.init_fields@[k as int]@);
                        }
                    }
                    assert(names(fields@) =~= names(before).push(decl.init_fields@[k as int]@));
                }
            } else {
                proof {
                    let w = choose|w: int| 0 <= w < before.len() && #[trigger] before[w]@ == decl.init_fields@[k as int]@;
                    assert(names(before)[w] == decl.init_fields@[k as int]@);
                }
            }
            k = k + 1;
        }
        proof { assert(inits.take(k as int) =~= inits); }
        add_methods(&mut methods, &decl.methods);
        self.check_implements(decl, &methods)?;
        Ok((fields, methods))
    }

    /// What the boxes that `decl` extends pass on, in order.
    #[verifier::rlimit(40)]
    fn inherit_from_parents(&self, decl: &BoxDeclaration, fuel: u64)
        -> (r: Result<(Vec<String>, AssocMap<Rc<FunctionDecl>>), RuntimeError>)
        requires
            self.wf(),
        ensures
            match parents_spec(self.shared.box_declarations@, names(decl.extends@), fuel as nat) {
                Ok(res) => r matches Ok(x) && names(x.0@) == res.0 && x.1@ == res.1 && x.1.wf(),
                Err(e) => r matches Err(x) && x@ == e,
            },
        decreases fuel, 1nat,
    {
        let ghost decls = self.shared.box_declarations@;
        let ghost ps = names(decl.extends@);
        let mut fields: Vec<String> = Vec::new();
        let mut methods: AssocMap<Rc<FunctionDecl>> = AssocMap::new();
        let mut i: usize = 0;
        proof {
            assert(ps.take(0) =~= Seq::<Seq<char>>::empty());
            assert(names(fields@) =~= Seq::<Seq<char>>::empty());
        }
        while i < decl.extends.len()
            invariant
                self.wf(),
                decls == self.shared.box_declarations@,
                ps == names(decl.extends@),
                methods.wf(),
                i <= decl.extends@.len(),
                parents_spec(decls, ps.take(i as int), fuel as nat)
                    == Ok::<(Seq<Seq<char>>, Map<Seq<char>, Rc<FunctionDecl>>), ErrSpec>((names(fields@), methods@)),
            decreases decl.extends@.len() - i,
        {
            let parent = &decl.extends[i];
            let ghost pre = ps.take(i as int + 1);
            proof {
                assert(pre.drop_last() =~= ps.take(i as int));
                assert(pre.last() == parent@);
            }
            if !is_builtin_box(parent) {
                let pd = match self.shared.box_declarations.get(parent) {
                    Some(pd) => pd,
                    None => {
                        proof { lemma_parents_err(decls, ps, fuel as nat, i as int + 1); }
                        return Err(RuntimeError::UndefinedClass { name: parent.clone() });
                    },
                };
                proof { assert(self.shared.box_declarations@.contains_key(parent@)); }
                if pd.is_interface {
                    proof { lemma_parents_err(decls, ps, fuel as nat, i as int + 1); }
                    return Err(invalid("Cannot extend interface '", parent, "'. Use 'implements' instead."));
                }
                let (pf, pm) = match self.resolve_inheritance(pd, fuel) {
                    Ok(x) => x,
                    Err(e) => {
                        proof { lemma_parents_err(decls, ps, fuel as nat, i as int + 1); }
                        return Err(e);
                    },
                };
                let ghost base = names(fields@);
                let mut j: usize = 0;
                proof { assert(base + names(pf@).take(0) =~= base); }
                while j < pf.len()
                    invariant
                        j <= pf@.len(),
                        methods.wf(),
                        names(fields@) == base + names(pf@).take(j as int),
                    decreases pf@.len() - j,
                {
                    let ghost before = fields@;
                    fields.push(pf[j].clone());
                    proof {
                        assert(names(pf@).take(j as int + 1) =~= names(pf@).take(j as int).push(pf@[j as int]@));
                        assert(names(fields@) =~= names(before).push(pf@[j as int]@));
                    }
                    j = j + 1;
                }
                proof { assert(names(pf@).take(j as int) =~= names(pf@)); }
                add_methods(&mut methods, &pm);
            }
            i = i + 1;
        }
        proof { assert(ps.take(i as int) =~= ps); }
        Ok((fields, methods))
    }

    /// Every interface that `decl` implements is declared as one, and
    /// `methods` has each of its methods.
    fn check_implements(&self, decl: &BoxDeclaration, methods: &AssocMap<Rc<FunctionDecl>>) -> (r: Result<(), RuntimeError>)
        requires
            self.wf(),
            methods.wf(),
        ensures
            match implements_error(self.shared.box_declarations@, decl.name@, names(decl.implements@), methods@) {
                Some(e) => r matches Err(x) && x@ == e,
                None => r is Ok,
            },
    {
        let ghost decls = self.shared.box_declarations@;
        let ghost impls = names(decl.implements@);
        let mut q: usize = 0;
        proof { assert(impls.take(0) =~= Seq::<Seq<char>>::empty()); }
        while q < decl.implements.len()
            invariant
                self.wf(),
                methods.wf(),
                decls == self.shared.box_declarations@,
                q <= decl.implements@.len(),
                impls == names(decl.implements@),
                implements_error(decls, decl.name@, impls.take(q as int), methods@) is None,
            decreases decl.implements@.len() - q,
        {
            let iname = &decl.implements[q];
            let ghost pre = impls.take(q as int + 1);
            proof {
                assert(pre.drop_last() =~= impls.take(q as int));
                assert(pre.last() == iname@);
            }
            let idecl = match self.shared.box_declarations.get(iname) {
                Some(d) => d,
                None => {
                    proof { lemma_implements_err(decls, decl.name@, impls, methods@, q as int + 1); }
                    return Err(RuntimeError::UndefinedClass { name: iname.clone() });
                },
            };
            if !idecl.is_interface {
                proof { lemma_implements_err(decls, decl.name@, impls, methods@, q as int + 1); }
                return Err(invalid("'", iname, "' is not an interface"));
            }
            let ghost required = idecl.methods.key_seq();
            let mut t: usize = 0;
            proof { assert(required.take(0) =~= Seq::<Seq<char>>::empty()); }
            while t < idecl.methods.len()
                invariant
                    methods.wf(),
                    required == idecl.methods.key_seq(),
                    t <= required.len(),
                    missing_method(decl.name@, iname@, required.take(t as int), methods@) is None,
                    q < decl.implements@.len(),
                    impls == names(decl.implements@),
                    pre == impls.take(q as int + 1),
                    pre.drop_last() == impls.take(q as int),
                    pre.last() == iname@,
                    implements_error(decls, decl.name@, impls.take(q as int), methods@) is None,
                    decls == self.shared.box_declarations@,
                    decls.contains_key(iname@),
                    decls[iname@] == *idecl,
                    idecl.is_interface,
                decreases required.len() - t,
            {
                let req = idecl.methods.key_at(t);
                proof {
                    assert(required.take(t as int + 1).drop_last() =~= required.take(t as int));
                    assert(required.take(t as int + 1).last() == req@);
                }
                if !methods.contains_key(req) {
                    let mut m = String::from_str("Class '");
                    append_text(&mut m, &decl.name);
                    m.append("' must implement method '");
                    append_text(&mut m, req);
                    m.append("' from interface '");
                    append_text(&mut m, iname);
                    m.append("'");
                    proof {
                        let msg = "Class '"@ + decl.name@ + "' must implement method '"@ + req@
                            + "' from interface '"@ + iname@ + "'"@;
                        assert(m@ =~= msg);
                        assert(missing_method(decl.name@, iname@, required.take(t as int + 1), methods@)
                            == Some(ErrSpec::InvalidOperation(msg)));
                        lemma_missing_method(decl.name@, iname@, required, methods@, t as int + 1);
                        assert(implements_error(decls, decl.name@, pre, methods@) == Some(ErrSpec::InvalidOperation(msg)));
                        lemma_implements_err(decls, decl.name@, impls, methods@, q as int + 1);
                    }
                    return Err(RuntimeError::InvalidOperation { message: m });
                }
                t = t + 1;
            }
            proof { assert(required.take(t as int) =~= required); }
            q = q + 1;
        }
        proof { assert(impls.take(q as int) =~= impls); }
        Ok(())
    }
}


/// The field in which an instance keeps the value of the builtin box it
/// delegates to.
pub open spec fn builtin_content_field() -> Seq<char> {
    "__builtin_content"@
}

/// Whether `x` is one of the texts of `v`.
pub open spec fn names_contain(v: Seq<String>, x: Seq<char>) -> bool {
    exists|i: int| 0 <= i < v.len() && #[trigger] v[i]@ == x
}

/// Whether `from parent.m(...)` calls a constructor of `parent`.
pub open spec fn is_ctor_name(parent: Seq<char>, m: Seq<char>) -> bool {
    m == "constructor"@ || m == "init"@ || m == "pack"@ || m == "birth"@ || m == parent
}

/// Whether the declared box `pd` has a constructor for `n` arguments under
/// one of the names `from` looks for.
pub open spec fn has_parent_ctor(pd: BoxDeclaration, parent: Seq<char>, n: nat) -> bool {
    let d = crate::text::decimal(n);
    ||| pd.constructors@.contains_key("birth/"@ + d)
    ||| pd.constructors@.contains_key("pack/"@ + d)
    ||| pd.constructors@.contains_key("init/"@ + d)
    ||| pd.constructors@.contains_key(parent + "/"@ + d)
}

/// The constructor of `pd` that `from parent.birth(...)` with `n` arguments
/// runs: the first of "birth/n", "pack/n", "init/n" and "<parent>/n" that
/// `pd` has.
pub open spec fn parent_ctor(pd: BoxDeclaration, parent: Seq<char>, n: nat) -> Rc<FunctionDecl> {
    let d = crate::text::decimal(n);
    let c = pd.constructors@;
    if c.contains_key("birth/"@ + d) {
        c["birth/"@ + d]
    } else if c.contains_key("pack/"@ + d) {
        c["pack/"@ + d]
    } else if c.contains_key("init/"@ + d) {
        c["init/"@ + d]
    } else {
        c[parent + "/"@ + d]
    }
}

/// The function that `from parent.m(...)` with `n` arguments runs on a
/// declared parent: its constructor for the constructor names, else its
/// method `m`.
pub open spec fn from_target(s: NyashInterpreter, parent: Seq<char>, m: Seq<char>, n: nat) -> Rc<FunctionDecl> {
    let pd = s.shared.box_declarations@[parent];
    if is_ctor_name(parent, m) { parent_ctor(pd, parent, n) } else { pd.methods@[m] }
}

/// The instance that `me` holds in `s`.
pub open spec fn me_handle(s: NyashInterpreter) -> usize {
    s.resolve_spec("me"@)->0->InstanceBox_0
}

/// What `from parent.m(arguments)` gives once it goes ahead, when its
/// arguments only read the state: their first error; for a builtin parent,
/// `birth` as `builtin_birth_post` says; for a declared parent, the wrong
/// number of arguments for the function it runs, or else, for a body of
/// simple statements, that body's outcome with `me` and the parameters bound
/// (a constructor gives the current instance).
pub open spec fn from_call_post(s: NyashInterpreter, t: NyashInterpreter, parent: Seq<char>, m: Seq<char>,
    args: Seq<ASTNode>, fuel: int, r: Result<NyashBox, RuntimeError>) -> bool
{
    match pure_eval_args(s, args) {
        Err(e) => r matches Err(x) && x@ == e && t == s,
        Ok(vs) => if builtin_box_name(parent) {
            m == "birth"@ ==> builtin_birth_post(s, t, parent, me_handle(s), vs, r)
        } else {
            let f = from_target(s, parent, m, args.len());
            if vs.len() != f.params@.len() {
                r matches Err(x) && t == s && x@ == ErrSpec::InvalidOperation(if is_ctor_name(parent, m) {
                    count_text("Parent constructor "@, parent, " expects "@, f.params@.len(), vs.len())
                } else {
                    count_text("Parent method "@, parent + "."@ + m, " expects "@, f.params@.len(), vs.len())
                })
            } else {
                simple_stmts(f.body@, fuel - 3) && s.control_flow is Normal ==>
                    exists|u: NyashInterpreter, a: Seq<NyashBox>|
                        #[trigger] call_state(s, u, Some(NyashBox::InstanceBox(me_handle(s))), f.params@, a)
                        && views(a) == vs
                        && if is_ctor_name(parent, m) {
                            match simple_body(u, f.body@) {
                                Err(e) => r matches Err(x) && x@ == e,
                                Ok(_) => r matches Ok(x) && x@ == BoxSpec::InstanceBox(me_handle(s)),
                            }
                        } else {
                            outcome(r) == simple_body(u, f.body@)
                        }
            }
        },
    }
}

/// What `from parent.m(args)` does with any arguments, run with `fuel` in
/// `s` and leaving `t` with `r`, for a declared parent: the arguments run as
/// `args_rel` says, and their first error is the result; else a number of
/// values other than that of the parameters is an error; else the parent's
/// method runs on the values with `me` bound, as `call_fn_post` says, and a
/// parent constructor that succeeds gives `me`.
pub open spec fn from_args_post(s: NyashInterpreter, t: NyashInterpreter, parent: Seq<char>, m: Seq<char>,
    args: Seq<ASTNode>, fuel: int, r: Result<NyashBox, RuntimeError>) -> bool
{
    (!builtin_box_name(parent) && fuel > 1) ==> {
        let f = from_target(s, parent, m, args.len());
        let me = Some(NyashBox::InstanceBox(me_handle(s)));
        exists|u: NyashInterpreter, ra: Result<Seq<NyashBox>, RuntimeError>|
            #[trigger] args_rel(s, args, fuel - 2, u, ra) && match ra {
                Err(e) => r == Err::<NyashBox, RuntimeError>(e) && t == u,
                Ok(a) => if a.len() != f.params@.len() {
                    r matches Err(x) && t == u && x@ == ErrSpec::InvalidOperation(if is_ctor_name(parent, m) {
                        count_text("Parent constructor "@, parent, " expects "@, f.params@.len(), a.len())
                    } else {
                        count_text("Parent method "@, parent + "."@ + m, " expects "@, f.params@.len(), a.len())
                    })
                } else if is_ctor_name(parent, m) {
                    exists|y: Result<NyashBox, RuntimeError>| #[trigger] call_fn_post(u, t, *f, a, me, fuel - 1, y)
                        && match y {
                            Err(e) => r == Err::<NyashBox, RuntimeError>(e),
                            Ok(_) => r matches Ok(x) && x@ == BoxSpec::InstanceBox(me_handle(s)),
                        }
                } else {
                    call_fn_post(u, t, *f, a, me, fuel - 1, r)
                },
            }
    }
}

/// How `from parent.m(...)` with `n` arguments fails before anything runs:
/// outside a method, on a current value that is no instance, in an
/// undeclared box, towards a box the current one does not delegate to, to an
/// undeclared parent, or to a parent with no such constructor or method.
/// `None` where the call goes ahead.
pub open spec fn from_call_spec(s: NyashInterpreter, parent: Seq<char>, m: Seq<char>, n: nat) -> Option<ErrSpec> {
    match s.resolve_spec("me"@) {
        None => Some(ErrSpec::InvalidOperation("'from' can only be used inside methods"@)),
        Some(me) => {
            let not_instance = ErrSpec::TypeError("'from' requires current instance to be InstanceBox"@);
            if !(me is InstanceBox) {
                Some(not_instance)
            } else if instance_at(s.shared.heap@, me->InstanceBox_0) is None {
                Some(not_instance)
            } else {
                let class = instance_at(s.shared.heap@, me->InstanceBox_0)->0.class_name@;
                let decls = s.shared.box_declarations@;
                if !decls.contains_key(class) {
                    Some(ErrSpec::UndefinedClass(class))
                } else if !names_contain(decls[class].extends@, parent) && !names_contain(decls[class].implements@, parent) {
                    Some(ErrSpec::InvalidOperation("Class '"@ + class + "' does not delegate to '"@ + parent
                        + "'. Use 'box "@ + class + " from "@ + parent + "' to establish delegation."@))
                } else if builtin_box_name(parent) {
                    None
                } else if !decls.contains_key(parent) {
                    Some(ErrSpec::UndefinedClass(parent))
                } else if is_ctor_name(parent, m) {
                    if has_parent_ctor(decls[parent], parent, n) {
                        None
                    } else {
                        Some(ErrSpec::InvalidOperation("No constructor found for parent class '"@ + parent + "' with "@
                            + crate::text::decimal(n) + " arguments"@))
                    }
                } else if !decls[parent].methods@.contains_key(m) {
                    Some(ErrSpec::InvalidOperation("Method '"@ + m + "' not found in parent class '"@ + parent + "'"@))
                } else {
                    None
                }
            }
        },
    }
}

/// What `from Builtin.birth(args)` does on the instance at `h`, from state
/// `s` to state `t`: a StringBox parent stores the text of its one argument
/// as the instance's builtin content; an IntegerBox parent checks that its one
/// argument reads as an integer; an ArrayBox parent takes no argument; any
/// other parent is refused. Only the StringBox case changes anything.
pub open spec fn builtin_birth_post(s: NyashInterpreter, t: NyashInterpreter, parent: Seq<char>, h: usize,
    a: Seq<BoxSpec>, r: Result<NyashBox, RuntimeError>) -> bool
{
    let n = a.len();
    let arity = |k: nat| ErrSpec::InvalidOperation(count_text(""@, parent, ".birth() expects "@, k, n));
    if parent == "StringBox"@ {
        if n != 1 {
            outcome(r) == Err::<BoxSpec, ErrSpec>(arity(1)) && t == s
        } else {
            let text = display(s.shared.heap@, a[0], DISPLAY_DEPTH as nat);
            &&& outcome(r) == Ok::<BoxSpec, ErrSpec>(BoxSpec::VoidBox)
            &&& t.local_vars == s.local_vars && t.outbox_vars == s.outbox_vars && t.control_flow == s.control_flow
            &&& t.shared.global_box == s.shared.global_box
            &&& t.shared.box_declarations == s.shared.box_declarations
            &&& t.shared.static_box_definitions == s.shared.static_box_definitions
            &&& t.shared.heap@.len() == s.shared.heap@.len()
            &&& match instance_at(s.shared.heap@, h) {
                None => t.shared.heap == s.shared.heap,
                Some(inst) => instance_at(t.shared.heap@, h) is Some
                    && instance_at(t.shared.heap@, h)->0.fields@.contains_key(builtin_content_field())
                    && instance_at(t.shared.heap@, h)->0.fields@[builtin_content_field()]@ == BoxSpec::StringBox(text)
                    && forall|k: Seq<char>| k != builtin_content_field() ==> (#[trigger] instance_at(t.shared.heap@, h)->0.fields@.contains_key(k)
                        <==> inst.fields@.contains_key(k)),
            }
        }
    } else if parent == "IntegerBox"@ {
        &&& t == s
        &&& if n != 1 {
            outcome(r) == Err::<BoxSpec, ErrSpec>(arity(1))
        } else {
            let text = display(s.shared.heap@, a[0], DISPLAY_DEPTH as nat);
            if crate::text::parse_i64_spec(text) is Some {
                outcome(r) == Ok::<BoxSpec, ErrSpec>(BoxSpec::VoidBox)
            } else {
                outcome(r) == Err::<BoxSpec, ErrSpec>(ErrSpec::TypeError("Cannot convert '"@ + text + "' to integer"@))
            }
        }
    } else if parent == "ArrayBox"@ {
        t == s && if n != 0 {
            outcome(r) == Err::<BoxSpec, ErrSpec>(arity(0))
        } else {
            outcome(r) == Ok::<BoxSpec, ErrSpec>(BoxSpec::VoidBox)
        }
    } else {
        t == s && outcome(r) == Err::<BoxSpec, ErrSpec>(ErrSpec::InvalidOperation(
            "birth() method not yet implemented for builtin box '"@ + parent + "'"@))
    }
}

impl NyashInterpreter {
    /// `from parent.method(arguments)` inside a method: `parent` must be a
    /// box that the current instance's box extends or implements. A builtin
    /// parent runs its own method (or `birth`); a declared parent runs its
    /// constructor for `birth`, `init`, `pack`, `constructor` or its own
    /// name, and its method otherwise, with `me` the current instance.
    #[verifier::rlimit(80)]
    pub fn execute_from_call(&mut self, parent: &String, method: &String, arguments: &Vec<ASTNode>, fuel: u64)
        -> (r: Result<NyashBox, RuntimeError>)
        requires
            old(self).wf(),
        ensures
            final(self).wf(),
            defs_kept(old(self).shared, final(self).shared),
            fuel > 0 ==> match from_call_spec(*old(self), parent@, method@, arguments@.len()) {
                Some(e) => r matches Err(x) && x@ == e && *final(self) == *old(self),
                None => {
                    &&& fuel > 3 && all_pure(arguments@, fuel - 2) ==>
                        from_call_post(*old(self), *final(self), parent@, method@, arguments@, fuel as int, r)
                    &&& from_args_post(*old(self), *final(self), parent@, method@, arguments@, fuel as int, r)
                },
            },
        decreases fuel,
    {
        if fuel == 0 {
            return Err(step_limit());
        }
        let me = match self.resolve_variable(&String::from_str("me")) {
            Ok(v) => v,
            Err(_) => { return Err(invalid_op("'from' can only be used inside methods")); },
        };
        let h = match me {
            NyashBox::InstanceBox(h) => h,
            _ => { return Err(type_err("'from' requires current instance to be InstanceBox")); },
        };
        let class = match self.instance_class(h) {
            Some(c) => c,
            None => { return Err(type_err("'from' requires current instance to be InstanceBox")); },
        };
        let delegates = match self.shared.box_declarations.get(&class) {
            Some(d) => contains_string(&d.extends, parent) || contains_string(&d.implements, parent),
            None => { return Err(RuntimeError::UndefinedClass { name: class.clone() }); },
        };
        if !delegates {
            let mut m = String::from_str("Class '");
            append_text(&mut m, &class);
            m.append("' does not delegate to '");
            append_text(&mut m, parent);
            m.append("'. Use 'box ");
            append_text(&mut m, &class);
            m.append(" from ");
            append_text(&mut m, parent);
            m.append("' to establish delegation.");
            return Err(RuntimeError::InvalidOperation { message: m });
        }
        if is_builtin_box(parent) {
            return self.execute_builtin_box_method(parent, method, h, arguments, fuel - 1);
        }
        let pd = match self.shared.box_declarations.get(parent) {
            Some(pd) => {
                proof { assert(self.shared.box_declarations@.contains_key(parent@)); }
                let n = arguments.len();
                let is_ctor = is_named(method, "constructor") || is_named(method, "init") || is_named(method, "pack")
                    || is_named(method, "birth") || *method == *parent;
                if is_ctor {
                    let mut found: Option<Rc<FunctionDecl>> = None;
                    let mut keys: Vec<String> = Vec::new();
                    keys.push(String::from_str("birth/"));
                    keys.push(String::from_str("pack/"));
                    keys.push(String::from_str("init/"));
                    let mut own = parent.clone();
                    own.append("/");
                    keys.push(own);
                    let mut q: usize = 0;
                    while q < keys.len() && found.is_none()
                        invariant
                            pd.constructors.wf(),
                            q <= keys@.len(),
                            keys@.len() == 4,
                            keys@[0]@ == "birth/"@,
                            keys@[1]@ == "pack/"@,
                            keys@[2]@ == "init/"@,
                            keys@[3]@ == parent@ + "/"@,
                            found is Some ==> has_parent_ctor(*pd, parent@, n as nat)
                                && found->0 == parent_ctor(*pd, parent@, n as nat),
                            found is None ==> forall|j: int| 0 <= j < q
                                ==> !pd.constructors@.contains_key(#[trigger] keys@[j]@ + crate::text::decimal(n as nat)),
                        decreases keys@.len() - q,
                    {
                        let mut key = keys[q].clone();
                        append_text(&mut key, &crate::methods::decimal_string(n));
                        match pd.constructors.get(&key) {
                            Some(c) => { found = Some(share_rc(c)); },
                            None => {},
                        }
                        q = q + 1;
                    }
                    match found {
                        Some(c) => Ok(c),
                        None => {
                            let mut m = String::from_str("No constructor found for parent class '");
                            append_text(&mut m, parent);
                            m.append("' with ");
                            append_text(&mut m, &crate::methods::decimal_string(n));
                            m.append(" arguments");
                            return Err(RuntimeError::InvalidOperation { message: m });
                        },
                    }
                } else {
                    match pd.methods.get(method) {
                        Some(d) => Err(share_rc(d)),
                        None => {
                            let mut m = String::from_str("Method '");
                            append_text(&mut m, method);
                            m.append("' not found in parent class '");
                            append_text(&mut m, parent);
                            m.append("'");
                            return Err(RuntimeError::InvalidOperation { message: m });
                        },
                    }
                }
            },
            None => { return Err(RuntimeError::UndefinedClass { name: parent.clone() }); },
        };
        let ghost s1 = *self;
        let ra = self.eval_args(arguments, fuel - 1);
        let ghost u = *self;
        let ghost gra = values_of(ra);
        proof { if fuel > 1 { assert(args_rel(s1, arguments@, fuel - 2, u, gra)); } }
        let args = match ra {
            Ok(a) => a,
            Err(e) => { return Err(e); },
        };
        match pd {
            Ok(ctor) => {
                if args.len() != ctor.params.len() {
                    let mut m = String::from_str("Parent constructor ");
                    append_text(&mut m, parent);
                    m.append(" expects ");
                    append_text(&mut m, &crate::methods::decimal_string(ctor.params.len()));
                    m.append(" arguments, got ");
                    append_text(&mut m, &crate::methods::decimal_string(args.len()));
                    return Err(RuntimeError::InvalidOperation { message: m });
                }
                proof {
                    if fuel > 3 && all_pure(arguments@, fuel - 2) && pure_eval_args(*old(self), arguments@) is Ok {
                        assert(*self == *old(self));
                        assert(h == me_handle(*old(self)));
                        assert(is_ctor_name(parent@, method@));
                        assert(ctor == from_target(*old(self), parent@, method@, arguments@.len()));
                    }
                }
                let rc = self.call_function(&ctor, &args, Some(NyashBox::InstanceBox(h)), fuel - 1);
                let ghost gc = rc;
                proof {
                    assert(call_fn_post(u, *self, *ctor, args@, Some(NyashBox::InstanceBox(h)), fuel - 1, gc));
                    assert(s1 == *old(self));
                    assert(h == me_handle(*old(self)));
                    assert(is_ctor_name(parent@, method@));
                    assert(ctor == from_target(*old(self), parent@, method@, arguments@.len()));
                }
                rc?;
                Ok(NyashBox::InstanceBox(h))
            },
            Err(decl) => {
                if args.len() != decl.params.len() {
                    let mut m = String::from_str("Parent method ");
                    append_text(&mut m, parent);
                    m.append(".");
                    append_text(&mut m, method);
                    m.append(" expects ");
                    append_text(&mut m, &crate::methods::decimal_string(decl.params.len()));
                    m.append(" arguments, got ");
                    append_text(&mut m, &crate::methods::decimal_string(args.len()));
                    proof {
                        assert(m@ =~= count_text("Parent method "@, parent@ + "."@ + method@, " expects "@,
                            decl.params@.len(), args@.len()));
                    }
                    return Err(RuntimeError::InvalidOperation { message: m });
                }
                proof {
                    if fuel > 3 && all_pure(arguments@, fuel - 2) && pure_eval_args(*old(self), arguments@) is Ok {
                        assert(*self == *old(self));
                        assert(h == me_handle(*old(self)));
                        assert(!is_ctor_name(parent@, method@));
                        assert(decl == from_target(*old(self), parent@, method@, arguments@.len()));
                    }
                }
                self.call_function(&decl, &args, Some(NyashBox::InstanceBox(h)), fuel - 1)
            },
        }
    }

    /// A method of the builtin box `parent` called through `from`: `birth`
    /// initializes the instance at `h`; any other method runs on a fresh
    /// value of that box.
    fn execute_builtin_box_method(&mut self, parent: &String, method: &String, h: usize, arguments: &Vec<ASTNode>, fuel: u64)
        -> (r: Result<NyashBox, RuntimeError>)
        requires
            old(self).wf(),
        ensures
            final(self).wf(),
            defs_kept(old(self).shared, final(self).shared),
            fuel > 1 && all_pure(arguments@, fuel - 1) ==> match pure_eval_args(*old(self), arguments@) {
                Err(e) => r matches Err(x) && x@ == e && *final(self) == *old(self),
                Ok(vs) => if method@ == "birth"@ {
                    builtin_birth_post(*old(self), *final(self), parent@, h, vs, r)
                } else if parent@ == "StringBox"@ {
                    if method@ == "split"@ {
                        match crate::methods::split_error(vs) {
                            Some(e) => r matches Err(x) && x@ == e,
                            None => r matches Ok(x) && x@ == BoxSpec::ArrayBox(old(self).shared.heap@.len() as usize),
                        }
                    } else {
                        outcome(r) == crate::methods::string_method_spec(Seq::empty(), method@, vs)
                            && final(self).shared.heap@ == old(self).shared.heap@
                    }
                } else if parent@ == "IntegerBox"@ {
                    outcome(r) == crate::methods::integer_method_spec(0, method@, vs) && *final(self) == *old(self)
                } else if parent@ == "ArrayBox"@ {
                    exists|o: HeapObject| #![trigger old(self).shared.heap@.push(o)]
                        o is Array && o->Array_0@.len() == 0
                        && outcome(r) == array_step(old(self).shared.heap@.push(o), Seq::empty(), method@, vs).result
                } else if parent@ == "MapBox"@ {
                    exists|d: AssocMap<NyashBox>| #![trigger old(self).shared.heap@.push(HeapObject::Dict(d))]
                        d@ == Map::<Seq<char>, NyashBox>::empty() && d.key_seq().len() == 0
                        && outcome(r) == crate::methods::map_result(old(self).shared.heap@.push(HeapObject::Dict(d)), d, method@, vs)
                } else {
                    outcome(r) == Err::<BoxSpec, ErrSpec>(ErrSpec::InvalidOperation(
                        "Unknown built-in Box type for delegation: "@ + parent@ + ""@))
                        && *final(self) == *old(self)
                },
            },
        decreases fuel,
    {
        if fuel == 0 {
            return Err(step_limit());
        }
        let args = self.eval_args(arguments, fuel - 1)?;
        if is_named(method, "birth") {
            return self.builtin_birth(parent, h, &args);
        }
        if is_named(parent, "StringBox") {
            string_method(&mut self.shared.heap, &String::new(), method, &args)
        } else if is_named(parent, "IntegerBox") {
            integer_method(0, method, &args)
        } else if is_named(parent, "ArrayBox") {
            let ghost heap0 = self.shared.heap@;
            let a = self.allocate(HeapObject::Array(Vec::new()));
            let ghost o = self.shared.heap@[a as int];
            proof { assert(self.shared.heap@ == heap0.push(o)); }
            array_method(&mut self.shared.heap, a, method, &args)
        } else if is_named(parent, "MapBox") {
            let ghost heap0 = self.shared.heap@;
            let m = self.allocate(HeapObject::Dict(AssocMap::new()));
            let ghost d = self.shared.heap@[m as int]->Dict_0;
            proof { assert(self.shared.heap@ == heap0.push(HeapObject::Dict(d))); }
            let r = map_method(&mut self.shared.heap, m, method, &args);
            proof {
                let b = choose|b: Seq<NyashBox>| #[trigger] views(b) == views(args@);
                assert(views(b) == views(args@));
                assert(b.len() == views(b).len() && args@.len() == views(args@).len());
                if b.len() > 0 {
                    assert(b[0]@ == views(b)[0]);
                    assert(args@[0]@ == views(args@)[0]);
                }
            }
            r
        } else {
            Err(invalid("Unknown built-in Box type for delegation: ", parent, ""))
        }
    }

    /// `from Builtin.birth(args)`: a StringBox parent keeps the text of its
    /// argument in the instance's builtin content; an IntegerBox parent
    /// checks that its argument reads as an integer; an ArrayBox parent
    /// takes no argument.
    fn builtin_birth(&mut self, parent: &String, h: usize, args: &Vec<NyashBox>) -> (r: Result<NyashBox, RuntimeError>)
        requires
            old(self).wf(),
        ensures
            final(self).wf(),
            defs_kept(old(self).shared, final(self).shared),
            builtin_birth_post(*old(self), *final(self), parent@, h, views(args@), r),
    {
        let n = args.len();
        if is_named(parent, "StringBox") {
            if n != 1 {
                return Err(count_message("", parent, ".birth() expects ", 1, n));
            }
            let text = display_box(&self.shared.heap, &args[0], DISPLAY_DEPTH);
            self.put_instance_field(h, &String::from_str("__builtin_content"), NyashBox::StringBox(text));
            Ok(NyashBox::VoidBox)
        } else if is_named(parent, "IntegerBox") {
            if n != 1 {
                return Err(count_message("", parent, ".birth() expects ", 1, n));
            }
            let text = display_box(&self.shared.heap, &args[0], DISPLAY_DEPTH);
            match crate::text::parse_i64(&chars_of(text.as_str())) {
                Some(_) => Ok(NyashBox::VoidBox),
                None => Err(RuntimeError::TypeError { message: {
                    let mut m = String::from_str("Cannot convert '");
                    append_text(&mut m, &text);
                    m.append("' to integer");
                    m
                } }),
            }
        } else if is_named(parent, "ArrayBox") {
            if n != 0 {
                return Err(count_message("", parent, ".birth() expects ", 0, n));
            }
            Ok(NyashBox::VoidBox)
        } else {
            Err(invalid("birth() method not yet implemented for builtin box '", parent, "'"))
        }
    }

    /// Stores `value` in the field `field` of the instance at `h`, making the
    /// field when the instance has none of that name.
    pub fn put_instance_field(&mut self, h: usize, field: &String, value: NyashBox)
        requires
            old(self).wf(),
        ensures
            final(self).wf(),
            final(self).local_vars == old(self).local_vars,
            final(self).outbox_vars == old(self).outbox_vars,
            final(self).control_flow == old(self).control_flow,
            final(self).shared.global_box == old(self).shared.global_box,
            final(self).shared.box_declarations == old(self).shared.box_declarations,
            final(self).shared.static_box_definitions == old(self).shared.static_box_definitions,
            final(self).shared.static_functions == old(self).shared.static_functions,
            final(self).shared.heap@.len() == old(self).shared.heap@.len(),
            match instance_at(old(self).shared.heap@, h) {
                None => final(self).shared.heap == old(self).shared.heap,
                Some(inst) => instance_at(final(self).shared.heap@, h) matches Some(ni)
                    && ni.fields@ == inst.fields@.insert(field@, value)
                    && ni.class_name == inst.class_name && ni.methods == inst.methods,
            },
    {
        let ghost old_heap = self.shared.heap@;
        match heap_get(&self.shared.heap, h) {
            Some(HeapObject::Instance(_)) => {},
            _ => { return; },
        }
        let mut obj = HeapObject::Array(Vec::new());
        std::mem::swap(&mut obj, &mut self.shared.heap[h]);
        match &mut obj {
            HeapObject::Instance(inst) => {
                proof { assert(old_heap[h as int] is Instance); assert(heap_wf(old_heap)); }
                inst.fields.insert(field.clone(), value);
            },
            _ => {},
        }
        self.shared.heap.set(h, obj);
        proof {
            assert forall|j: int| 0 <= j < self.shared.heap@.len() implies match #[trigger] self.shared.heap@[j] {
                HeapObject::Instance(inst) => inst.wf(),
                HeapObject::Dict(m) => m.wf(),
                HeapObject::Array(_) => true,
            } by {
                if j != h {
                    assert(self.shared.heap@[j] == old_heap[j]);
                }
            }
        }
    }
}


/// The names joined with `sep` between each two.
pub fn join_strings(names: &Vec<String>, sep: &str) -> (r: String)
    ensures
        r@ == crate::text::join_text(names@.map_values(|s: String| s@), sep@),
{
    let mut pieces: Vec<Vec<char>> = Vec::new();
    let mut i: usize = 0;
    while i < names.len()
        invariant
            i <= names@.len(),
            pieces@.len() == i,
            forall|j: int| 0 <= j < i ==> #[trigger] pieces@[j]@ == names@[j]@,
        decreases names@.len() - i,
    {
        pieces.push(chars_of(names[i].as_str()));
        i = i + 1;
    }
    assert(pieces@.map_values(|p: Vec<char>| p@) =~= names@.map_values(|s: String| s@));
    crate::text::string_of(&crate::text::join_chars(&pieces, &chars_of(sep)))
}

/// The type names that are always known: the builtin boxes.
pub open spec fn builtin_type_name(t: Seq<char>) -> bool {
    t == "IntegerBox"@ || t == "StringBox"@ || t == "BoolBox"@ || t == "ArrayBox"@ || t == "MapBox"@
        || t == "FileBox"@ || t == "ResultBox"@ || t == "FutureBox"@ || t == "ChannelBox"@ || t == "MathBox"@
        || t == "TimeBox"@ || t == "DateTimeBox"@ || t == "TimerBox"@ || t == "RandomBox"@ || t == "SoundBox"@
        || t == "DebugBox"@ || t == "MethodBox"@ || t == "NullBox"@ || t == "ConsoleBox"@ || t == "FloatBox"@
        || t == "BufferBox"@ || t == "RegexBox"@ || t == "JSONBox"@ || t == "StreamBox"@ || t == "HTTPClientBox"@
        || t == "IntentBox"@ || t == "P2PBox"@
}

/// The first type argument that is not a known type, if there is one.
pub open spec fn first_unknown_type(decls: Map<Seq<char>, BoxDeclaration>, args: Seq<Seq<char>>) -> Option<Seq<char>>
    decreases args.len(),
{
    if args.len() == 0 {
        None
    } else if !builtin_type_name(args[0]) && !decls.contains_key(args[0]) {
        Some(args[0])
    } else {
        first_unknown_type(decls, args.drop_first())
    }
}

/// Why the type arguments `args` do not fit the box `decl`, if they do not.
pub open spec fn generic_error(decls: Map<Seq<char>, BoxDeclaration>, decl: BoxDeclaration, args: Seq<Seq<char>>) -> Option<ErrSpec> {
    let params = decl.type_parameters@.map_values(|p: String| p@);
    if params.len() != args.len() {
        Some(ErrSpec::TypeError("Generic class '"@ + decl.name@ + "' expects "@ + crate::text::decimal(params.len())
            + " type parameters, got "@ + crate::text::decimal(args.len()) + ". Expected: <"@
            + crate::text::join_text(params, ", "@) + ">, Got: <"@ + crate::text::join_text(args, ", "@) + ">"@))
    } else if params.len() == 0 && args.len() > 0 {
        Some(ErrSpec::TypeError("Class '"@ + decl.name@ + "' is not generic, but got type arguments <"@
            + crate::text::join_text(args, ", "@) + ">"@))
    } else {
        match first_unknown_type(decls, args) {
            Some(t) => Some(ErrSpec::TypeError("Unknown type '"@ + t + "'"@)),
            None => None,
        }
    }
}

impl NyashInterpreter {
    /// Whether `t` names a known type: a builtin box or a declared one.
    pub fn is_valid_type(&self, t: &String) -> (b: bool)
        requires
            self.wf(),
        ensures
            b == (builtin_type_name(t@) || self.shared.box_declarations@.contains_key(t@)),
    {
        is_named(t, "IntegerBox") || is_named(t, "StringBox") || is_named(t, "BoolBox") || is_named(t, "ArrayBox")
            || is_named(t, "MapBox") || is_named(t, "FileBox") || is_named(t, "ResultBox") || is_named(t, "FutureBox")
            || is_named(t, "ChannelBox") || is_named(t, "MathBox") || is_named(t, "TimeBox") || is_named(t, "DateTimeBox")
            || is_named(t, "TimerBox") || is_named(t, "RandomBox") || is_named(t, "SoundBox") || is_named(t, "DebugBox")
            || is_named(t, "MethodBox") || is_named(t, "NullBox") || is_named(t, "ConsoleBox") || is_named(t, "FloatBox")
            || is_named(t, "BufferBox") || is_named(t, "RegexBox") || is_named(t, "JSONBox") || is_named(t, "StreamBox")
            || is_named(t, "HTTPClientBox") || is_named(t, "IntentBox") || is_named(t, "P2PBox")
            || self.shared.box_declarations.contains_key(t)
    }

    /// Checks the type arguments of `new` against the type parameters of
    /// the box: as many of them, and each a known type.
    #[verifier::loop_isolation(false)]
    pub fn validate_generic_arguments(&self, decl: &BoxDeclaration, type_arguments: &Vec<String>) -> (r: Result<(), RuntimeError>)
        requires
            self.wf(),
        ensures
            match generic_error(self.shared.box_declarations@, *decl, names(type_arguments@)) {
                Some(e) => r matches Err(x) && x@ == e,
                None => r is Ok,
            },
    {
        let ghost args = names(type_arguments@);
        let ghost params = decl.type_parameters@.map_values(|p: String| p@);
        let np = decl.type_parameters.len();
        let na = type_arguments.len();
        if np != na {
            let mut m = String::from_str("Generic class '");
            append_text(&mut m, &decl.name);
            m.append("' expects ");
            append_text(&mut m, &crate::methods::decimal_string(np));
            m.append(" type parameters, got ");
            append_text(&mut m, &crate::methods::decimal_string(na));
            m.append(". Expected: <");
            append_text(&mut m, &join_strings(&decl.type_parameters, ", "));
            m.append(">, Got: <");
            append_text(&mut m, &join_strings(type_arguments, ", "));
            m.append(">");
            return Err(RuntimeError::TypeError { message: m });
        }
        if np == 0 && na > 0 {
            let mut m = String::from_str("Class '");
            append_text(&mut m, &decl.name);
            m.append("' is not generic, but got type arguments <");
            append_text(&mut m, &join_strings(type_arguments, ", "));
            m.append(">");
            return Err(RuntimeError::TypeError { message: m });
        }
        assert(params.len() == np && args.len() == na);
        assert(args.skip(0) =~= args);
        let mut i: usize = 0;
        while i < na
            invariant
                self.wf(),
                params.len() == na,
                !(params.len() == 0 && args.len() > 0),
                na == type_arguments@.len(),
                args == names(type_arguments@),
                i <= na,
                first_unknown_type(self.shared.box_declarations@, args) == first_unknown_type(self.shared.box_declarations@, args.skip(i as int)),
            decreases na - i,
        {
            assert(args.skip(i as int).drop_first() =~= args.skip(i + 1));
            assert(args.skip(i as int)[0] == type_arguments@[i as int]@);
            if !self.is_valid_type(&type_arguments[i]) {
                return Err(invalid_type(&type_arguments[i]));
            }
            i = i + 1;
        }
        assert(args.skip(na as int) =~= Seq::<Seq<char>>::empty());
        Ok(())
    }
}

fn invalid_type(t: &String) -> (e: RuntimeError)
    ensures
        e@ == ErrSpec::TypeError("Unknown type '"@ + t@ + "'"@),
{
    let mut m = String::from_str("Unknown type '");
    append_text(&mut m, t);
    m.append("'");
    RuntimeError::TypeError { message: m }
}


/// The hash of a sequence of bytes: each byte is added to 31 times the hash
/// of those before it, wrapping at the width of `usize`.
pub open spec fn hash_bytes(b: Seq<u8>) -> usize
    decreases b.len(),
{
    if b.len() == 0 {
        0
    } else {
        vstd::wrapping::usize_specs::wrapping_add(
            vstd::wrapping::usize_specs::wrapping_mul(hash_bytes(b.drop_last()), 31),
            b.last() as usize,
        )
    }
}

/// The hash of the UTF-8 bytes of `s`.
pub fn hash_string(s: &str) -> (r: usize)
    ensures
        r == hash_bytes(s.spec_bytes()),
{
    let bytes = s.as_bytes();
    let mut hash: usize = 0;
    let mut i: usize = 0;
    while i < bytes.len()
        invariant
            i <= bytes@.len(),
            bytes@ == s.spec_bytes(),
            hash == hash_bytes(bytes@.take(i as int)),
        decreases bytes@.len() - i,
    {
        assert(bytes@.take(i + 1).drop_last() =~= bytes@.take(i as int));
        hash = hash.wrapping_mul(31).wrapping_add(bytes[i] as usize);
        i = i + 1;
    }
    assert(bytes@.take(bytes@.len() as int) =~= bytes@);
    hash
}

/// The identity under which a node is tracked: a variable by the hash of its
/// name, `me` and `this` by the two largest ids; other nodes have none.
pub fn get_object_id(node: &ASTNode) -> (r: Option<usize>)
    ensures
        match *node {
            ASTNode::Variable { name, .. } => r == Some(hash_bytes(vstd::utf8::encode_utf8(name@))),
            ASTNode::Me => r == Some(usize::MAX),
            ASTNode::This => r == Some((usize::MAX - 1) as usize),
            _ => r is None,
        },
{
    match node {
        ASTNode::Variable { name, .. } => Some(hash_string(name.as_str())),
        ASTNode::Me => Some(usize::MAX),
        ASTNode::This => Some(usize::MAX - 1),
        _ => None,
    }
}

impl NyashInterpreter {
    /// Registers a top-level function given by its name, parameters and body;
    /// a name already defined keeps its first definition.
    pub fn register_function_declaration(&mut self, name: String, params: Vec<String>, body: Vec<ASTNode>)
        requires
            old(self).wf(),
        ensures
            final(self).wf(),
            old(self).shared.global_box.methods@.contains_key(name@) ==>
                final(self).shared.global_box.methods == old(self).shared.global_box.methods,
            !old(self).shared.global_box.methods@.contains_key(name@) ==> {
                &&& final(self).shared.global_box.methods@.contains_key(name@)
                &&& final(self).shared.global_box.methods@[name@].name@ == name@
                &&& final(self).shared.global_box.methods@[name@].params == params
                &&& final(self).shared.global_box.methods@[name@].body == body
                &&& !final(self).shared.global_box.methods@[name@].is_static
            },
            final(self).shared.global_box.fields == old(self).shared.global_box.fields,
            final(self).local_vars == old(self).local_vars,
    {
        let func = Rc::new(FunctionDecl { name: name.clone(), params, body, is_static: false });
        match self.register_global_function(name, func) {
            Ok(()) => {},
            Err(_) => {},
        }
    }
}

} // verus!
