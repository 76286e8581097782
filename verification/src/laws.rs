//! Laws that tie the operations of the interpreter together.

use vstd::prelude::*;
use std::rc::Rc;
use crate::assoc::AssocMap;
use crate::ast::{ASTNode, BinaryOperator, FunctionDecl};
use crate::errors::ErrSpec;
use crate::eval::{static_init_post, fini_target, instance_at, weak_field_spec, field_read_spec, new_instance_post,
    inherit_spec, parents_spec, with_missing, names, builtin_box_name};
use crate::state::BoxDeclaration;
use crate::heap::HeapObject;
use crate::interp::{invalidation_post, weak_target_id, NyashInterpreter, set_variable_post, declare_local_post, register_function_post};
use crate::methods::{map_step, array_mut_spec, array_read_spec};
use crate::ops::{binary_op_spec, values_equal, trunc_div, trunc_rem};
use crate::value::{NyashBox, BoxSpec};

verus! {

/// A variable reads back the value last assigned to it.
pub proof fn law_read_after_write(s: NyashInterpreter, t: NyashInterpreter, name: Seq<char>, value: NyashBox)
    requires
        set_variable_post(s, t, name, value),
    ensures
        t.resolve_spec(name) == Some(value@),
{
}

/// Assigning one variable leaves every other name reading as it did, unless
/// the name assigned is "statics", the namespace of the static boxes.
pub proof fn law_write_leaves_other_names(s: NyashInterpreter, t: NyashInterpreter, name: Seq<char>,
    other: Seq<char>, value: NyashBox)
    requires
        set_variable_post(s, t, name, value),
        other != name,
        name != "statics"@,
    ensures
        t.resolve_spec(other) == s.resolve_spec(other),
{
    if !s.outbox_vars@.contains_key(name) && !s.local_vars@.contains_key(name) {
        assert(t.shared.global_box.fields@.contains_key("statics"@) == s.shared.global_box.fields@.contains_key("statics"@));
        if s.shared.global_box.fields@.contains_key("statics"@) {
            assert(t.shared.global_box.fields@["statics"@] == s.shared.global_box.fields@["statics"@]);
        }
        assert(crate::interp::statics_field(t.shared) == crate::interp::statics_field(s.shared));
    }
}

/// A local variable reads back the value it was declared with, unless an
/// outbox variable of the same name hides it.
pub proof fn law_local_after_declare(s: NyashInterpreter, t: NyashInterpreter, name: Seq<char>, value: NyashBox)
    requires
        declare_local_post(s, t, name, value),
        !s.outbox_vars@.contains_key(name),
    ensures
        t.resolve_spec(name) == Some(value@),
{
}

/// A static box is initialized once: when an initialization has succeeded,
/// a second one succeeds at once and changes nothing.
pub proof fn law_static_init_once(s0: NyashInterpreter, s1: NyashInterpreter, s2: NyashInterpreter, name: Seq<char>,
    r1: Result<(), crate::errors::RuntimeError>, r2: Result<(), crate::errors::RuntimeError>)
    requires
        static_init_post(s0, s1, name, r1),
        r1 is Ok,
        static_init_post(s1, s2, name, r2),
    ensures
        r2 is Ok,
        s2 == s1,
{
}

/// A static box whose initialization is under way cannot be initialized from
/// within it: that is a circular dependency, and nothing changes.
pub proof fn law_static_init_circular(s: NyashInterpreter, t: NyashInterpreter, name: Seq<char>,
    r: Result<(), crate::errors::RuntimeError>)
    requires
        s.shared.static_box_definitions@.contains_key(name),
        s.shared.static_box_definitions@[name].initialization_state is Initializing,
        static_init_post(s, t, name, r),
    ensures
        r matches Err(e) && e@ == ErrSpec::RuntimeFailure(
            "Circular dependency detected during initialization of static box '"@ + name + "'"@),
        t == s,
{
}

/// A top-level function is defined once: registering a name a second time
/// fails, and the first definition stays.
pub proof fn law_function_defined_once(s0: NyashInterpreter, s1: NyashInterpreter, s2: NyashInterpreter,
    name: Seq<char>, f: Rc<FunctionDecl>, g: Rc<FunctionDecl>,
    r1: Result<(), crate::errors::RuntimeError>, r2: Result<(), crate::errors::RuntimeError>)
    requires
        register_function_post(s0, s1, name, f, r1),
        r1 is Ok,
        register_function_post(s1, s2, name, g, r2),
    ensures
        r2 matches Err(e) && e@ == ErrSpec::InvalidOperation("Function '"@ + name + "' is already defined"@),
        s2.shared.global_box.methods@[name] == f,
{
}

/// A map gives back what was set under a key, and holds that key.
pub proof fn law_map_set_then_get(heap: Seq<HeapObject>, d: AssocMap<NyashBox>, d2: AssocMap<NyashBox>, k: NyashBox, v: NyashBox)
    requires
        d2@ == map_step(heap, d, "set"@, seq![k, v]).entries,
    ensures
        map_step(heap, d2, "get"@, seq![k]).result == Ok::<BoxSpec, ErrSpec>(v@),
        map_step(heap, d2, "has"@, seq![k]).result == Ok::<BoxSpec, ErrSpec>(BoxSpec::BoolBox(true)),
{
    reveal_strlit("set");
    reveal_strlit("get");
    reveal_strlit("has");
    assert("get"@ != "set"@) by { assert("get"@[0] != "set"@[0]); }
    assert("has"@ != "set"@) by { assert("has"@[0] != "set"@[0]); }
    assert("has"@ != "get"@) by { assert("has"@[0] != "get"@[0]); }
    assert(seq![k][0] == k);
    assert(seq![k, v][0] == k && seq![k, v][1] == v);
}

/// A key deleted from a map is no longer in it.
pub proof fn law_map_delete_then_has(heap: Seq<HeapObject>, d: AssocMap<NyashBox>, d2: AssocMap<NyashBox>, k: NyashBox)
    requires
        d2@ == map_step(heap, d, "delete"@, seq![k]).entries,
    ensures
        map_step(heap, d2, "has"@, seq![k]).result == Ok::<BoxSpec, ErrSpec>(BoxSpec::BoolBox(false)),
{
    reveal_strlit("set");
    reveal_strlit("get");
    reveal_strlit("has");
    reveal_strlit("containsKey");
    reveal_strlit("delete");
    assert("has"@ != "set"@) by { assert("has"@[0] != "set"@[0]); }
    assert("has"@ != "get"@) by { assert("has"@[0] != "get"@[0]); }
    assert("delete"@ != "set"@) by { assert("delete"@.len() != "set"@.len()); }
    assert("delete"@ != "get"@) by { assert("delete"@.len() != "get"@.len()); }
    assert("delete"@ != "has"@) by { assert("delete"@.len() != "has"@.len()); }
    assert("delete"@ != "containsKey"@) by { assert("delete"@.len() != "containsKey"@.len()); }
    assert(seq![k][0] == k);
}

/// `pop` gives back what `push` put on an array, and leaves the array as it
/// was before the push.
pub proof fn law_array_push_then_pop(items: Seq<BoxSpec>, x: BoxSpec)
    ensures
        array_mut_spec(array_mut_spec(items, "push"@, seq![x]).items, "pop"@, Seq::empty()).result
            == Ok::<BoxSpec, ErrSpec>(x),
        array_mut_spec(array_mut_spec(items, "push"@, seq![x]).items, "pop"@, Seq::empty()).items == items,
{
    reveal_strlit("push");
    reveal_strlit("pop");
    assert(items.push(x).drop_last() =~= items);
}

/// After `push`, the element at the old length is the one pushed.
pub proof fn law_array_push_then_get(heap: Seq<HeapObject>, items: Seq<BoxSpec>, x: BoxSpec)
    requires
        items.len() <= i64::MAX,
        items.len() <= usize::MAX,
    ensures
        array_read_spec(heap, array_mut_spec(items, "push"@, seq![x]).items, "get"@,
            seq![BoxSpec::IntegerBox(items.len() as i64)]) == Ok::<BoxSpec, ErrSpec>(x),
{
    reveal_strlit("push");
    reveal_strlit("get");
    reveal_strlit("length");
    let i: i64 = items.len() as i64;
    assert(i == items.len());
    assert((i as usize) == items.len());
    assert(seq![BoxSpec::IntegerBox(i)][0] == BoxSpec::IntegerBox(i));
}

/// `==` does not depend on the order of its operands, and `!=` is its negation.
pub proof fn law_equality(heap: Seq<HeapObject>, l: BoxSpec, r: BoxSpec)
    ensures
        binary_op_spec(heap, BinaryOperator::Equal, l, r) == binary_op_spec(heap, BinaryOperator::Equal, r, l),
        binary_op_spec(heap, BinaryOperator::Equal, l, r) == Ok::<BoxSpec, ErrSpec>(BoxSpec::BoolBox(values_equal(l, r))),
        binary_op_spec(heap, BinaryOperator::NotEqual, l, r) == Ok::<BoxSpec, ErrSpec>(BoxSpec::BoolBox(!values_equal(l, r))),
{
}

/// Integer division and remainder fit together: the dividend is the divisor
/// times the quotient plus the remainder, the remainder is smaller than the
/// divisor in size, and it has the sign of the dividend.
pub proof fn law_division(a: int, b: int)
    requires
        b != 0,
    ensures
        a == b * trunc_div(a, b) + trunc_rem(a, b),
        (if trunc_rem(a, b) < 0 { -trunc_rem(a, b) } else { trunc_rem(a, b) })
            < (if b < 0 { -b } else { b }),
        trunc_rem(a, b) != 0 ==> (trunc_rem(a, b) < 0) == (a < 0),
{
    let aa = if a < 0 { -a } else { a };
    let bb = if b < 0 { -b } else { b };
    let q = aa / bb;
    let m = aa % bb;
    assert(aa == bb * q + m && 0 <= m < bb) by (nonlinear_arith)
        requires
            bb > 0,
            aa >= 0,
            q == aa / bb,
            m == aa % bb,
    ;
    if (a < 0) != (b < 0) {
        assert(trunc_div(a, b) == -q);
        if a < 0 {
            assert(a == -aa && b == bb);
            assert(trunc_rem(a, b) == -aa + bb * q) by (nonlinear_arith)
                requires
                    a == -aa,
                    b == bb,
                    trunc_rem(a, b) == a - b * (-q),
            ;
        } else {
            assert(a == aa && b == -bb);
            assert(trunc_rem(a, b) == aa - bb * q) by (nonlinear_arith)
                requires
                    a == aa,
                    b == -bb,
                    trunc_rem(a, b) == a - b * (-q),
            ;
        }
    } else {
        assert(trunc_div(a, b) == q);
        if a < 0 {
            assert(trunc_rem(a, b) == -aa + bb * q) by (nonlinear_arith)
                requires
                    a == -aa,
                    b == -bb,
                    trunc_rem(a, b) == a - b * q,
            ;
        } else {
            assert(trunc_rem(a, b) == aa - bb * q) by (nonlinear_arith)
                requires
                    a == aa,
                    b == bb,
                    trunc_rem(a, b) == a - b * q,
            ;
        }
    }
}


/// A variable assigned the value of an expression reads back as that value.
pub proof fn law_assign_then_read(s: NyashInterpreter, t: NyashInterpreter, name: String, span: crate::errors::Span,
    value: NyashBox)
    requires
        set_variable_post(s, t, name@, value),
    ensures
        crate::eval::pure_eval(t, crate::ast::ASTNode::Variable { name, span }) == Ok::<BoxSpec, ErrSpec>(value@),
{
    law_read_after_write(s, t, name@, value);
}

/// Once `x.fini()` has finalized an instance (`execute_method_call` then
/// records it), a weak field that holds that instance reads null.
pub proof fn law_weak_field_null_after_fini(s: NyashInterpreter, t: NyashInterpreter, object: ASTNode,
    g: usize, field: Seq<char>)
    requires
        fini_target(s, object) is Some,
        t.invalidated_ids@.contains(fini_target(s, object)->0 as u64),
        instance_at(t.shared.heap@, g) is Some,
        instance_at(t.shared.heap@, g)->0.fields@.contains_key(field),
        instance_at(t.shared.heap@, g)->0.fields@[field]@ == BoxSpec::InstanceBox(fini_target(s, object)->0),
        weak_field_spec(t, instance_at(t.shared.heap@, g)->0.class_name@, field),
    ensures
        field_read_spec(t, BoxSpec::InstanceBox(g), field) == Ok::<BoxSpec, ErrSpec>(BoxSpec::NullBox),
{
}

/// Every field of an instance that `new` has just made without running a
/// constructor reads void.
pub proof fn law_new_fields_read_void(s: NyashInterpreter, t: NyashInterpreter, class: Seq<char>,
    targs: Seq<Seq<char>>, fuel: nat, field: Seq<char>)
    requires
        new_instance_post(s, t, class, targs, fuel),
        s.shared.box_declarations@.contains_key(class),
        inherit_spec(s.shared.box_declarations@, s.shared.box_declarations@[class], fuel)->Ok_0.0.contains(field),
    ensures
        field_read_spec(t, BoxSpec::InstanceBox(s.shared.heap@.len() as usize), field) == Ok::<BoxSpec, ErrSpec>(BoxSpec::VoidBox),
{
    let h = s.shared.heap@.len() as usize;
    let inst = instance_at(t.shared.heap@, h)->0;
    assert(inst.fields@.contains_key(field));
    assert(inst.fields@[field]@ == BoxSpec::VoidBox);
}

/// A box's own methods override those it inherits.
pub proof fn law_own_methods_override(decls: Map<Seq<char>, BoxDeclaration>, decl: BoxDeclaration, fuel: nat, m: Seq<char>)
    requires
        inherit_spec(decls, decl, fuel) is Ok,
        decl.methods@.contains_key(m),
    ensures
        inherit_spec(decls, decl, fuel)->Ok_0.1.contains_key(m),
        inherit_spec(decls, decl, fuel)->Ok_0.1[m] == decl.methods@[m],
{
}

/// Adding the missing init fields keeps every field already there.
proof fn lemma_with_missing_keeps(fields: Seq<Seq<char>>, extra: Seq<Seq<char>>, f: Seq<char>)
    requires
        fields.contains(f),
    ensures
        with_missing(fields, extra).contains(f),
    decreases extra.len(),
{
    if extra.len() > 0 {
        lemma_with_missing_keeps(fields, extra.drop_last(), f);
        let w = with_missing(fields, extra.drop_last());
        if !w.contains(extra.last()) {
            let i = choose|i: int| 0 <= i < w.len() && w[i] == f;
            assert(w.push(extra.last())[i] == f);
        }
    }
}

/// What each declared parent passes on is among what all the parents pass on.
proof fn lemma_parents_pass_on(decls: Map<Seq<char>, BoxDeclaration>, ps: Seq<Seq<char>>, fuel: nat, i: int)
    requires
        parents_spec(decls, ps, fuel) is Ok,
        0 <= i < ps.len(),
        !builtin_box_name(ps[i]),
    ensures
        decls.contains_key(ps[i]),
        !decls[ps[i]].is_interface,
        inherit_spec(decls, decls[ps[i]], fuel) is Ok,
        forall|f: Seq<char>| inherit_spec(decls, decls[ps[i]], fuel)->Ok_0.0.contains(f)
            ==> #[trigger] parents_spec(decls, ps, fuel)->Ok_0.0.contains(f),
        forall|m: Seq<char>| inherit_spec(decls, decls[ps[i]], fuel)->Ok_0.1.contains_key(m)
            ==> #[trigger] parents_spec(decls, ps, fuel)->Ok_0.1.contains_key(m),
    decreases ps.len(),
{
    let rest = parents_spec(decls, ps.drop_last(), fuel);
    if i == ps.len() - 1 {
        let pf = inherit_spec(decls, decls[ps[i]], fuel)->Ok_0.0;
        let fs = rest->Ok_0.0;
        assert forall|f: Seq<char>| pf.contains(f) implies #[trigger] (fs + pf).contains(f) by {
            let k = choose|k: int| 0 <= k < pf.len() && pf[k] == f;
            assert((fs + pf)[fs.len() + k] == f);
        }
    } else {
        assert(ps.drop_last()[i] == ps[i]);
        lemma_parents_pass_on(decls, ps.drop_last(), fuel, i);
        let fs = rest->Ok_0.0;
        let p = ps.last();
        if !builtin_box_name(p) {
            let pf = inherit_spec(decls, decls[p], fuel)->Ok_0.0;
            assert forall|f: Seq<char>| fs.contains(f) implies #[trigger] (fs + pf).contains(f) by {
                let k = choose|k: int| 0 <= k < fs.len() && fs[k] == f;
                assert((fs + pf)[k] == f);
            }
        }
    }
}

/// A box that extends a declared box has all of that box's fields and
/// methods, whatever the other boxes it extends pass on.
pub proof fn law_parent_fields_inherited(decls: Map<Seq<char>, BoxDeclaration>, decl: BoxDeclaration, fuel: nat, i: int)
    requires
        inherit_spec(decls, decl, fuel) is Ok,
        0 <= i < decl.extends@.len(),
        !builtin_box_name(decl.extends@[i]@),
    ensures
        decls.contains_key(decl.extends@[i]@),
        inherit_spec(decls, decls[decl.extends@[i]@], (fuel - 1) as nat) is Ok,
        forall|f: Seq<char>| inherit_spec(decls, decls[decl.extends@[i]@], (fuel - 1) as nat)->Ok_0.0.contains(f)
            ==> #[trigger] inherit_spec(decls, decl, fuel)->Ok_0.0.contains(f),
        forall|m: Seq<char>| inherit_spec(decls, decls[decl.extends@[i]@], (fuel - 1) as nat)->Ok_0.1.contains_key(m)
            ==> #[trigger] inherit_spec(decls, decl, fuel)->Ok_0.1.contains_key(m),
{
    let ps = names(decl.extends@);
    let f1 = (fuel - 1) as nat;
    assert(ps[i] == decl.extends@[i]@);
    lemma_parents_pass_on(decls, ps, f1, i);
    let pf = parents_spec(decls, ps, f1)->Ok_0.0;
    let own = names(decl.fields@);
    assert forall|f: Seq<char>| inherit_spec(decls, decls[ps[i]], f1)->Ok_0.0.contains(f)
        implies #[trigger] inherit_spec(decls, decl, fuel)->Ok_0.0.contains(f) by {
        assert(pf.contains(f));
        let k = choose|k: int| 0 <= k < pf.len() && pf[k] == f;
        assert((pf + own)[k] == f);
        lemma_with_missing_keeps(pf + own, names(decl.init_fields@), f);
    }
}

/// Invalidating the same target twice records it once: the second time
/// changes nothing, and the id it names is recorded.
pub proof fn law_invalidation_idempotent(a: Seq<u64>, b: Seq<u64>, c: Seq<u64>, info: Seq<char>)
    requires
        invalidation_post(a, b, info),
        invalidation_post(b, c, info),
    ensures
        c == b,
        weak_target_id(info) matches Some(id) ==> b.contains(id),
{
    if let Some(id) = weak_target_id(info) {
        if !a.contains(id) {
            assert(b[a.len() as int] == id);
        }
    }
}


/// A run of top-level statements that succeeds (where no static `Main.main`
/// runs after it) leaves the flag that says whether a statement's value is
/// thrown away as it found it.
pub proof fn law_program_keeps_discard_flag(s: NyashInterpreter, stmts: Seq<ASTNode>, last: NyashBox,
    t: NyashInterpreter, v: NyashBox, fuel: int)
    requires
        crate::eval::prog_rel(s, stmts, last, t, Ok::<NyashBox, crate::errors::RuntimeError>(v), false, fuel),
    ensures
        t.discard_context == s.discard_context,
    decreases stmts.len(),
{
    if stmts.len() > 0 {
        let s0 = crate::eval::with_discard(s, crate::eval::not_last(stmts.len()));
        let (m, r1) = choose|m: NyashInterpreter, r1: Result<NyashBox, crate::errors::RuntimeError>|
            #[trigger] crate::eval::stmt_post(s0, stmts[0], fuel, m, r1) && match r1 {
                Err(_) => t == m && Ok::<NyashBox, crate::errors::RuntimeError>(v) == r1,
                Ok(w) => {
                    let m2 = crate::eval::with_discard(m, s.discard_context);
                    match m2.control_flow {
                        crate::interp::ControlFlow::Normal => crate::eval::prog_rel(m2, stmts.drop_first(), w, t,
                            Ok::<NyashBox, crate::errors::RuntimeError>(v), false, fuel),
                        crate::interp::ControlFlow::Break => t == m2 && Ok::<NyashBox, crate::errors::RuntimeError>(v)
                            == Err::<NyashBox, crate::errors::RuntimeError>(crate::errors::RuntimeError::BreakOutsideLoop),
                        crate::interp::ControlFlow::Continue => t == m2 && Ok::<NyashBox, crate::errors::RuntimeError>(v)
                            == Err::<NyashBox, crate::errors::RuntimeError>(crate::errors::RuntimeError::BreakOutsideLoop),
                        crate::interp::ControlFlow::Return(_) => t == m2 && Ok::<NyashBox, crate::errors::RuntimeError>(v)
                            == Err::<NyashBox, crate::errors::RuntimeError>(crate::errors::RuntimeError::ReturnOutsideFunction),
                        crate::interp::ControlFlow::Throw(_) => t == m2 && Ok::<NyashBox, crate::errors::RuntimeError>(v)
                            == Err::<NyashBox, crate::errors::RuntimeError>(crate::errors::RuntimeError::UncaughtException),
                    }
                },
            };
        let w = r1->Ok_0;
        let m2 = crate::eval::with_discard(m, s.discard_context);
        law_program_keeps_discard_flag(m2, stmts.drop_first(), w, t, v, fuel);
    }
}

/// A second `x.fini()` on an instance that a first one finalized gives
/// void and changes nothing, where `x` still names that instance and is no
/// weak field of `me`.
pub proof fn law_second_fini_is_void(s0: NyashInterpreter, s1: NyashInterpreter, s2: NyashInterpreter, object: ASTNode,
    r1: Result<NyashBox, crate::errors::RuntimeError>, r2: Result<NyashBox, crate::errors::RuntimeError>)
    requires
        crate::eval::fini_post(s0, s1, object, r1),
        r1 is Ok,
        fini_target(s0, object) is Some,
        fini_target(s1, object) == fini_target(s0, object),
        crate::eval::fini_refusal(s1, object) is None,
        crate::eval::fini_post(s1, s2, object, r2),
    ensures
        r2 matches Ok(v) && v@ == BoxSpec::VoidBox,
        s2 == s1,
{
    assert(crate::eval::fini_again(s1, object));
}

/// A static box declared again (its definition back to not initialized, as
/// `register_static_box_declaration` leaves it) is initialized again by the
/// next initialization: with no initializer that succeeds, and a success
/// leaves the box initialized with a new singleton, one that was not in the
/// heap before. This holds where the statics namespace is an instance and
/// the initializer, if any, only reads the state.
pub proof fn law_redeclared_static_box_initializes_again(s1: NyashInterpreter, s2: NyashInterpreter, s3: NyashInterpreter,
    name: Seq<char>, d: crate::state::StaticBoxDefinition, fuel: int, r: Result<(), crate::errors::RuntimeError>)
    requires
        s2.shared.static_box_definitions@ == s1.shared.static_box_definitions@.insert(name, d),
        d.initialization_state is NotInitialized,
        crate::eval::statics_ok(s2),
        fuel > 1,
        d.static_init is None || crate::eval::all_pure(d.static_init->0@, fuel - 1),
        crate::eval::first_init_post(s2, s3, name, fuel, r),
    ensures
        d.static_init is None ==> r is Ok,
        r is Ok ==> s3.shared.static_box_definitions@.contains_key(name)
            && s3.shared.static_box_definitions@[name].initialization_state is Initialized
            && crate::eval::singleton_made(s3, name, d)
            && crate::eval::singleton_of(s3, name)->0 >= s2.shared.heap@.len(),
{
    assert(s2.shared.static_box_definitions@[name] == d);
}

/// Declaring a static box again makes the next initialization run its
/// initializer again, whatever the initializer does: with none, the
/// initialization succeeds; with one, its statements run anew with `me`
/// bound to a singleton made for this initialization, and the
/// initialization succeeds exactly when they do, leaving the box
/// initialized. This holds where the statics namespace is an instance.
pub proof fn law_redeclared_static_box_runs_initializer_again(s1: NyashInterpreter, s2: NyashInterpreter,
    s3: NyashInterpreter, name: Seq<char>, d: crate::state::StaticBoxDefinition, fuel: int,
    r: Result<(), crate::errors::RuntimeError>)
    requires
        s2.shared.static_box_definitions@ == s1.shared.static_box_definitions@.insert(name, d),
        d.initialization_state is NotInitialized,
        crate::eval::statics_ok(s2),
        fuel > 1,
        crate::eval::init_any_post(s2, s3, name, fuel, r),
    ensures
        d.static_init is None ==> r is Ok,
        d.static_init is Some ==> exists|m: NyashInterpreter, u: NyashInterpreter, ri: Result<(), crate::errors::RuntimeError>|
            #![trigger crate::eval::init_scope(s2, m, name, d), crate::eval::init_run(m, d.static_init->0@, fuel - 1, u, ri)]
            crate::eval::init_scope(s2, m, name, d) && crate::eval::init_run(m, d.static_init->0@, fuel - 1, u, ri)
            && (r is Ok <==> ri is Ok),
        r is Ok ==> s3.shared.static_box_definitions@.contains_key(name)
            && s3.shared.static_box_definitions@[name].initialization_state is Initialized,
{
    assert(s2.shared.static_box_definitions@[name] == d);
}

/// A `return` that the body of a loop leaves pending ends the loop and stays
/// pending, with its value, for the enclosing function: where the condition
/// holds without changing anything and every run of the body leaves
/// `return v` pending, the loop ends normally with `return v` still pending.
pub proof fn law_loop_leaves_return_pending(s: NyashInterpreter, cond: ASTNode, body: Seq<ASTNode>, fuel: int,
    rounds: int, t: NyashInterpreter, r: Result<(), crate::errors::RuntimeError>, v: NyashBox)
    requires
        rounds > 0,
        crate::eval::loop_rel(s, cond, body, fuel, rounds, t, r),
        forall|m0: NyashInterpreter, c: Result<NyashBox, crate::errors::RuntimeError>|
            #[trigger] crate::eval::expr_post(s, cond, fuel, m0, c)
                ==> m0 == s && (c matches Ok(x) && crate::ops::truthy(x@)),
        forall|m1: NyashInterpreter, rb: Result<NyashBox, crate::errors::RuntimeError>|
            #[trigger] crate::eval::gblock_rel(s, body, NyashBox::VoidBox, fuel - 1, m1, rb)
                ==> rb is Ok && m1.control_flow == crate::interp::ControlFlow::Return(v),
    ensures
        r is Ok,
        t.control_flow == crate::interp::ControlFlow::Return(v),
{
}

/// The ordering operators agree on integers with the order of the
/// integers: `<`, `>`, `<=` and `>=` give exactly `a < b`, `a > b`,
/// `a <= b` and `a >= b`.
pub proof fn law_integer_comparisons(heap: Seq<HeapObject>, a: i64, b: i64)
    ensures
        binary_op_spec(heap, BinaryOperator::Less, BoxSpec::IntegerBox(a), BoxSpec::IntegerBox(b))
            == Ok::<BoxSpec, ErrSpec>(BoxSpec::BoolBox(a < b)),
        binary_op_spec(heap, BinaryOperator::Greater, BoxSpec::IntegerBox(a), BoxSpec::IntegerBox(b))
            == Ok::<BoxSpec, ErrSpec>(BoxSpec::BoolBox(a > b)),
        binary_op_spec(heap, BinaryOperator::LessEqual, BoxSpec::IntegerBox(a), BoxSpec::IntegerBox(b))
            == Ok::<BoxSpec, ErrSpec>(BoxSpec::BoolBox(a <= b)),
        binary_op_spec(heap, BinaryOperator::GreaterEqual, BoxSpec::IntegerBox(a), BoxSpec::IntegerBox(b))
            == Ok::<BoxSpec, ErrSpec>(BoxSpec::BoolBox(a >= b)),
{
}

/// A field that its box's declaration does not mark weak reads the value
/// stored in it, whatever instances have been finalized: two states that
/// differ at most in which instances are finalized read it alike.
pub proof fn law_strong_field_keeps_its_value(s: NyashInterpreter, t: NyashInterpreter, h: usize, field: Seq<char>)
    requires
        instance_at(s.shared.heap@, h) is Some,
        instance_at(s.shared.heap@, h)->0.fields@.contains_key(field),
        !weak_field_spec(s, instance_at(s.shared.heap@, h)->0.class_name@, field),
        t.shared == s.shared,
    ensures
        field_read_spec(s, BoxSpec::InstanceBox(h), field)
            == Ok::<BoxSpec, ErrSpec>(instance_at(s.shared.heap@, h)->0.fields@[field]@),
        field_read_spec(t, BoxSpec::InstanceBox(h), field) == field_read_spec(s, BoxSpec::InstanceBox(h), field),
{
}

/// Strings are totally ordered by `text_less`: exactly one of `a < b`,
/// `a == b` and `b < a` holds.
proof fn lemma_text_order(a: Seq<char>, b: Seq<char>)
    ensures
        crate::text::text_less(a, b) ==> !crate::text::text_less(b, a) && a != b,
        !crate::text::text_less(a, b) && a != b ==> crate::text::text_less(b, a),
    decreases a.len(),
{
    if a.len() > 0 && b.len() > 0 && a[0] == b[0] {
        lemma_text_order(a.drop_first(), b.drop_first());
        if a.drop_first() == b.drop_first() {
            assert(a =~= seq![a[0]] + a.drop_first());
            assert(b =~= seq![b[0]] + b.drop_first());
        }
        if a == b {
            assert(a.drop_first() == b.drop_first());
        }
    } else if a.len() == 0 && b.len() == 0 {
        assert(a =~= b);
    } else if a.len() > 0 && b.len() > 0 {
        assert(a != b);
        vstd::utf8::char_u32_cast(a[0], a[0] as u32);
        vstd::utf8::char_u32_cast(b[0], b[0] as u32);
    }
}

/// For values that can be ordered (two integers or two strings), `l <= r`
/// holds exactly when `r < l` does not, `l >= r` is `r <= l`, and `l > r`
/// is `r < l`; in particular `l <= l` always holds.
pub proof fn law_ordering_duality(heap: Seq<HeapObject>, l: BoxSpec, r: BoxSpec)
    requires
        crate::ops::less_spec(l, r) is Some,
    ensures
        crate::ops::less_spec(r, l) is Some,
        binary_op_spec(heap, BinaryOperator::LessEqual, l, r)
            == Ok::<BoxSpec, ErrSpec>(BoxSpec::BoolBox(!crate::ops::less_spec(r, l)->0)),
        binary_op_spec(heap, BinaryOperator::GreaterEqual, l, r) == binary_op_spec(heap, BinaryOperator::LessEqual, r, l),
        binary_op_spec(heap, BinaryOperator::Greater, l, r) == binary_op_spec(heap, BinaryOperator::Less, r, l),
        binary_op_spec(heap, BinaryOperator::LessEqual, l, l) == Ok::<BoxSpec, ErrSpec>(BoxSpec::BoolBox(true)),
{
    match (l, r) {
        (BoxSpec::StringBox(a), BoxSpec::StringBox(b)) => {
            lemma_text_order(a, b);
            lemma_text_order(a, a);
        },
        _ => {},
    }
}

/// Whether `k` is among the methods that one of the declared boxes `decl`
/// extends resolves to, with `fuel`.
pub open spec fn inherited_method(decls: Map<Seq<char>, BoxDeclaration>, decl: BoxDeclaration, fuel: nat, k: Seq<char>) -> bool {
    exists|p: int| 0 <= p < decl.extends@.len() && !builtin_box_name(decl.extends@[p]@)
        && decls.contains_key(decl.extends@[p]@)
        && inherit_spec(decls, decls[decl.extends@[p]@], fuel) is Ok
        && #[trigger] inherit_spec(decls, decls[decl.extends@[p]@], fuel)->Ok_0.1.contains_key(k)
}

/// Each of `required` is a key of `methods`: no method is missing.
proof fn lemma_no_missing_method(class: Seq<char>, iface: Seq<char>, required: Seq<Seq<char>>,
    methods: Map<Seq<char>, Rc<FunctionDecl>>)
    requires
        forall|k: Seq<char>| required.contains(k) ==> #[trigger] methods.contains_key(k),
    ensures
        crate::eval::missing_method(class, iface, required, methods) is None,
    decreases required.len(),
{
    if required.len() > 0 {
        assert forall|k: Seq<char>| required.drop_last().contains(k) implies #[trigger] methods.contains_key(k) by {
            let j = choose|j: int| 0 <= j < required.drop_last().len() && required.drop_last()[j] == k;
            assert(required[j] == k);
        }
        lemma_no_missing_method(class, iface, required.drop_last(), methods);
        assert(required.contains(required.last()));
    }
}

/// Interfaces whose declared methods are all keys of `methods` raise no error.
proof fn lemma_interfaces_met(decls: Map<Seq<char>, BoxDeclaration>, class: Seq<char>, ifaces: Seq<Seq<char>>,
    methods: Map<Seq<char>, Rc<FunctionDecl>>)
    requires
        forall|j: int| 0 <= j < ifaces.len() ==> decls.contains_key(#[trigger] ifaces[j]) && decls[ifaces[j]].is_interface,
        forall|j: int, k: Seq<char>| 0 <= j < ifaces.len() && #[trigger] decls[ifaces[j]].methods.key_seq().contains(k)
            ==> methods.contains_key(k),
    ensures
        crate::eval::implements_error(decls, class, ifaces, methods) is None,
    decreases ifaces.len(),
{
    if ifaces.len() > 0 {
        let rest = ifaces.drop_last();
        assert forall|j: int| 0 <= j < rest.len() implies decls.contains_key(#[trigger] rest[j]) && decls[rest[j]].is_interface by {
            assert(rest[j] == ifaces[j]);
        }
        assert forall|j: int, k: Seq<char>| 0 <= j < rest.len() && #[trigger] decls[rest[j]].methods.key_seq().contains(k)
            implies methods.contains_key(k) by {
            assert(rest[j] == ifaces[j]);
        }
        lemma_interfaces_met(decls, class, rest, methods);
        let n = ifaces.last();
        assert(n == ifaces[ifaces.len() - 1]);
        assert(decls.contains_key(n) && decls[n].is_interface);
        assert forall|k: Seq<char>| decls[n].methods.key_seq().contains(k) implies #[trigger] methods.contains_key(k) by {
            assert(decls[ifaces[ifaces.len() - 1]].methods.key_seq().contains(k));
        }
        lemma_no_missing_method(class, n, decls[n].methods.key_seq(), methods);
    }
}

/// A box meets an interface through the methods it inherits as well as
/// through its own: where the boxes it extends resolve, and every method
/// that each interface it implements declares is one of its own methods or
/// one that a declared box it extends resolves to, resolving its
/// inheritance succeeds.
pub proof fn law_interface_met_by_inherited_methods(decls: Map<Seq<char>, BoxDeclaration>, decl: BoxDeclaration, fuel: nat)
    requires
        fuel > 0,
        parents_spec(decls, names(decl.extends@), (fuel - 1) as nat) is Ok,
        forall|i: int| 0 <= i < decl.implements@.len()
            ==> decls.contains_key(#[trigger] decl.implements@[i]@) && decls[decl.implements@[i]@].is_interface,
        forall|i: int, k: Seq<char>| 0 <= i < decl.implements@.len()
            && #[trigger] decls[decl.implements@[i]@].methods.key_seq().contains(k)
            ==> decl.methods@.contains_key(k) || inherited_method(decls, decl, (fuel - 1) as nat, k),
    ensures
        inherit_spec(decls, decl, fuel) is Ok,
{
    let f1 = (fuel - 1) as nat;
    let ps = names(decl.extends@);
    let pm = parents_spec(decls, ps, f1)->Ok_0.1;
    let methods = pm.union_prefer_right(decl.methods@);
    let ifaces = names(decl.implements@);
    assert forall|j: int| 0 <= j < ifaces.len() implies decls.contains_key(#[trigger] ifaces[j]) && decls[ifaces[j]].is_interface by {
        assert(ifaces[j] == decl.implements@[j]@);
    }
    assert forall|j: int, k: Seq<char>| 0 <= j < ifaces.len() && #[trigger] decls[ifaces[j]].methods.key_seq().contains(k)
        implies methods.contains_key(k) by {
        assert(ifaces[j] == decl.implements@[j]@);
        assert(decls[decl.implements@[j]@].methods.key_seq().contains(k));
        if !decl.methods@.contains_key(k) {
            assert(inherited_method(decls, decl, f1, k));
            let p = choose|p: int| 0 <= p < decl.extends@.len() && !builtin_box_name(decl.extends@[p]@)
                && decls.contains_key(decl.extends@[p]@)
                && inherit_spec(decls, decls[decl.extends@[p]@], f1) is Ok
                && #[trigger] inherit_spec(decls, decls[decl.extends@[p]@], f1)->Ok_0.1.contains_key(k);
            assert(ps[p] == decl.extends@[p]@);
            lemma_parents_pass_on(decls, ps, f1, p);
            assert(pm.contains_key(k));
        }
    }
    lemma_interfaces_met(decls, decl.name@, ifaces, methods);
}

/// Joining a piece in front of at least one other puts the separator
/// between it and the join of the others.
proof fn lemma_join_front(a: Seq<char>, rest: Seq<Seq<char>>, sep: Seq<char>)
    requires
        rest.len() > 0,
    ensures
        crate::text::join_text(seq![a] + rest, sep) == a + sep + crate::text::join_text(rest, sep),
    decreases rest.len(),
{
    let all = seq![a] + rest;
    assert(crate::text::join_text(all, sep) == crate::text::join_text(all.drop_last(), sep) + sep + all.last());
    if rest.len() == 1 {
        assert(all.drop_last() =~= seq![a]);
        assert(crate::text::join_text(seq![a], sep) == a);
        assert(all.last() == rest[0]);
        assert(crate::text::join_text(rest, sep) == rest[0]);
    } else {
        assert(crate::text::join_text(rest, sep) == crate::text::join_text(rest.drop_last(), sep) + sep + rest.last());
        assert(all.drop_last() =~= seq![a] + rest.drop_last());
        assert(all.last() == rest.last());
        lemma_join_front(a, rest.drop_last(), sep);
        assert(a + sep + crate::text::join_text(rest.drop_last(), sep) + sep + rest.last()
            =~= a + sep + (crate::text::join_text(rest.drop_last(), sep) + sep + rest.last()));
    }
}

/// Cutting a text around an occurrence of `d` at `i` and putting `d` back
/// gives the text.
proof fn lemma_cut_at_occurrence(s: Seq<char>, d: Seq<char>, i: int)
    requires
        crate::text::occurs_at(s, d, i),
    ensures
        s.take(i) + d + s.skip(i + d.len()) == s,
{
    let rest = s.skip(i + d.len());
    assert forall|x: int| 0 <= x < s.len() implies #[trigger] (s.take(i) + d + rest)[x] == s[x] by {
        if x >= i && x < i + d.len() {
            assert(d[x - i] == s.subrange(i, i + d.len())[x - i]);
        }
    }
    assert(s.take(i) + d + rest =~= s);
}

/// The text before the first occurrence of `d` holds no occurrence of it.
proof fn lemma_prefix_before_first(s: Seq<char>, d: Seq<char>, i: int, j: int)
    requires
        d.len() > 0,
        0 <= i <= s.len(),
        forall|k: int| 0 <= k < i ==> !#[trigger] crate::text::occurs_at(s, d, k),
    ensures
        !crate::text::occurs_at(s.take(i), d, j),
{
    if crate::text::occurs_at(s.take(i), d, j) {
        assert(j < i);
        assert(s.subrange(j, j + d.len()) =~= s.take(i).subrange(j, j + d.len()));
        assert(crate::text::occurs_at(s, d, j));
    }
}

/// Splitting at a non-empty delimiter and joining the pieces with it gives
/// back the text, and no piece holds the delimiter: the pieces are exactly
/// the text between successive occurrences.
#[verifier::rlimit(40)]
pub proof fn law_split_then_join(s: Seq<char>, d: Seq<char>)
    requires
        d.len() > 0,
    ensures
        crate::text::split_text(s, d).len() > 0,
        crate::text::join_text(crate::text::split_text(s, d), d) == s,
        forall|k: int, j: int| 0 <= k < crate::text::split_text(s, d).len()
            ==> !#[trigger] crate::text::occurs_at(crate::text::split_text(s, d)[k], d, j),
    decreases s.len(),
{
    crate::text::lemma_find_text(s, d);
    let pieces = crate::text::split_text(s, d);
    match crate::text::find_text(s, d) {
        Some(i) => {
            let rest = s.skip(i + d.len());
            law_split_then_join(rest, d);
            let tail = crate::text::split_text(rest, d);
            assert(pieces == seq![s.take(i)] + tail);
            lemma_join_front(s.take(i), tail, d);
            lemma_cut_at_occurrence(s, d, i);
            assert forall|k: int, j: int| 0 <= k < pieces.len() implies !#[trigger] crate::text::occurs_at(pieces[k], d, j) by {
                if k == 0 {
                    lemma_prefix_before_first(s, d, i, j);
                } else {
                    assert(pieces[k] == tail[k - 1]);
                }
            }
        },
        None => {
            assert(pieces == seq![s]);
        },
    }
}

/// Replacing a non-empty text by itself changes nothing.
pub proof fn law_replace_by_itself(s: Seq<char>, d: Seq<char>)
    requires
        d.len() > 0,
    ensures
        crate::text::replace_text(s, d, d) == s,
{
    law_split_then_join(s, d);
}


/// A `break` that the body of a loop leaves pending ends the loop with
/// nothing pending: where the condition holds without changing anything
/// and every run of the body leaves `break` pending, the loop ends normally
/// with nothing pending.
pub proof fn law_loop_consumes_break(s: NyashInterpreter, cond: ASTNode, body: Seq<ASTNode>, fuel: int,
    rounds: int, t: NyashInterpreter, r: Result<(), crate::errors::RuntimeError>)
    requires
        rounds > 0,
        crate::eval::loop_rel(s, cond, body, fuel, rounds, t, r),
        forall|m0: NyashInterpreter, c: Result<NyashBox, crate::errors::RuntimeError>|
            #[trigger] crate::eval::expr_post(s, cond, fuel, m0, c)
                ==> m0 == s && (c matches Ok(x) && crate::ops::truthy(x@)),
        forall|m1: NyashInterpreter, rb: Result<NyashBox, crate::errors::RuntimeError>|
            #[trigger] crate::eval::gblock_rel(s, body, NyashBox::VoidBox, fuel - 1, m1, rb)
                ==> rb is Ok && m1.control_flow is Break,
    ensures
        r is Ok,
        t.control_flow is Normal,
{
}

/// A loop whose condition is false ends at once: where the condition gives
/// a false value without changing anything, the loop ends normally and
/// changes nothing.
pub proof fn law_loop_with_false_condition(s: NyashInterpreter, cond: ASTNode, body: Seq<ASTNode>, fuel: int,
    rounds: int, t: NyashInterpreter, r: Result<(), crate::errors::RuntimeError>)
    requires
        rounds > 0,
        crate::eval::loop_rel(s, cond, body, fuel, rounds, t, r),
        forall|m0: NyashInterpreter, c: Result<NyashBox, crate::errors::RuntimeError>|
            #[trigger] crate::eval::expr_post(s, cond, fuel, m0, c)
                ==> m0 == s && (c matches Ok(x) && !crate::ops::truthy(x@)),
    ensures
        r is Ok,
        t == s,
{
}

/// Interfaces that raise no error have each declared method among `methods`.
proof fn lemma_interfaces_hold(decls: Map<Seq<char>, BoxDeclaration>, class: Seq<char>, ifaces: Seq<Seq<char>>,
    methods: Map<Seq<char>, Rc<FunctionDecl>>, j: int, k: Seq<char>)
    requires
        crate::eval::implements_error(decls, class, ifaces, methods) is None,
        0 <= j < ifaces.len(),
    ensures
        decls.contains_key(ifaces[j]),
        decls[ifaces[j]].is_interface,
        decls[ifaces[j]].methods.key_seq().contains(k) ==> methods.contains_key(k),
    decreases ifaces.len(),
{
    if j < ifaces.len() - 1 {
        assert(ifaces.drop_last()[j] == ifaces[j]);
        lemma_interfaces_hold(decls, class, ifaces.drop_last(), methods, j, k);
    } else {
        let n = ifaces.last();
        if decls[n].methods.key_seq().contains(k) {
            lemma_required_present(class, n, decls[n].methods.key_seq(), methods, k);
        }
    }
}

/// Where no method is missing, each required one is a key of `methods`.
proof fn lemma_required_present(class: Seq<char>, iface: Seq<char>, required: Seq<Seq<char>>,
    methods: Map<Seq<char>, Rc<FunctionDecl>>, k: Seq<char>)
    requires
        crate::eval::missing_method(class, iface, required, methods) is None,
        required.contains(k),
    ensures
        methods.contains_key(k),
    decreases required.len(),
{
    if required.last() != k {
        let j = choose|j: int| 0 <= j < required.len() && required[j] == k;
        assert(required.drop_last()[j] == k);
        lemma_required_present(class, iface, required.drop_last(), methods, k);
    }
}

/// A box whose inheritance resolves meets each interface it implements:
/// every method that such an interface declares is among the box's
/// resolved methods, its own or inherited.
pub proof fn law_resolved_box_meets_its_interfaces(decls: Map<Seq<char>, BoxDeclaration>, decl: BoxDeclaration,
    fuel: nat, i: int, k: Seq<char>)
    requires
        inherit_spec(decls, decl, fuel) is Ok,
        0 <= i < decl.implements@.len(),
    ensures
        decls.contains_key(decl.implements@[i]@),
        decls[decl.implements@[i]@].is_interface,
        decls[decl.implements@[i]@].methods.key_seq().contains(k) ==> inherit_spec(decls, decl, fuel)->Ok_0.1.contains_key(k),
{
    let ifaces = names(decl.implements@);
    assert(ifaces[i] == decl.implements@[i]@);
    let pm = parents_spec(decls, names(decl.extends@), (fuel - 1) as nat)->Ok_0.1;
    lemma_interfaces_hold(decls, decl.name@, ifaces, pm.union_prefer_right(decl.methods@), i, k);
}

/// The pieces of `s` that an empty delimiter gives, but for the last empty
/// one, join back to `s`.
proof fn lemma_join_singles(s: Seq<char>)
    ensures
        crate::text::join_text(seq![Seq::<char>::empty()] + Seq::new(s.len(), |i: int| seq![s[i]]), Seq::empty()) == s,
    decreases s.len(),
{
    let q = seq![Seq::<char>::empty()] + Seq::new(s.len(), |i: int| seq![s[i]]);
    if s.len() == 0 {
        assert(q =~= seq![Seq::<char>::empty()]);
        assert(s =~= Seq::<char>::empty());
    } else {
        let s1 = s.drop_last();
        lemma_join_singles(s1);
        let q1 = seq![Seq::<char>::empty()] + Seq::new(s1.len(), |i: int| seq![s1[i]]);
        assert(q.drop_last() =~= q1);
        assert(q.last() == seq![s.last()]);
        assert(crate::text::join_text(q, Seq::empty()) == crate::text::join_text(q1, Seq::empty()) + Seq::<char>::empty() + seq![s.last()]);
        assert(s1 + Seq::<char>::empty() + seq![s.last()] =~= s);
    }
}

/// Splitting at the empty delimiter gives an empty piece, then each
/// character as a piece of its own, in order, then an empty piece; joined
/// back with nothing between them, the pieces give the text.
pub proof fn law_split_at_empty_delimiter(s: Seq<char>)
    ensures
        crate::text::split_pieces(s, Seq::empty()).len() == s.len() + 2,
        forall|i: int| 0 <= i < s.len() ==> #[trigger] crate::text::split_pieces(s, Seq::empty())[i + 1] == seq![s[i]],
        crate::text::split_pieces(s, Seq::empty())[0] == Seq::<char>::empty(),
        crate::text::split_pieces(s, Seq::empty())[s.len() as int + 1] == Seq::<char>::empty(),
        crate::text::join_text(crate::text::split_pieces(s, Seq::empty()), Seq::empty()) == s,
{
    let p = crate::text::split_pieces(s, Seq::empty());
    let q = seq![Seq::<char>::empty()] + Seq::new(s.len(), |i: int| seq![s[i]]);
    lemma_join_singles(s);
    assert(p.drop_last() =~= q);
    assert(crate::text::join_text(p, Seq::empty()) == crate::text::join_text(q, Seq::empty()) + Seq::<char>::empty() + Seq::<char>::empty());
    assert(s + Seq::<char>::empty() + Seq::<char>::empty() =~= s);
}

/// A `continue` that the body of a loop leaves pending is consumed: where
/// nothing is pending, the condition holds without changing anything, and
/// every run of the body changes nothing but leaves `continue` pending, the
/// loop goes round until its rounds run out and then stops at the step
/// limit with nothing pending.
pub proof fn law_loop_consumes_continue(s: NyashInterpreter, cond: ASTNode, body: Seq<ASTNode>, fuel: int,
    rounds: int, t: NyashInterpreter, r: Result<(), crate::errors::RuntimeError>)
    requires
        s.control_flow is Normal,
        crate::eval::loop_rel(s, cond, body, fuel, rounds, t, r),
        forall|m0: NyashInterpreter, c: Result<NyashBox, crate::errors::RuntimeError>|
            #[trigger] crate::eval::expr_post(s, cond, fuel, m0, c)
                ==> m0 == s && (c matches Ok(x) && crate::ops::truthy(x@)),
        forall|m1: NyashInterpreter, rb: Result<NyashBox, crate::errors::RuntimeError>|
            #[trigger] crate::eval::gblock_rel(s, body, NyashBox::VoidBox, fuel - 1, m1, rb)
                ==> rb is Ok && m1 == (NyashInterpreter { control_flow: crate::interp::ControlFlow::Continue, ..s }),
    ensures
        t == s,
        r matches Err(e) && e@ == crate::eval::step_limit_err(),
    decreases rounds,
{
    if rounds > 0 {
        let m1 = NyashInterpreter { control_flow: crate::interp::ControlFlow::Continue, ..s };
        assert(crate::eval::with_normal_flow(m1) == s);
        assert(crate::eval::loop_rel(s, cond, body, fuel, rounds - 1, t, r));
        law_loop_consumes_continue(s, cond, body, fuel, rounds - 1, t, r);
    }
}
} // verus!
