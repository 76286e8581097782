//! The methods of the builtin boxes, applied to evaluated arguments.

use vstd::prelude::*;
use crate::assoc::AssocMap;
use crate::errors::{RuntimeError, ErrSpec};
use crate::heap::{HeapObject, bool_text, display, display_box, DISPLAY_DEPTH};
use crate::ops::{outcome, truthy, is_truthy, values_equal, compare_values};
use crate::state::{heap_wf, lemma_heap_push};
use crate::text::{
    append_text, chars_of, join_chars, join_text, decimal, find_chars, find_text, i64_to_string, int_text, lower_text,
    parse_i64, parse_i64_spec, push_decimal, replace_chars, replace_text, split_chars, split_pieces,
    string_of, substring_chars, substring_text, to_lower, to_upper, trim_chars, trim_text, upper_text,
};
use crate::value::{NyashBox, BoxSpec};

verus! {

/// The values of a list of boxes.
pub open spec fn views(args: Seq<NyashBox>) -> Seq<BoxSpec> {
    args.map_values(|a: NyashBox| a@)
}

pub open spec fn arg_word(n: nat) -> Seq<char> {
    if n == 1 { " argument, got "@ } else { " arguments, got "@ }
}

/// "m() expects N argument(s), got K".
pub open spec fn arity_text(m: Seq<char>, n: nat, got: nat) -> Seq<char> {
    m + "() expects "@ + decimal(n) + arg_word(n) + decimal(got)
}

/// The error of a call with the wrong number of arguments.
pub open spec fn arity_err(m: Seq<char>, n: nat, got: nat) -> ErrSpec {
    ErrSpec::InvalidOperation(arity_text(m, n, got))
}

/// Whether `m` reads `lit`.
pub fn is_named(m: &String, lit: &str) -> (b: bool)
    ensures
        b == (m@ == lit@),
{
    *m == String::from_str(lit)
}

pub fn decimal_string(n: usize) -> (r: String)
    ensures
        r@ == decimal(n as nat),
{
    let mut v: Vec<char> = Vec::new();
    push_decimal(&mut v, n as u64);
    assert(v@ =~= decimal(n as nat));
    string_of(&v)
}

/// The error of a call of `method` with `got` arguments where it takes `expected`.
pub fn arity_error(method: &String, expected: usize, got: usize) -> (e: RuntimeError)
    ensures
        e@ == arity_err(method@, expected as nat, got as nat),
{
    let mut m = method.clone();
    m.append("() expects ");
    append_text(&mut m, &decimal_string(expected));
    if expected == 1 {
        m.append(" argument, got ");
    } else {
        m.append(" arguments, got ");
    }
    append_text(&mut m, &decimal_string(got));
    proof {
        assert(m@ =~= arity_text(method@, expected as nat, got as nat));
    }
    RuntimeError::InvalidOperation { message: m }
}

/// "Unknown method 'm' for T".
pub open spec fn unknown_method_text(m: Seq<char>, class: Seq<char>) -> Seq<char> {
    "Unknown method '"@ + m + "' for "@ + class
}

fn unknown_method(method: &String, class: &str) -> (e: RuntimeError)
    ensures
        e@ == ErrSpec::InvalidOperation(unknown_method_text(method@, class@)),
{
    let mut m = String::from_str("Unknown method '");
    append_text(&mut m, method);
    m.append("' for ");
    m.append(class);
    RuntimeError::InvalidOperation { message: m }
}

fn type_error(message: &str) -> (e: RuntimeError)
    ensures
        e@ == ErrSpec::TypeError(message@),
{
    RuntimeError::TypeError { message: String::from_str(message) }
}

// ---------------------------------------------------------------- StringBox

/// What a method of StringBox gives, but for `split`, which makes an array.
pub open spec fn string_method_spec(s: Seq<char>, m: Seq<char>, a: Seq<BoxSpec>) -> Result<BoxSpec, ErrSpec> {
    let n = a.len();
    if m == "toString"@ {
        if n == 0 { Ok(BoxSpec::StringBox(s)) } else { Err(arity_err(m, 0, n)) }
    } else if m == "length"@ {
        if n == 0 { Ok(BoxSpec::IntegerBox(s.len() as i64)) } else { Err(arity_err(m, 0, n)) }
    } else if m == "get"@ {
        if n != 1 {
            Err(arity_err(m, 1, n))
        } else {
            match a[0] {
                BoxSpec::IntegerBox(i) => if (i as usize) < s.len() {
                    Ok(BoxSpec::StringBox(seq![s[(i as usize) as int]]))
                } else {
                    Ok(BoxSpec::VoidBox)
                },
                _ => Err(ErrSpec::TypeError("get() requires integer index"@)),
            }
        }
    } else if m == "find"@ {
        if n != 1 {
            Err(arity_err(m, 1, n))
        } else {
            match a[0] {
                BoxSpec::StringBox(t) => match find_text(s, t) {
                    Some(p) => Ok(BoxSpec::IntegerBox(p as i64)),
                    None => Ok(BoxSpec::IntegerBox(-1i64)),
                },
                _ => Err(ErrSpec::TypeError("find() requires string argument"@)),
            }
        }
    } else if m == "replace"@ {
        if n != 2 {
            Err(arity_err(m, 2, n))
        } else {
            match (a[0], a[1]) {
                (BoxSpec::StringBox(from), BoxSpec::StringBox(to)) => Ok(BoxSpec::StringBox(replace_text(s, from, to))),
                _ => Err(ErrSpec::TypeError("replace() requires string arguments"@)),
            }
        }
    } else if m == "trim"@ {
        if n == 0 { Ok(BoxSpec::StringBox(trim_text(s))) } else { Err(arity_err(m, 0, n)) }
    } else if m == "toUpper"@ {
        if n == 0 { Ok(BoxSpec::StringBox(upper_text(s))) } else { Err(arity_err(m, 0, n)) }
    } else if m == "toLower"@ {
        if n == 0 { Ok(BoxSpec::StringBox(lower_text(s))) } else { Err(arity_err(m, 0, n)) }
    } else if m == "toInteger"@ {
        if n != 0 {
            Err(arity_err(m, 0, n))
        } else {
            match parse_i64_spec(s) {
                Some(v) => Ok(BoxSpec::IntegerBox(v)),
                None => Ok(BoxSpec::IntegerBox(0)),
            }
        }
    } else if m == "substring"@ {
        if n != 2 {
            Err(arity_err(m, 2, n))
        } else {
            match (a[0], a[1]) {
                (BoxSpec::IntegerBox(b), BoxSpec::IntegerBox(e)) =>
                    Ok(BoxSpec::StringBox(substring_text(s, (b as usize) as int, (e as usize) as int))),
                _ => Err(ErrSpec::TypeError("substring() expects integer arguments"@)),
            }
        }
    } else {
        Err(ErrSpec::InvalidOperation(unknown_method_text(m, "StringBox"@)))
    }
}

/// Why a call of `split` fails, if it does.
pub open spec fn split_error(a: Seq<BoxSpec>) -> Option<ErrSpec> {
    if a.len() != 1 {
        Some(arity_err("split"@, 1, a.len()))
    } else if a[0] is StringBox {
        None
    } else {
        Some(ErrSpec::TypeError("split() requires string delimiter"@))
    }
}

/// The object is an array of the strings `texts`.
pub open spec fn array_of_texts(o: HeapObject, texts: Seq<Seq<char>>) -> bool {
    &&& o is Array
    &&& o->Array_0@.len() == texts.len()
    &&& forall|i: int| 0 <= i < texts.len() ==> #[trigger] o->Array_0@[i]@ == BoxSpec::StringBox(texts[i])
}

/// The heap `after` is `before` with one more object at its end.
pub open spec fn heap_grown(before: Seq<HeapObject>, after: Seq<HeapObject>) -> bool {
    after.len() == before.len() + 1 && after.take(before.len() as int) == before
}

/// `split` of the string `s`: an array of its pieces, put in the heap.
#[verifier::rlimit(50)]
fn split_method(heap: &mut Vec<HeapObject>, s: &Vec<char>, method: &String, args: &Vec<NyashBox>)
    -> (r: Result<NyashBox, RuntimeError>)
    requires
        heap_wf(old(heap)@),
        method@ == "split"@,
    ensures
        heap_wf(final(heap)@),
        match split_error(views(args@)) {
            Some(e) => r is Err && r->Err_0@ == e && final(heap)@ == old(heap)@,
            None => {
                &&& r is Ok
                &&& r->Ok_0@ == BoxSpec::ArrayBox(old(heap)@.len() as usize)
                &&& heap_grown(old(heap)@, final(heap)@)
                &&& array_of_texts(final(heap)@.last(), split_pieces(s@, views(args@)[0]->StringBox_0))
            },
        },
{
    let n = args.len();
    assert(views(args@).len() == n);
    if n != 1 {
        return Err(arity_error(method, 1, n));
    }
    assert(views(args@)[0] == args@[0]@);
    match &args[0] {
        NyashBox::StringBox(d) => {
            let dc = chars_of(d.as_str());
            let pieces = split_chars(s, &dc);
            let mut items: Vec<NyashBox> = Vec::new();
            let mut i: usize = 0;
            while i < pieces.len()
                invariant
                    i <= pieces@.len(),
                    items@.len() == i,
                    forall|j: int| 0 <= j < i ==> #[trigger] items@[j]@ == BoxSpec::StringBox(pieces@[j]@),
                decreases pieces@.len() - i,
            {
                items.push(NyashBox::StringBox(string_of(&pieces[i])));
                i = i + 1;
            }
            let h = heap.len();
            let ghost pv = pieces@;
            let ghost iv = items@;
            proof {
                lemma_heap_push(heap@, HeapObject::Array(items));
            }
            heap.push(HeapObject::Array(items));
            proof {
                assert(final(heap)@.take(old(heap)@.len() as int) =~= old(heap)@);
                assert(final(heap)@.last()->Array_0@ == iv);
                assert forall|j: int| 0 <= j < split_pieces(s@, dc@).len() implies
                    #[trigger] iv[j]@ == BoxSpec::StringBox(split_pieces(s@, dc@)[j]) by {
                    assert(pv[j]@ == split_pieces(s@, dc@)[j]);
                }
            }
            Ok(NyashBox::ArrayBox(h))
        },
        _ => Err(type_error("split() requires string delimiter")),
    }
}

/// A method of StringBox other than `split`; none of them touches the heap.
#[verifier::rlimit(40)]
fn string_value_method(s: &String, cs: &Vec<char>, method: &String, args: &Vec<NyashBox>)
    -> (r: Result<NyashBox, RuntimeError>)
    requires
        cs@ == s@,
    ensures
        outcome(r) == string_method_spec(s@, method@, views(args@)),
{
    let n = args.len();
    assert(views(args@).len() == n);
    if n > 0 {
        assert(views(args@)[0] == args@[0]@);
    }
    if n > 1 {
        assert(views(args@)[1] == args@[1]@);
    }
    if is_named(method, "toString") {
        if n != 0 {
            return Err(arity_error(method, 0, n));
        }
        Ok(NyashBox::StringBox(s.clone()))
    } else if is_named(method, "length") {
        if n != 0 {
            return Err(arity_error(method, 0, n));
        }
        let len: usize = cs.len();
        Ok(NyashBox::IntegerBox(len as i64))
    } else if is_named(method, "get") {
        if n != 1 {
            return Err(arity_error(method, 1, n));
        }
        match &args[0] {
            NyashBox::IntegerBox(i) => {
                let idx: usize = *i as usize;
                if idx < cs.len() {
                    let mut one: Vec<char> = Vec::new();
                    one.push(cs[idx]);
                    Ok(NyashBox::StringBox(string_of(&one)))
                } else {
                    Ok(NyashBox::VoidBox)
                }
            },
            _ => Err(type_error("get() requires integer index")),
        }
    } else if is_named(method, "find") {
        if n != 1 {
            return Err(arity_error(method, 1, n));
        }
        match &args[0] {
            NyashBox::StringBox(t) => {
                let tc = chars_of(t.as_str());
                match find_chars(&cs, &tc) {
                    Some(p) => Ok(NyashBox::IntegerBox(p as i64)),
                    None => Ok(NyashBox::IntegerBox(-1)),
                }
            },
            _ => Err(type_error("find() requires string argument")),
        }
    } else if is_named(method, "replace") {
        if n != 2 {
            return Err(arity_error(method, 2, n));
        }
        match (&args[0], &args[1]) {
            (NyashBox::StringBox(from), NyashBox::StringBox(to)) => {
                let r = replace_chars(&cs, &chars_of(from.as_str()), &chars_of(to.as_str()));
                Ok(NyashBox::StringBox(string_of(&r)))
            },
            _ => Err(type_error("replace() requires string arguments")),
        }
    } else if is_named(method, "trim") {
        if n != 0 {
            return Err(arity_error(method, 0, n));
        }
        Ok(NyashBox::StringBox(string_of(&trim_chars(&cs))))
    } else if is_named(method, "toUpper") {
        if n != 0 {
            return Err(arity_error(method, 0, n));
        }
        Ok(NyashBox::StringBox(to_upper(s)))
    } else if is_named(method, "toLower") {
        if n != 0 {
            return Err(arity_error(method, 0, n));
        }
        Ok(NyashBox::StringBox(to_lower(s)))
    } else if is_named(method, "toInteger") {
        if n != 0 {
            return Err(arity_error(method, 0, n));
        }
        match parse_i64(&cs) {
            Some(v) => Ok(NyashBox::IntegerBox(v)),
            None => Ok(NyashBox::IntegerBox(0)),
        }
    } else if is_named(method, "substring") {
        if n != 2 {
            return Err(arity_error(method, 2, n));
        }
        match (&args[0], &args[1]) {
            (NyashBox::IntegerBox(b), NyashBox::IntegerBox(e)) => {
                let r = substring_chars(&cs, *b as usize, *e as usize);
                Ok(NyashBox::StringBox(string_of(&r)))
            },
            _ => Err(type_error("substring() expects integer arguments")),
        }
    } else {
        Err(unknown_method(method, "StringBox"))
    }
}


/// Applies a method of StringBox to the string `s`. `split` puts its array in
/// the heap; every other method leaves the heap as it is.
pub fn string_method(heap: &mut Vec<HeapObject>, s: &String, method: &String, args: &Vec<NyashBox>)
    -> (r: Result<NyashBox, RuntimeError>)
    requires
        heap_wf(old(heap)@),
    ensures
        heap_wf(final(heap)@),
        method@ == "split"@ ==> match split_error(views(args@)) {
            Some(e) => r is Err && r->Err_0@ == e && final(heap)@ == old(heap)@,
            None => {
                &&& r is Ok
                &&& r->Ok_0@ == BoxSpec::ArrayBox(old(heap)@.len() as usize)
                &&& heap_grown(old(heap)@, final(heap)@)
                &&& array_of_texts(final(heap)@.last(), split_pieces(s@, views(args@)[0]->StringBox_0))
            },
        },
        method@ != "split"@ ==> final(heap)@ == old(heap)@
            && outcome(r) == string_method_spec(s@, method@, views(args@)),
{
    let cs = chars_of(s.as_str());
    if is_named(method, "split") {
        split_method(heap, &cs, method, args)
    } else {
        string_value_method(s, &cs, method, args)
    }
}


// ---------------------------------------------------------------- IntegerBox, BoolBox, NullBox

/// The absolute value, wrapping at the least integer as `i64::wrapping_abs` does.
pub open spec fn wrapping_abs(i: i64) -> i64 {
    if i == i64::MIN { i64::MIN } else if i < 0 { (-i) as i64 } else { i }
}

/// What a method of IntegerBox gives.
pub open spec fn integer_method_spec(i: i64, m: Seq<char>, a: Seq<BoxSpec>) -> Result<BoxSpec, ErrSpec> {
    let n = a.len();
    if m == "toString"@ {
        if n == 0 { Ok(BoxSpec::StringBox(int_text(i as int))) } else { Err(arity_err(m, 0, n)) }
    } else if m == "abs"@ {
        if n == 0 { Ok(BoxSpec::IntegerBox(wrapping_abs(i))) } else { Err(arity_err(m, 0, n)) }
    } else if m == "max"@ || m == "min"@ {
        if n != 1 {
            Err(arity_err(m, 1, n))
        } else {
            match a[0] {
                BoxSpec::IntegerBox(o) => Ok(BoxSpec::IntegerBox(
                    if m == "max"@ { if i >= o { i } else { o } } else { if i <= o { i } else { o } })),
                _ => Err(ErrSpec::TypeError(m + "() requires integer argument"@)),
            }
        }
    } else {
        Err(ErrSpec::InvalidOperation(unknown_method_text(m, "IntegerBox"@)))
    }
}

/// Applies a method of IntegerBox to the integer `i`.
pub fn integer_method(i: i64, method: &String, args: &Vec<NyashBox>) -> (r: Result<NyashBox, RuntimeError>)
    ensures
        outcome(r) == integer_method_spec(i, method@, views(args@)),
{
    let n = args.len();
    assert(views(args@).len() == n);
    if n > 0 {
        assert(views(args@)[0] == args@[0]@);
    }
    if is_named(method, "toString") {
        if n != 0 {
            return Err(arity_error(method, 0, n));
        }
        Ok(NyashBox::StringBox(i64_to_string(i)))
    } else if is_named(method, "abs") {
        if n != 0 {
            return Err(arity_error(method, 0, n));
        }
        let v: i64 = if i == i64::MIN { i64::MIN } else if i < 0 { -i } else { i };
        Ok(NyashBox::IntegerBox(v))
    } else if is_named(method, "max") || is_named(method, "min") {
        if n != 1 {
            return Err(arity_error(method, 1, n));
        }
        match &args[0] {
            NyashBox::IntegerBox(o) => {
                let v: i64 = if is_named(method, "max") {
                    if i >= *o { i } else { *o }
                } else {
                    if i <= *o { i } else { *o }
                };
                Ok(NyashBox::IntegerBox(v))
            },
            _ => {
                let mut m = method.clone();
                m.append("() requires integer argument");
                Err(RuntimeError::TypeError { message: m })
            },
        }
    } else {
        Err(unknown_method(method, "IntegerBox"))
    }
}

/// What a method of BoolBox gives. `and` and `or` take the truth of any value.
pub open spec fn bool_method_spec(b: bool, m: Seq<char>, a: Seq<BoxSpec>) -> Result<BoxSpec, ErrSpec> {
    let n = a.len();
    if m == "toString"@ {
        if n == 0 { Ok(BoxSpec::StringBox(bool_text(b))) } else { Err(arity_err(m, 0, n)) }
    } else if m == "not"@ {
        if n == 0 { Ok(BoxSpec::BoolBox(!b)) } else { Err(arity_err(m, 0, n)) }
    } else if m == "and"@ {
        if n == 1 { Ok(BoxSpec::BoolBox(b && truthy(a[0]))) } else { Err(arity_err(m, 1, n)) }
    } else if m == "or"@ {
        if n == 1 { Ok(BoxSpec::BoolBox(b || truthy(a[0]))) } else { Err(arity_err(m, 1, n)) }
    } else if m == "equals"@ {
        if n == 1 { Ok(BoxSpec::BoolBox(a[0] == BoxSpec::BoolBox(b))) } else { Err(arity_err(m, 1, n)) }
    } else {
        Err(ErrSpec::InvalidOperation(unknown_method_text(m, "BoolBox"@)))
    }
}

/// Applies a method of BoolBox to the boolean `b`.
pub fn bool_method(b: bool, method: &String, args: &Vec<NyashBox>) -> (r: Result<NyashBox, RuntimeError>)
    ensures
        outcome(r) == bool_method_spec(b, method@, views(args@)),
{
    let n = args.len();
    assert(views(args@).len() == n);
    if n > 0 {
        assert(views(args@)[0] == args@[0]@);
    }
    if is_named(method, "toString") {
        if n != 0 {
            return Err(arity_error(method, 0, n));
        }
        Ok(NyashBox::StringBox(if b { String::from_str("true") } else { String::from_str("false") }))
    } else if is_named(method, "not") {
        if n != 0 {
            return Err(arity_error(method, 0, n));
        }
        Ok(NyashBox::BoolBox(!b))
    } else if is_named(method, "and") {
        if n != 1 {
            return Err(arity_error(method, 1, n));
        }
        Ok(NyashBox::BoolBox(b && is_truthy(&args[0])))
    } else if is_named(method, "or") {
        if n != 1 {
            return Err(arity_error(method, 1, n));
        }
        Ok(NyashBox::BoolBox(b || is_truthy(&args[0])))
    } else if is_named(method, "equals") {
        if n != 1 {
            return Err(arity_error(method, 1, n));
        }
        let eq = match &args[0] {
            NyashBox::BoolBox(o) => *o == b,
            _ => false,
        };
        Ok(NyashBox::BoolBox(eq))
    } else {
        Err(unknown_method(method, "BoolBox"))
    }
}

/// What a method of NullBox gives.
pub open spec fn null_method_spec(m: Seq<char>, a: Seq<BoxSpec>) -> Result<BoxSpec, ErrSpec> {
    let n = a.len();
    if m == "is_null"@ {
        if n == 0 { Ok(BoxSpec::BoolBox(true)) } else { Err(arity_err(m, 0, n)) }
    } else if m == "is_not_null"@ {
        if n == 0 { Ok(BoxSpec::BoolBox(false)) } else { Err(arity_err(m, 0, n)) }
    } else if m == "equals"@ {
        if n == 1 { Ok(BoxSpec::BoolBox(a[0] is NullBox)) } else { Err(arity_err(m, 1, n)) }
    } else if m == "get_or_default"@ {
        if n == 1 { Ok(a[0]) } else { Err(arity_err(m, 1, n)) }
    } else {
        Err(ErrSpec::InvalidOperation("Unknown NullBox method: "@ + m))
    }
}

/// Applies a method of NullBox.
pub fn null_method(method: &String, args: &Vec<NyashBox>) -> (r: Result<NyashBox, RuntimeError>)
    ensures
        outcome(r) == null_method_spec(method@, views(args@)),
{
    let n = args.len();
    assert(views(args@).len() == n);
    if n > 0 {
        assert(views(args@)[0] == args@[0]@);
    }
    if is_named(method, "is_null") {
        if n != 0 {
            return Err(arity_error(method, 0, n));
        }
        Ok(NyashBox::BoolBox(true))
    } else if is_named(method, "is_not_null") {
        if n != 0 {
            return Err(arity_error(method, 0, n));
        }
        Ok(NyashBox::BoolBox(false))
    } else if is_named(method, "equals") {
        if n != 1 {
            return Err(arity_error(method, 1, n));
        }
        Ok(NyashBox::BoolBox(matches!(&args[0], NyashBox::NullBox)))
    } else if is_named(method, "get_or_default") {
        if n != 1 {
            return Err(arity_error(method, 1, n));
        }
        Ok(args[0].clone_box())
    } else {
        let mut m = String::from_str("Unknown NullBox method: ");
        append_text(&mut m, method);
        Err(RuntimeError::InvalidOperation { message: m })
    }
}


// ---------------------------------------------------------------- ArrayBox

/// What a method of ArrayBox does: the elements after the call, its result,
/// and the elements of a new array it puts in the heap, if it makes one.
pub ghost struct ArrayStep {
    pub items: Seq<BoxSpec>,
    pub result: Result<BoxSpec, ErrSpec>,
    pub made: Option<Seq<BoxSpec>>,
}

pub open spec fn keep(items: Seq<BoxSpec>, result: Result<BoxSpec, ErrSpec>) -> ArrayStep {
    ArrayStep { items, result, made: None }
}

/// The answer of a method that succeeded.
pub open spec fn ok_text() -> BoxSpec {
    BoxSpec::StringBox("ok"@)
}

/// The position of the first element equal to `x`, or -1.
pub open spec fn first_equal(items: Seq<BoxSpec>, x: BoxSpec) -> int
    decreases items.len(),
{
    if items.len() == 0 {
        -1
    } else {
        let k = first_equal(items.drop_last(), x);
        if k >= 0 { k } else if values_equal(items.last(), x) { items.len() - 1 } else { -1 }
    }
}

/// The elements from `start` up to `end`, each bound held to the length and
/// `start` held to `end`.
pub open spec fn clamped<A>(s: Seq<A>, start: int, end: int) -> Seq<A> {
    let e = if end < s.len() { end } else { s.len() as int };
    let b = if start < e { start } else { e };
    s.subrange(b, e)
}

/// How each element reads as text.
pub open spec fn item_texts(heap: Seq<HeapObject>, items: Seq<BoxSpec>) -> Seq<Seq<char>> {
    Seq::new(items.len(), |i: int| display(heap, items[i], DISPLAY_DEPTH as nat))
}

/// What the methods of ArrayBox that only read the elements give.
pub open spec fn array_read_spec(heap: Seq<HeapObject>, items: Seq<BoxSpec>, m: Seq<char>, a: Seq<BoxSpec>) -> Result<BoxSpec, ErrSpec> {
    let n = a.len();
    let len = items.len();
    if m == "length"@ {
        if n == 0 { Ok(BoxSpec::IntegerBox(len as i64)) } else { Err(arity_err(m, 0, n)) }
    } else if m == "get"@ {
        if n != 1 {
            Err(arity_err(m, 1, n))
        } else {
            match a[0] {
                BoxSpec::IntegerBox(i) => if (i as usize) < len { Ok(items[(i as usize) as int]) } else { Ok(BoxSpec::NullBox) },
                _ => Ok(BoxSpec::StringBox("Error: get() requires integer index"@)),
            }
        }
    } else if m == "indexOf"@ {
        if n == 1 { Ok(BoxSpec::IntegerBox(first_equal(items, a[0]) as i64)) } else { Err(arity_err(m, 1, n)) }
    } else if m == "contains"@ {
        if n == 1 { Ok(BoxSpec::BoolBox(first_equal(items, a[0]) >= 0)) } else { Err(arity_err(m, 1, n)) }
    } else if m == "join"@ {
        if n != 1 {
            Err(arity_err(m, 1, n))
        } else {
            match a[0] {
                BoxSpec::StringBox(d) => Ok(BoxSpec::StringBox(join_text(item_texts(heap, items), d))),
                _ => Ok(BoxSpec::StringBox("Error: join() requires string separator"@)),
            }
        }
    } else if m == "isEmpty"@ {
        if n == 0 { Ok(BoxSpec::BoolBox(len == 0)) } else { Err(arity_err(m, 0, n)) }
    } else {
        Err(ErrSpec::InvalidOperation(unknown_method_text(m, "ArrayBox"@)))
    }
}

/// The methods of ArrayBox that change the elements.
pub open spec fn is_array_mutator(m: Seq<char>) -> bool {
    m == "push"@ || m == "pop"@ || m == "set"@ || m == "remove"@ || m == "clear"@ || m == "reverse"@
}

/// What the methods of ArrayBox that change the elements do.
pub open spec fn array_mut_spec(items: Seq<BoxSpec>, m: Seq<char>, a: Seq<BoxSpec>) -> ArrayStep {
    let n = a.len();
    let len = items.len();
    if m == "push"@ {
        if n == 1 { keep(items.push(a[0]), Ok(ok_text())) } else { keep(items, Err(arity_err(m, 1, n))) }
    } else if m == "pop"@ {
        if n != 0 {
            keep(items, Err(arity_err(m, 0, n)))
        } else if len == 0 {
            keep(items, Ok(BoxSpec::NullBox))
        } else {
            keep(items.drop_last(), Ok(items.last()))
        }
    } else if m == "set"@ {
        if n != 2 {
            keep(items, Err(arity_err(m, 2, n)))
        } else {
            match a[0] {
                BoxSpec::IntegerBox(i) => if (i as usize) < len {
                    keep(items.update((i as usize) as int, a[1]), Ok(ok_text()))
                } else {
                    keep(items, Ok(BoxSpec::StringBox("Error: index out of bounds"@)))
                },
                _ => keep(items, Ok(BoxSpec::StringBox("Error: set() requires integer index"@))),
            }
        }
    } else if m == "remove"@ {
        if n != 1 {
            keep(items, Err(arity_err(m, 1, n)))
        } else {
            match a[0] {
                BoxSpec::IntegerBox(i) => if (i as usize) < len {
                    keep(items.remove((i as usize) as int), Ok(items[(i as usize) as int]))
                } else {
                    keep(items, Ok(BoxSpec::NullBox))
                },
                _ => keep(items, Ok(BoxSpec::StringBox("Error: remove() requires integer index"@))),
            }
        }
    } else if m == "clear"@ {
        if n == 0 { keep(Seq::empty(), Ok(ok_text())) } else { keep(items, Err(arity_err(m, 0, n))) }
    } else {
        if n == 0 { keep(items.reverse(), Ok(ok_text())) } else { keep(items, Err(arity_err(m, 0, n))) }
    }
}

/// What a method of ArrayBox does to the array `items` when the heap holds
/// `heap` objects; `slice` makes a new array at the end of the heap.
pub open spec fn array_step(heap: Seq<HeapObject>, items: Seq<BoxSpec>, m: Seq<char>, a: Seq<BoxSpec>) -> ArrayStep {
    if is_array_mutator(m) {
        array_mut_spec(items, m, a)
    } else if m == "slice"@ {
        if a.len() != 2 {
            keep(items, Err(ErrSpec::InvalidOperation("slice() expects 2 arguments (start, end), got "@ + decimal(a.len()))))
        } else {
            match (a[0], a[1]) {
                (BoxSpec::IntegerBox(b), BoxSpec::IntegerBox(e)) => ArrayStep {
                    items,
                    result: Ok(BoxSpec::ArrayBox(heap.len() as usize)),
                    made: Some(clamped(items, (b as usize) as int, (e as usize) as int)),
                },
                _ => keep(items, Ok(BoxSpec::StringBox("Error: slice() requires integer indices"@))),
            }
        }
    } else {
        keep(items, array_read_spec(heap, items, m, a))
    }
}

/// The position of the first element equal to `x`, or -1.
fn find_equal(items: &Vec<NyashBox>, x: &NyashBox) -> (r: Option<usize>)
    ensures
        match r {
            Some(i) => i == first_equal(views(items@), x@),
            None => first_equal(views(items@), x@) == -1,
        },
{
    let ghost v = views(items@);
    let mut i: usize = 0;
    while i < items.len()
        invariant
            i <= items@.len(),
            v == views(items@),
            first_equal(v.take(i as int), x@) == -1,
        decreases items@.len() - i,
    {
        assert(v.take(i + 1).drop_last() =~= v.take(i as int));
        assert(v.take(i + 1).last() == items@[i as int]@);
        if compare_values(&items[i], x) {
            proof {
                lemma_first_equal_prefix(v, x@, i + 1);
            }
            return Some(i);
        }
        i = i + 1;
    }
    assert(v.take(items@.len() as int) =~= v);
    None
}

proof fn lemma_first_equal_prefix(v: Seq<BoxSpec>, x: BoxSpec, k: int)
    requires
        0 <= k <= v.len(),
        first_equal(v.take(k), x) >= 0,
    ensures
        first_equal(v, x) == first_equal(v.take(k), x),
    decreases v.len() - k,
{
    if k < v.len() {
        assert(v.take(k + 1).drop_last() =~= v.take(k));
        lemma_first_equal_prefix(v, x, k + 1);
    } else {
        assert(v.take(k) =~= v);
    }
}


/// The text of each element, as `display` shows it.
fn item_texts_exec(heap: &Vec<HeapObject>, items: &Vec<NyashBox>) -> (r: Vec<Vec<char>>)
    ensures
        r@.map_values(|p: Vec<char>| p@) == item_texts(heap@, views(items@)),
{
    let mut r: Vec<Vec<char>> = Vec::new();
    let mut i: usize = 0;
    while i < items.len()
        invariant
            i <= items@.len(),
            r@.len() == i,
            forall|j: int| 0 <= j < i ==> #[trigger] r@[j]@ == display(heap@, items@[j]@, DISPLAY_DEPTH as nat),
        decreases items@.len() - i,
    {
        let t = display_box(heap, &items[i], DISPLAY_DEPTH);
        r.push(chars_of(t.as_str()));
        i = i + 1;
    }
    assert(r@.map_values(|p: Vec<char>| p@) =~= item_texts(heap@, views(items@)));
    r
}

/// A method of ArrayBox that only reads the elements `items`.
#[verifier::rlimit(40)]
fn array_read_method(heap: &Vec<HeapObject>, items: &Vec<NyashBox>, method: &String, args: &Vec<NyashBox>)
    -> (r: Result<NyashBox, RuntimeError>)
    ensures
        outcome(r) == array_read_spec(heap@, views(items@), method@, views(args@)),
{
    let n = args.len();
    assert(views(args@).len() == n);
    assert(views(items@).len() == items@.len());
    if n > 0 {
        assert(views(args@)[0] == args@[0]@);
    }
    if is_named(method, "length") {
        if n != 0 {
            return Err(arity_error(method, 0, n));
        }
        let len: usize = items.len();
        Ok(NyashBox::IntegerBox(len as i64))
    } else if is_named(method, "get") {
        if n != 1 {
            return Err(arity_error(method, 1, n));
        }
        match &args[0] {
            NyashBox::IntegerBox(i) => {
                let k: usize = *i as usize;
                if k < items.len() {
                    assert(views(items@)[k as int] == items@[k as int]@);
                    Ok(items[k].clone_box())
                } else {
                    Ok(NyashBox::NullBox)
                }
            },
            _ => Ok(NyashBox::StringBox(String::from_str("Error: get() requires integer index"))),
        }
    } else if is_named(method, "indexOf") {
        if n != 1 {
            return Err(arity_error(method, 1, n));
        }
        match find_equal(items, &args[0]) {
            Some(k) => Ok(NyashBox::IntegerBox(k as i64)),
            None => Ok(NyashBox::IntegerBox(-1i64)),
        }
    } else if is_named(method, "contains") {
        if n != 1 {
            return Err(arity_error(method, 1, n));
        }
        let k = find_equal(items, &args[0]);
        Ok(NyashBox::BoolBox(k.is_some()))
    } else if is_named(method, "join") {
        if n != 1 {
            return Err(arity_error(method, 1, n));
        }
        match &args[0] {
            NyashBox::StringBox(d) => {
                let texts = item_texts_exec(heap, items);
                let joined = join_chars(&texts, &chars_of(d.as_str()));
                Ok(NyashBox::StringBox(string_of(&joined)))
            },
            _ => Ok(NyashBox::StringBox(String::from_str("Error: join() requires string separator"))),
        }
    } else if is_named(method, "isEmpty") {
        if n != 0 {
            return Err(arity_error(method, 0, n));
        }
        Ok(NyashBox::BoolBox(items.len() == 0))
    } else {
        Err(unknown_method(method, "ArrayBox"))
    }
}


/// A method of ArrayBox that changes the elements `items`.
#[verifier::rlimit(40)]
fn array_mut_method(items: &mut Vec<NyashBox>, method: &String, args: &Vec<NyashBox>)
    -> (r: Result<NyashBox, RuntimeError>)
    requires
        is_array_mutator(method@),
    ensures
        views(final(items)@) == array_mut_spec(views(old(items)@), method@, views(args@)).items,
        outcome(r) == array_mut_spec(views(old(items)@), method@, views(args@)).result,
{
    let n = args.len();
    let ghost v = views(items@);
    assert(views(args@).len() == n);
    assert(v.len() == items@.len());
    if n > 0 {
        assert(views(args@)[0] == args@[0]@);
    }
    if n > 1 {
        assert(views(args@)[1] == args@[1]@);
    }
    if is_named(method, "push") {
        if n != 1 {
            return Err(arity_error(method, 1, n));
        }
        items.push(args[0].clone_box());
        assert(views(items@) =~= v.push(args@[0]@));
        Ok(NyashBox::StringBox(String::from_str("ok")))
    } else if is_named(method, "pop") {
        if n != 0 {
            return Err(arity_error(method, 0, n));
        }
        match items.pop() {
            Some(x) => {
                assert(views(items@) =~= v.drop_last());
                Ok(x)
            },
            None => Ok(NyashBox::NullBox),
        }
    } else if is_named(method, "set") {
        if n != 2 {
            return Err(arity_error(method, 2, n));
        }
        match &args[0] {
            NyashBox::IntegerBox(i) => {
                let k: usize = *i as usize;
                if k < items.len() {
                    items.set(k, args[1].clone_box());
                    assert(views(items@) =~= v.update(k as int, args@[1]@));
                    Ok(NyashBox::StringBox(String::from_str("ok")))
                } else {
                    Ok(NyashBox::StringBox(String::from_str("Error: index out of bounds")))
                }
            },
            _ => Ok(NyashBox::StringBox(String::from_str("Error: set() requires integer index"))),
        }
    } else if is_named(method, "remove") {
        if n != 1 {
            return Err(arity_error(method, 1, n));
        }
        match &args[0] {
            NyashBox::IntegerBox(i) => {
                let k: usize = *i as usize;
                if k < items.len() {
                    let x = items.remove(k);
                    assert(views(items@) =~= v.remove(k as int));
                    Ok(x)
                } else {
                    Ok(NyashBox::NullBox)
                }
            },
            _ => Ok(NyashBox::StringBox(String::from_str("Error: remove() requires integer index"))),
        }
    } else if is_named(method, "clear") {
        if n != 0 {
            return Err(arity_error(method, 0, n));
        }
        items.clear();
        assert(views(items@) =~= Seq::<BoxSpec>::empty());
        Ok(NyashBox::StringBox(String::from_str("ok")))
    } else {
        if n != 0 {
            return Err(arity_error(method, 0, n));
        }
        let mut rev: Vec<NyashBox> = Vec::new();
        let mut i: usize = items.len();
        while i > 0
            invariant
                i <= items@.len(),
                v == views(items@),
                rev@.len() == items@.len() - i,
                forall|j: int| 0 <= j < rev@.len() ==> #[trigger] rev@[j]@ == v[v.len() - 1 - j],
            decreases i,
        {
            i = i - 1;
            rev.push(items[i].clone_box());
        }
        *items = rev;
        assert(views(items@) =~= v.reverse());
        Ok(NyashBox::StringBox(String::from_str("ok")))
    }
}

/// The elements of `items` from `start` up to `end`, clamped.
fn clamped_items(items: &Vec<NyashBox>, start: usize, end: usize) -> (r: Vec<NyashBox>)
    ensures
        views(r@) == clamped(views(items@), start as int, end as int),
{
    let e: usize = if end < items.len() { end } else { items.len() };
    let b: usize = if start < e { start } else { e };
    let mut r: Vec<NyashBox> = Vec::new();
    let mut j: usize = b;
    while j < e
        invariant
            b <= j <= e <= items@.len(),
            r@.len() == j - b,
            forall|k: int| 0 <= k < r@.len() ==> #[trigger] r@[k]@ == items@[b + k]@,
        decreases e - j,
    {
        r.push(items[j].clone_box());
        j = j + 1;
    }
    assert(views(r@) =~= clamped(views(items@), start as int, end as int));
    r
}

/// The heap `after` is `before` with the array at `h` holding elements whose
/// values are `items`; no other object differs.
pub open spec fn array_replaced(before: Seq<HeapObject>, after: Seq<HeapObject>, h: int, items: Seq<BoxSpec>) -> bool {
    &&& after.len() >= before.len()
    &&& after[h] is Array
    &&& views(after[h]->Array_0@) == items
    &&& forall|j: int| 0 <= j < before.len() && j != h ==> #[trigger] after[j] == before[j]
}

/// Applies a method of ArrayBox to the array at `h` in the heap.
pub fn array_method(heap: &mut Vec<HeapObject>, h: usize, method: &String, args: &Vec<NyashBox>)
    -> (r: Result<NyashBox, RuntimeError>)
    requires
        heap_wf(old(heap)@),
        h < old(heap)@.len(),
        old(heap)@[h as int] is Array,
    ensures
        heap_wf(final(heap)@),
        ({
            let st = array_step(old(heap)@, views(old(heap)@[h as int]->Array_0@), method@, views(args@));
            &&& outcome(r) == st.result
            &&& array_replaced(old(heap)@, final(heap)@, h as int, st.items)
            &&& match st.made {
                None => final(heap)@.len() == old(heap)@.len(),
                Some(made) => final(heap)@.len() == old(heap)@.len() + 1
                    && final(heap)@.last() is Array && views(final(heap)@.last()->Array_0@) == made,
            }
        }),
{
    let ghost old_heap = heap@;
    let ghost v = views(old_heap[h as int]->Array_0@);
    if is_named(method, "push") || is_named(method, "pop") || is_named(method, "set") || is_named(method, "remove")
        || is_named(method, "clear") || is_named(method, "reverse") {
        let mut obj = HeapObject::Array(Vec::new());
        std::mem::swap(&mut obj, &mut heap[h]);
        let mut items = match obj {
            HeapObject::Array(items) => items,
            _ => Vec::new(),
        };
        assert(views(items@) == v);
        let r = array_mut_method(&mut items, method, args);
        heap.set(h, HeapObject::Array(items));
        proof {
            assert forall|j: int| 0 <= j < heap@.len() implies match #[trigger] heap@[j] {
                HeapObject::Instance(inst) => inst.wf(),
                HeapObject::Dict(m) => m.wf(),
                HeapObject::Array(_) => true,
            } by {
                if j != h {
                    assert(heap@[j] == old_heap[j]);
                }
            }
        }
        return r;
    }
    let items: &Vec<NyashBox> = match &heap[h] {
        HeapObject::Array(items) => items,
        _ => { return Err(unknown_method(method, "ArrayBox")); },
    };
    if is_named(method, "slice") {
        let n = args.len();
        assert(views(args@).len() == n);
        if n != 2 {
            let mut m = String::from_str("slice() expects 2 arguments (start, end), got ");
            append_text(&mut m, &decimal_string(n));
            return Err(RuntimeError::InvalidOperation { message: m });
        }
        assert(views(args@)[0] == args@[0]@);
        assert(views(args@)[1] == args@[1]@);
        match (&args[0], &args[1]) {
            (NyashBox::IntegerBox(b), NyashBox::IntegerBox(e)) => {
                let part = clamped_items(items, *b as usize, *e as usize);
                let k = heap.len();
                proof { lemma_heap_push(heap@, HeapObject::Array(part)); }
                heap.push(HeapObject::Array(part));
                Ok(NyashBox::ArrayBox(k))
            },
            _ => Ok(NyashBox::StringBox(String::from_str("Error: slice() requires integer indices"))),
        }
    } else {
        array_read_method(heap, items, method, args)
    }
}


// ---------------------------------------------------------------- MapBox

/// The lowercase hexadecimal digit of `d` (below 16).
pub open spec fn hex_digit(d: int) -> char {
    if d < 10 { ('0' as int + d) as char } else { ('a' as int + d - 10) as char }
}

/// How a character stands inside a JSON string: `"` and the backslash
/// behind a backslash; backspace, tab, line feed, form feed and carriage
/// return as a backslash and `b`, `t`, `n`, `f`, `r`; any other character
/// below 0x20 as a backslash, `u00` and two lowercase hexadecimal digits;
/// every other character as itself.
pub open spec fn json_escape_char(c: char) -> Seq<char> {
    if c == '"' {
        seq!['\\', '"']
    } else if c == '\\' {
        seq!['\\', '\\']
    } else if c == '\x08' {
        seq!['\\', 'b']
    } else if c == '\t' {
        seq!['\\', 't']
    } else if c == '\n' {
        seq!['\\', 'n']
    } else if c == '\x0c' {
        seq!['\\', 'f']
    } else if c == '\r' {
        seq!['\\', 'r']
    } else if (c as int) < 0x20 {
        seq!['\\', 'u', '0', '0', hex_digit(c as int / 16), hex_digit(c as int % 16)]
    } else {
        seq![c]
    }
}

/// Each character of `s` as it stands inside a JSON string.
pub open spec fn json_escape(s: Seq<char>) -> Seq<char>
    decreases s.len(),
{
    if s.len() == 0 {
        Seq::empty()
    } else {
        json_escape_char(s[0]) + json_escape(s.drop_first())
    }
}

/// What `serde_json::to_string` gives for a string: the string as a JSON
/// string literal, between double quotes and escaped.
pub open spec fn json_quoted(s: Seq<char>) -> Seq<char> {
    seq!['"'] + json_escape(s) + seq!['"']
}

/// `serde_json::to_string` of a string: its escaping table (ser.rs,
/// `ESCAPE` and `write_char_escape`) is what `json_quoted` states.
/// Serializing a `String` into memory does not fail in serde_json.
#[verifier::external_body]
fn json_quote(s: &String) -> (r: String)
    ensures
        r@ == json_quoted(s@),
{
    match serde_json::to_string(s) {
        Ok(t) => t,
        Err(_) => String::new(),
    }
}

/// How a value reads in JSON: integers and booleans as themselves, null and
/// void as null, anything else as the JSON string of its text.
pub open spec fn json_value(heap: Seq<HeapObject>, v: BoxSpec) -> Seq<char> {
    match v {
        BoxSpec::IntegerBox(i) => int_text(i as int),
        BoxSpec::BoolBox(b) => bool_text(b),
        BoxSpec::StringBox(s) => json_quoted(s),
        BoxSpec::NullBox => "null"@,
        BoxSpec::VoidBox => "null"@,
        _ => json_quoted(display(heap, v, DISPLAY_DEPTH as nat)),
    }
}

/// The JSON object of the entries, in their order.
pub open spec fn json_object(heap: Seq<HeapObject>, keys: Seq<Seq<char>>, vals: Seq<NyashBox>) -> Seq<char> {
    "{"@ + join_text(Seq::new(keys.len(), |i: int| json_quoted(keys[i]) + ":"@ + json_value(heap, vals[i]@)), ","@) + "}"@
}

/// What a method of MapBox does: the entries after the call, its result, and
/// the elements of a new array it puts in the heap, if it makes one.
pub ghost struct MapStep {
    pub entries: Map<Seq<char>, NyashBox>,
    pub result: Result<BoxSpec, ErrSpec>,
    pub made: Option<Seq<BoxSpec>>,
}

/// The key under which a value is stored: its text.
pub open spec fn key_text(heap: Seq<HeapObject>, k: BoxSpec) -> Seq<char> {
    display(heap, k, DISPLAY_DEPTH as nat)
}

pub open spec fn map_same(e: Map<Seq<char>, NyashBox>, r: Result<BoxSpec, ErrSpec>) -> MapStep {
    MapStep { entries: e, result: r, made: None }
}

/// What a method of MapBox does to the map `d` when the heap holds `heap`.
pub open spec fn map_step(heap: Seq<HeapObject>, d: AssocMap<NyashBox>, m: Seq<char>, args: Seq<NyashBox>) -> MapStep {
    let n = args.len();
    let e = d@;
    let k = if n > 0 { key_text(heap, args[0]@) } else { Seq::empty() };
    if m == "set"@ {
        if n == 2 {
            MapStep { entries: e.insert(k, args[1]), result: Ok(BoxSpec::StringBox("Set key: "@ + k)), made: None }
        } else {
            map_same(e, Err(arity_err(m, 2, n)))
        }
    } else if m == "get"@ {
        if n != 1 {
            map_same(e, Err(arity_err(m, 1, n)))
        } else if e.contains_key(k) {
            map_same(e, Ok(e[k]@))
        } else {
            map_same(e, Ok(BoxSpec::StringBox("Key not found: "@ + k)))
        }
    } else if m == "has"@ || m == "containsKey"@ {
        if n == 1 { map_same(e, Ok(BoxSpec::BoolBox(e.contains_key(k)))) } else { map_same(e, Err(arity_err(m, 1, n))) }
    } else if m == "delete"@ {
        if n != 1 {
            map_same(e, Err(arity_err(m, 1, n)))
        } else if e.contains_key(k) {
            MapStep { entries: e.remove(k), result: Ok(BoxSpec::StringBox("Deleted key: "@ + k)), made: None }
        } else {
            map_same(e, Ok(BoxSpec::StringBox("Key not found: "@ + k)))
        }
    } else if m == "keys"@ {
        if n == 0 {
            MapStep {
                entries: e,
                result: Ok(BoxSpec::ArrayBox(heap.len() as usize)),
                made: Some(d.key_seq().map_values(|s: Seq<char>| BoxSpec::StringBox(s))),
            }
        } else {
            map_same(e, Err(arity_err(m, 0, n)))
        }
    } else if m == "values"@ {
        if n == 0 {
            MapStep { entries: e, result: Ok(BoxSpec::ArrayBox(heap.len() as usize)), made: Some(views(d.val_seq())) }
        } else {
            map_same(e, Err(arity_err(m, 0, n)))
        }
    } else if m == "size"@ {
        if n == 0 { map_same(e, Ok(BoxSpec::IntegerBox(d.key_seq().len() as i64))) } else { map_same(e, Err(arity_err(m, 0, n))) }
    } else if m == "clear"@ {
        if n == 0 {
            MapStep { entries: Map::empty(), result: Ok(BoxSpec::StringBox("Map cleared"@)), made: None }
        } else {
            map_same(e, Err(arity_err(m, 0, n)))
        }
    } else if m == "isEmpty"@ {
        if n == 0 { map_same(e, Ok(BoxSpec::BoolBox(d.key_seq().len() == 0))) } else { map_same(e, Err(arity_err(m, 0, n))) }
    } else if m == "containsValue"@ {
        if n == 1 { map_same(e, Ok(BoxSpec::BoolBox(false))) } else { map_same(e, Err(arity_err(m, 1, n))) }
    } else if m == "toJSON"@ {
        if n == 0 {
            map_same(e, Ok(BoxSpec::StringBox(json_object(heap, d.key_seq(), d.val_seq()))))
        } else {
            map_same(e, Err(arity_err(m, 0, n)))
        }
    } else {
        map_same(e, Err(ErrSpec::InvalidOperation("Unknown MapBox method: "@ + m)))
    }
}

/// What a method of MapBox returns, on arguments given by their values.
pub open spec fn map_result(heap: Seq<HeapObject>, d: AssocMap<NyashBox>, m: Seq<char>, vs: Seq<BoxSpec>)
    -> Result<BoxSpec, ErrSpec>
{
    map_step(heap, d, m, choose|a: Seq<NyashBox>| views(a) == vs).result
}

/// The JSON text of one value.
fn json_value_exec(heap: &Vec<HeapObject>, v: &NyashBox) -> (r: String)
    ensures
        r@ == json_value(heap@, v@),
{
    match v {
        NyashBox::IntegerBox(i) => i64_to_string(*i),
        NyashBox::BoolBox(b) => if *b { String::from_str("true") } else { String::from_str("false") },
        NyashBox::StringBox(s) => json_quote(s),
        NyashBox::NullBox => String::from_str("null"),
        NyashBox::VoidBox => String::from_str("null"),
        _ => json_quote(&display_box(heap, v, DISPLAY_DEPTH)),
    }
}

/// The JSON object of the map's entries.
fn json_object_exec(heap: &Vec<HeapObject>, d: &AssocMap<NyashBox>) -> (r: String)
    ensures
        r@ == json_object(heap@, d.key_seq(), d.val_seq()),
{
    proof { d.lemma_lens(); }
    let ghost parts = Seq::new(d.key_seq().len(), |i: int| json_quoted(d.key_seq()[i]) + ":"@ + json_value(heap@, d.val_seq()[i]@));
    let mut pieces: Vec<Vec<char>> = Vec::new();
    let mut i: usize = 0;
    while i < d.len()
        invariant
            i <= d.key_seq().len(),
            d.key_seq().len() == d.val_seq().len(),
            pieces@.len() == i,
            parts == Seq::new(d.key_seq().len(), |i: int| json_quoted(d.key_seq()[i]) + ":"@ + json_value(heap@, d.val_seq()[i]@)),
            forall|j: int| 0 <= j < i ==> #[trigger] pieces@[j]@ == parts[j],
        decreases d.key_seq().len() - i,
    {
        let mut t = json_quote(d.key_at(i));
        t.append(":");
        append_text(&mut t, &json_value_exec(heap, d.value_at(i)));
        pieces.push(chars_of(t.as_str()));
        i = i + 1;
    }
    assert(pieces@.map_values(|p: Vec<char>| p@) =~= parts);
    let body = join_chars(&pieces, &chars_of(","));
    let mut r = String::from_str("{");
    append_text(&mut r, &string_of(&body));
    r.append("}");
    r
}


/// The heap `after` is `before` with the map at `h` holding `entries`; no
/// other object differs.
pub open spec fn map_replaced(before: Seq<HeapObject>, after: Seq<HeapObject>, h: int, entries: Map<Seq<char>, NyashBox>) -> bool {
    &&& after.len() >= before.len()
    &&& after[h] is Dict
    &&& after[h]->Dict_0@ == entries
    &&& forall|j: int| 0 <= j < before.len() && j != h ==> #[trigger] after[j] == before[j]
}

/// A method of MapBox that only reads the map `d`.
#[verifier::rlimit(40)]
fn map_read_method(heap: &Vec<HeapObject>, d: &AssocMap<NyashBox>, key: &String, method: &String, args: &Vec<NyashBox>)
    -> (r: Result<NyashBox, RuntimeError>)
    requires
        d.wf(),
        args@.len() > 0 ==> key@ == key_text(heap@, args@[0]@),
        !(method@ == "set"@ || method@ == "delete"@ || method@ == "clear"@ || method@ == "keys"@ || method@ == "values"@),
    ensures
        outcome(r) == map_step(heap@, *d, method@, args@).result,
{
    let n = args.len();
    if is_named(method, "get") {
        if n != 1 {
            return Err(arity_error(method, 1, n));
        }
        match d.get(key) {
            Some(v) => Ok(v.clone_box()),
            None => {
                let mut m = String::from_str("Key not found: ");
                append_text(&mut m, key);
                Ok(NyashBox::StringBox(m))
            },
        }
    } else if is_named(method, "has") || is_named(method, "containsKey") {
        if n != 1 {
            return Err(arity_error(method, 1, n));
        }
        Ok(NyashBox::BoolBox(d.contains_key(key)))
    } else if is_named(method, "size") {
        if n != 0 {
            return Err(arity_error(method, 0, n));
        }
        let len: usize = d.len();
        Ok(NyashBox::IntegerBox(len as i64))
    } else if is_named(method, "isEmpty") {
        if n != 0 {
            return Err(arity_error(method, 0, n));
        }
        Ok(NyashBox::BoolBox(d.len() == 0))
    } else if is_named(method, "containsValue") {
        if n != 1 {
            return Err(arity_error(method, 1, n));
        }
        Ok(NyashBox::BoolBox(false))
    } else if is_named(method, "toJSON") {
        if n != 0 {
            return Err(arity_error(method, 0, n));
        }
        Ok(NyashBox::StringBox(json_object_exec(heap, d)))
    } else {
        let mut m = String::from_str("Unknown MapBox method: ");
        append_text(&mut m, method);
        Err(RuntimeError::InvalidOperation { message: m })
    }
}

/// A method of MapBox that changes the map `d`: `set`, `delete` or `clear`.
fn map_mut_method(d: &mut AssocMap<NyashBox>, key: &String, method: &String, args: &Vec<NyashBox>,
    Ghost(heap): Ghost<Seq<HeapObject>>) -> (r: Result<NyashBox, RuntimeError>)
    requires
        old(d).wf(),
        args@.len() > 0 ==> key@ == key_text(heap, args@[0]@),
        method@ == "set"@ || method@ == "delete"@ || method@ == "clear"@,
    ensures
        final(d).wf(),
        final(d)@ == map_step(heap, *old(d), method@, args@).entries,
        outcome(r) == map_step(heap, *old(d), method@, args@).result,
        map_step(heap, *old(d), method@, args@).made is None,
{
    let n = args.len();
    if is_named(method, "set") {
        if n != 2 {
            return Err(arity_error(method, 2, n));
        }
        d.insert(key.clone(), args[1].clone_box());
        let mut m = String::from_str("Set key: ");
        append_text(&mut m, key);
        Ok(NyashBox::StringBox(m))
    } else if is_named(method, "delete") {
        proof {
            reveal_strlit("delete");
            reveal_strlit("get");
            reveal_strlit("has");
            reveal_strlit("containsKey");
        }
        if n != 1 {
            return Err(arity_error(method, 1, n));
        }
        match d.remove(key) {
            Some(_) => {
                let mut m = String::from_str("Deleted key: ");
                append_text(&mut m, key);
                Ok(NyashBox::StringBox(m))
            },
            None => {
                let mut m = String::from_str("Key not found: ");
                append_text(&mut m, key);
                Ok(NyashBox::StringBox(m))
            },
        }
    } else {
        proof {
            reveal_strlit("clear");
            reveal_strlit("get");
            reveal_strlit("has");
            reveal_strlit("containsKey");
            reveal_strlit("keys");
            reveal_strlit("values");
            reveal_strlit("size");
        }
        if n != 0 {
            return Err(arity_error(method, 0, n));
        }
        d.clear();
        Ok(NyashBox::StringBox(String::from_str("Map cleared")))
    }
}

/// The values of the map's keys, as strings, or of its values.
fn map_listing(d: &AssocMap<NyashBox>, keys: bool) -> (r: Vec<NyashBox>)
    ensures
        keys ==> views(r@) == d.key_seq().map_values(|s: Seq<char>| BoxSpec::StringBox(s)),
        !keys ==> views(r@) == views(d.val_seq()),
{
    proof { d.lemma_lens(); }
    let mut r: Vec<NyashBox> = Vec::new();
    let mut i: usize = 0;
    while i < d.len()
        invariant
            i <= d.key_seq().len(),
            d.key_seq().len() == d.val_seq().len(),
            r@.len() == i,
            forall|j: int| 0 <= j < i ==> #[trigger] r@[j]@ == (if keys {
                BoxSpec::StringBox(d.key_seq()[j])
            } else {
                d.val_seq()[j]@
            }),
        decreases d.key_seq().len() - i,
    {
        if keys {
            r.push(NyashBox::StringBox(d.key_at(i).clone()));
        } else {
            r.push(d.value_at(i).clone_box());
        }
        i = i + 1;
    }
    if keys {
        assert(views(r@) =~= d.key_seq().map_values(|s: Seq<char>| BoxSpec::StringBox(s)));
    } else {
        assert(views(r@) =~= views(d.val_seq()));
    }
    r
}

/// Applies a method of MapBox to the map at `h` in the heap.
pub fn map_method(heap: &mut Vec<HeapObject>, h: usize, method: &String, args: &Vec<NyashBox>)
    -> (r: Result<NyashBox, RuntimeError>)
    requires
        heap_wf(old(heap)@),
        h < old(heap)@.len(),
        old(heap)@[h as int] is Dict,
    ensures
        heap_wf(final(heap)@),
        ({
            let st = map_step(old(heap)@, old(heap)@[h as int]->Dict_0, method@, args@);
            &&& outcome(r) == st.result
            &&& map_replaced(old(heap)@, final(heap)@, h as int, st.entries)
            &&& match st.made {
                None => final(heap)@.len() == old(heap)@.len(),
                Some(made) => final(heap)@.len() == old(heap)@.len() + 1
                    && final(heap)@.last() is Array && views(final(heap)@.last()->Array_0@) == made,
            }
        }),
{
    let ghost old_heap = heap@;
    proof { assert(heap_wf(old_heap)); assert(old_heap[h as int] is Dict); }
    let key: String = if args.len() > 0 { display_box(heap, &args[0], DISPLAY_DEPTH) } else { String::new() };
    if is_named(method, "set") || is_named(method, "delete") || is_named(method, "clear") {
        let mut obj = HeapObject::Array(Vec::new());
        std::mem::swap(&mut obj, &mut heap[h]);
        let mut d = match obj {
            HeapObject::Dict(d) => d,
            _ => AssocMap::new(),
        };
        let r = map_mut_method(&mut d, &key, method, args, Ghost(old_heap));
        heap.set(h, HeapObject::Dict(d));
        proof {
            assert forall|j: int| 0 <= j < heap@.len() implies match #[trigger] heap@[j] {
                HeapObject::Instance(inst) => inst.wf(),
                HeapObject::Dict(m) => m.wf(),
                HeapObject::Array(_) => true,
            } by {
                if j != h {
                    assert(heap@[j] == old_heap[j]);
                }
            }
        }
        return r;
    }
    let d: &AssocMap<NyashBox> = match &heap[h] {
        HeapObject::Dict(d) => d,
        _ => { return Err(unknown_method(method, "MapBox")); },
    };
    if is_named(method, "keys") || is_named(method, "values") {
        proof {
            reveal_strlit("keys");
            reveal_strlit("values");
            reveal_strlit("get");
            reveal_strlit("has");
            reveal_strlit("containsKey");
        }
        let n = args.len();
        if n != 0 {
            return Err(arity_error(method, 0, n));
        }
        let items = map_listing(d, is_named(method, "keys"));
        let k = heap.len();
        proof { lemma_heap_push(heap@, HeapObject::Array(items)); }
        heap.push(HeapObject::Array(items));
        Ok(NyashBox::ArrayBox(k))
    } else {
        map_read_method(heap, d, &key, method, args)
    }
}

} // verus!
