//! Where an included file is looked for, and whether it is loaded.

use vstd::prelude::*;
use crate::errors::{RuntimeError, ErrSpec};
use crate::text::{append_text, chars_of, find_chars, join_chars, join_text, occurs_at, skip_vec, string_of, take_vec, find_text, lemma_find_text, single_char};

verus! {

/// A TOML value as the include configuration reads it: a string, a table
/// of named values in the order the parser gives them, or anything else.
pub enum TomlValue {
    Text(String),
    Table(Vec<(String, TomlValue)>),
    Other,
}

/// The TOML document that the toml crate parses from `config`, if it parses.
pub uninterp spec fn toml_parsed(config: Seq<char>) -> Option<TomlValue>;

/// `toml::Value`, declared so that a converter can take it.
#[verifier::external_type_specification]
#[verifier::external_body]
pub struct ExTomlValue(toml::Value);

/// `toml::from_str::<toml::Value>` of `config`, converted to a `TomlValue`;
/// its result is named `toml_parsed`. A text that is no TOML gives `None`.
#[verifier::external_body]
fn toml_document(config: &str) -> (r: Option<TomlValue>)
    ensures
        r == toml_parsed(config@),
{
    match toml::from_str::<toml::Value>(config) {
        Ok(v) => Some(toml_model(&v)),
        Err(_) => None,
    }
}

/// A `toml::Value` as a `TomlValue`, variant for variant: a string stays a
/// string, a table its entries, each converted; any other value is `Other`.
#[verifier::external_body]
fn toml_model(v: &toml::Value) -> (r: TomlValue) {
    match v {
        toml::Value::String(s) => TomlValue::Text(s.clone()),
        toml::Value::Table(t) => TomlValue::Table(t.iter().map(|(k, x)| (k.clone(), toml_model(x))).collect()),
        _ => TomlValue::Other,
    }
}

/// The value under `key` in the entries `t`: the first entry of that name.
pub open spec fn toml_lookup(t: Seq<(String, TomlValue)>, key: Seq<char>) -> Option<TomlValue>
    decreases t.len(),
{
    if t.len() == 0 {
        None
    } else if t[0].0@ == key {
        Some(t[0].1)
    } else {
        toml_lookup(t.drop_first(), key)
    }
}

/// The string that a TOML document holds under `include.roots.<root>`.
pub open spec fn toml_include_root(doc: Option<TomlValue>, root: Seq<char>) -> Option<Seq<char>> {
    match doc {
        Some(TomlValue::Table(top)) => match toml_lookup(top@, "include"@) {
            Some(TomlValue::Table(inc)) => match toml_lookup(inc@, "roots"@) {
                Some(TomlValue::Table(roots)) => match toml_lookup(roots@, root) {
                    Some(TomlValue::Text(s)) => Some(s@),
                    _ => None,
                },
                _ => None,
            },
            _ => None,
        },
        _ => None,
    }
}

/// The value under `key` in the entries `t`, as `toml_lookup` says.
fn table_get<'a>(t: &'a Vec<(String, TomlValue)>, key: &str) -> (r: Option<&'a TomlValue>)
    ensures
        match r {
            Some(v) => toml_lookup(t@, key@) == Some(*v),
            None => toml_lookup(t@, key@) is None,
        },
{
    let k = String::from_str(key);
    let mut i: usize = 0;
    proof { assert(t@.skip(0) =~= t@); }
    while i < t.len()
        invariant
            i <= t@.len(),
            k@ == key@,
            toml_lookup(t@, key@) == toml_lookup(t@.skip(i as int), key@),
        decreases t@.len() - i,
    {
        proof {
            assert(t@.skip(i as int)[0] == t@[i as int]);
            assert(t@.skip(i as int).drop_first() =~= t@.skip(i as int + 1));
        }
        if t[i].0 == k {
            return Some(&t[i].1);
        }
        i = i + 1;
    }
    None
}

/// The string that the configuration text `config` holds under
/// `include.roots.<root>`, when it is TOML and holds one.
fn include_root(config: &str, root: &str) -> (r: Option<String>)
    ensures
        match r {
            Some(s) => toml_include_root(toml_parsed(config@), root@) == Some(s@),
            None => toml_include_root(toml_parsed(config@), root@) is None,
        },
{
    let doc = toml_document(config);
    let top = match &doc {
        Some(TomlValue::Table(t)) => t,
        _ => { return None; },
    };
    let inc = match table_get(top, "include") {
        Some(TomlValue::Table(t)) => t,
        _ => { return None; },
    };
    let roots = match table_get(inc, "roots") {
        Some(TomlValue::Table(t)) => t,
        _ => { return None; },
    };
    match table_get(roots, root) {
        Some(TomlValue::Text(s)) => Some(s.clone()),
        _ => None,
    }
}

pub open spec fn starts_with(s: Seq<char>, p: Seq<char>) -> bool {
    p.len() <= s.len() && s.take(p.len() as int) == p
}

pub open spec fn contains_text(s: Seq<char>, p: Seq<char>) -> bool {
    find_text(s, p) is Some
}

/// `s` without the '/' characters at its end.
pub open spec fn trim_slashes(s: Seq<char>) -> Seq<char>
    decreases s.len(),
{
    if s.len() > 0 && s.last() == '/' { trim_slashes(s.drop_last()) } else { s }
}

/// Where `filename` is looked for. A path that starts with "./" or "../"
/// stays as it is. "root/rest" whose root the configuration names under
/// `include.roots` is resolved under that directory. Else a relative name
/// is taken from the caller's directory when there is one, and from "./"
/// when there is none.
pub open spec fn include_path_spec(config: Option<Seq<char>>, filename: Seq<char>, caller_dir: Option<Seq<char>>) -> Seq<char> {
    let rooted = match find_text(filename, seq!['/']) {
        Some(p) => match config {
            Some(c) => match toml_include_root(toml_parsed(c), filename.take(p)) {
                Some(base) => Some(
                    (if base.len() > 0 && (base.last() == '/' || base.last() == '\\') { base } else { base.push('/') })
                        + filename.skip(p + 1)),
                None => None,
            },
            None => None,
        },
        None => None,
    };
    if starts_with(filename, "./"@) || starts_with(filename, "../"@) {
        filename
    } else if rooted is Some {
        rooted->0
    } else {
        match caller_dir {
            Some(dir) => if !starts_with(filename, "/"@) && !contains_text(filename, ":\\"@) && !contains_text(filename, ":/"@) {
                trim_slashes(dir) + "/"@ + filename
            } else {
                "./"@ + filename
            },
            None => "./"@ + filename,
        }
    }
}

fn starts_with_exec(s: &Vec<char>, p: &str) -> (b: bool)
    ensures
        b == starts_with(s@, p@),
{
    let pc = chars_of(p);
    if pc.len() > s.len() {
        return false;
    }
    let mut i: usize = 0;
    while i < pc.len()
        invariant
            pc@ == p@,
            pc@.len() <= s@.len(),
            i <= pc@.len(),
            forall|j: int| 0 <= j < i ==> s@[j] == pc@[j],
        decreases pc@.len() - i,
    {
        if s[i] != pc[i] {
            assert(s@.take(pc@.len() as int)[i as int] != p@[i as int]);
            return false;
        }
        i = i + 1;
    }
    assert(s@.take(pc@.len() as int) =~= p@);
    true
}

fn trim_slashes_exec(s: &Vec<char>) -> (r: Vec<char>)
    ensures
        r@ == trim_slashes(s@),
{
    let mut e: usize = s.len();
    assert(s@.take(s@.len() as int) =~= s@);
    while e > 0 && s[e - 1] == '/'
        invariant
            e <= s@.len(),
            trim_slashes(s@) == trim_slashes(s@.take(e as int)),
        decreases e,
    {
        assert(s@.take(e as int).drop_last() =~= s@.take(e - 1));
        e = e - 1;
    }
    if e > 0 {
        assert(s@.take(e as int).last() == s@[e - 1]);
    }
    take_vec(s, e)
}

/// Where `filename` is looked for, as `include_path_spec` says; `config` is
/// the text of the configuration file, when there is one.
pub fn resolve_include_path(config: Option<&str>, filename: &str, caller_dir: Option<&str>) -> (r: String)
    ensures
        r@ == include_path_spec(match config { Some(c) => Some(c@), None => None }, filename@,
            match caller_dir { Some(d) => Some(d@), None => None }),
{
    let f = chars_of(filename);
    if starts_with_exec(&f, "./") || starts_with_exec(&f, "../") {
        return String::from_str(filename);
    }
    let slash = single_char('/');
    assert(slash@.len() == 1);
    proof { lemma_find_text(f@, slash@); }
    match find_chars(&f, &slash) {
        Some(p) => {
            assert(occurs_at(f@, slash@, p as int));
            let flen: usize = f.len();
            assert(p + 1 <= flen);
            match config {
                Some(c) => {
                    let root = string_of(&take_vec(&f, p));
                    match include_root(c, root.as_str()) {
                        Some(base) => {
                            let mut b = chars_of(base.as_str());
                            let n = b.len();
                            if !(n > 0 && (b[n - 1] == '/' || b[n - 1] == '\\')) {
                                b.push('/');
                            }
                            let rest = skip_vec(&f, p + 1);
                            let mut out = string_of(&b);
                            append_text(&mut out, &string_of(&rest));
                            return out;
                        },
                        None => {},
                    }
                },
                None => {},
            }
        },
        None => {},
    }
    match caller_dir {
        Some(dir) => {
            let backslash = chars_of(":\\");
            let colon_slash = chars_of(":/");
            if !starts_with_exec(&f, "/") && find_chars(&f, &backslash).is_none() && find_chars(&f, &colon_slash).is_none() {
                let d = trim_slashes_exec(&chars_of(dir));
                let mut out = string_of(&d);
                out.append("/");
                out.append(filename);
                out
            } else {
                let mut out = String::from_str("./");
                out.append(filename);
                out
            }
        },
        None => {
            let mut out = String::from_str("./");
            out.append(filename);
            out
        },
    }
}

/// What including `path` does, given the files being loaded (`stack`, the
/// outermost first) and those loaded already: a path that is being loaded
/// closes a cycle, which is an error naming it; a loaded path is skipped
/// (`false`); any other is loaded (`true`).
pub open spec fn include_decision_spec(stack: Seq<Seq<char>>, included: Seq<Seq<char>>, path: Seq<char>) -> Result<bool, ErrSpec> {
    if stack.contains(path) {
        let pos = choose|i: int| 0 <= i < stack.len() && stack[i] == path && forall|j: int| 0 <= j < i ==> stack[j] != path;
        Err(ErrSpec::InvalidOperation("include cycle detected: "@ + join_text(stack.skip(pos).push(path), " -> "@)))
    } else {
        Ok(!included.contains(path))
    }
}

/// Decides whether `path` is loaded, as `include_decision_spec` says.
pub fn include_decision(stack: &Vec<String>, included: &Vec<String>, path: &String) -> (r: Result<bool, RuntimeError>)
    ensures
        match r {
            Ok(b) => include_decision_spec(stack@.map_values(|s: String| s@), included@.map_values(|s: String| s@), path@)
                == Ok::<bool, ErrSpec>(b),
            Err(e) => include_decision_spec(stack@.map_values(|s: String| s@), included@.map_values(|s: String| s@), path@)
                == Err::<bool, ErrSpec>(e@),
        },
{
    let ghost sv = stack@.map_values(|s: String| s@);
    let ghost iv = included@.map_values(|s: String| s@);
    let mut i: usize = 0;
    while i < stack.len()
        invariant
            i <= stack@.len(),
            sv == stack@.map_values(|s: String| s@),
            forall|j: int| 0 <= j < i ==> sv[j] != path@,
        decreases stack@.len() - i,
    {
        if stack[i] == *path {
            let ghost pos = choose|k: int| 0 <= k < sv.len() && sv[k] == path@ && forall|j: int| 0 <= j < k ==> sv[j] != path@;
            assert(sv[i as int] == path@);
            assert(sv.contains(path@));
            assert(pos == i) by {
                assert(0 <= i < sv.len() && sv[i as int] == path@ && forall|j: int| 0 <= j < i ==> sv[j] != path@);
                if pos < i {
                    assert(sv[pos] != path@);
                } else if pos > i {
                    assert(sv[i as int] != path@);
                }
            }
            let mut chain: Vec<Vec<char>> = Vec::new();
            let mut k: usize = i;
            while k < stack.len()
                invariant
                    i <= k <= stack@.len(),
                    sv == stack@.map_values(|s: String| s@),
                    chain@.len() == k - i,
                    forall|j: int| 0 <= j < chain@.len() ==> #[trigger] chain@[j]@ == sv[i + j],
                decreases stack@.len() - k,
            {
                chain.push(chars_of(stack[k].as_str()));
                k = k + 1;
            }
            chain.push(chars_of(path.as_str()));
            assert(chain@.map_values(|p: Vec<char>| p@) =~= sv.skip(i as int).push(path@));
            let joined = join_chars(&chain, &chars_of(" -> "));
            let mut m = String::from_str("include cycle detected: ");
            append_text(&mut m, &string_of(&joined));
            return Err(RuntimeError::InvalidOperation { message: m });
        }
        i = i + 1;
    }
    assert(!sv.contains(path@));
    let mut j: usize = 0;
    while j < included.len()
        invariant
            j <= included@.len(),
            iv == included@.map_values(|s: String| s@),
            sv == stack@.map_values(|s: String| s@),
            !sv.contains(path@),
            forall|k: int| 0 <= k < j ==> iv[k] != path@,
        decreases included@.len() - j,
    {
        if included[j] == *path {
            assert(iv[j as int] == path@);
            assert(iv.contains(path@));
            assert(!sv.contains(path@));
            return Ok(false);
        }
        j = j + 1;
    }
    assert(!iv.contains(path@));
    Ok(true)
}

} // verus!
