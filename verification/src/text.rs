use vstd::prelude::*;

verus! {

/// Appends one character to a string.
#[verifier::external_body]
pub fn push_char(s: &mut String, c: char)
    ensures
        final(s)@ == old(s)@.push(c),
{
    s.push(c);
}

/// The characters of `s`, in order.
pub fn chars_of(s: &str) -> (v: Vec<char>)
    ensures
        v@ == s@,
{
    let n = s.unicode_len();
    let mut v: Vec<char> = Vec::new();
    let mut i: usize = 0;
    while i < n
        invariant
            n == s@.len(),
            i <= n,
            v@ == s@.subrange(0, i as int),
        decreases n - i,
    {
        v.push(s.get_char(i));
        i = i + 1;
    }
    v
}

/// Builds a string from its characters.
pub fn string_of(v: &Vec<char>) -> (s: String)
    ensures
        s@ == v@,
{
    let mut s = String::new();
    let mut i: usize = 0;
    while i < v.len()
        invariant
            i <= v.len(),
            s@ == v@.subrange(0, i as int),
        decreases v.len() - i,
    {
        push_char(&mut s, v[i]);
        i = i + 1;
    }
    s
}

} // verus!

verus! {

/// The character of a decimal digit.
pub open spec fn digit_char(d: nat) -> char {
    ((d + 48) as u8) as char
}

/// The decimal digits of a natural number, most significant first.
pub open spec fn decimal(n: nat) -> Seq<char>
    decreases n,
{
    if n < 10 {
        seq![digit_char(n)]
    } else {
        decimal(n / 10).push(digit_char(n % 10))
    }
}

/// The decimal text of an integer, with a leading '-' when it is negative.
pub open spec fn int_text(i: int) -> Seq<char> {
    if i < 0 {
        seq!['-'] + decimal((-i) as nat)
    } else {
        decimal(i as nat)
    }
}

/// Appends the decimal digits of `n`.
pub fn push_decimal(s: &mut Vec<char>, n: u64)
    ensures
        final(s)@ == old(s)@ + decimal(n as nat),
    decreases n,
{
    if n >= 10 {
        push_decimal(s, n / 10);
    }
    let d: u8 = (n % 10) as u8;
    s.push((48u8 + d) as char);
    assert(decimal(n as nat) == if n < 10 { seq![digit_char(n as nat)] } else { decimal((n / 10) as nat).push(digit_char((n % 10) as nat)) });
}

/// The decimal text of a signed integer.
pub fn i64_to_string(i: i64) -> (r: String)
    ensures
        r@ == int_text(i as int),
{
    let mut v: Vec<char> = Vec::new();
    let mag: u64;
    if i < 0 {
        v.push('-');
        mag = if i == i64::MIN { 9223372036854775808u64 } else { (-i) as u64 };
    } else {
        mag = i as u64;
    }
    push_decimal(&mut v, mag);
    assert(v@ == int_text(i as int));
    string_of(&v)
}

} // verus!

verus! {

/// `s` written `n` times in a row.
pub open spec fn repeat_text(s: Seq<char>, n: nat) -> Seq<char>
    decreases n,
{
    if n == 0 {
        Seq::empty()
    } else {
        repeat_text(s, (n - 1) as nat) + s
    }
}

/// `s` written `n` times in a row.
pub fn repeat_string(s: &String, n: u64) -> (r: String)
    ensures
        r@ == repeat_text(s@, n as nat),
{
    let mut r = String::new();
    let mut i: u64 = 0;
    while i < n
        invariant
            i <= n,
            r@ == repeat_text(s@, i as nat),
        decreases n - i,
    {
        r.append(s.as_str());
        i = i + 1;
    }
    r
}

/// Whether `a` comes before `b` in the order of their characters' code points,
/// which is the order in which Rust compares strings.
pub open spec fn text_less(a: Seq<char>, b: Seq<char>) -> bool
    decreases a.len(),
{
    if a.len() == 0 {
        b.len() > 0
    } else if b.len() == 0 {
        false
    } else if a[0] != b[0] {
        (a[0] as u32) < (b[0] as u32)
    } else {
        text_less(a.drop_first(), b.drop_first())
    }
}

/// Whether `a` comes before `b`, as `a < b` compares strings.
pub fn string_less(a: &String, b: &String) -> (r: bool)
    ensures
        r == text_less(a@, b@),
{
    let ac = chars_of(a.as_str());
    let bc = chars_of(b.as_str());
    let mut i: usize = 0;
    assert(ac@.skip(0) =~= ac@);
    assert(bc@.skip(0) =~= bc@);
    while i < ac.len() && i < bc.len()
        invariant
            ac@ == a@,
            bc@ == b@,
            i <= ac@.len(),
            i <= bc@.len(),
            text_less(a@, b@) == text_less(ac@.skip(i as int), bc@.skip(i as int)),
        decreases ac@.len() - i,
    {
        assert(ac@.skip(i as int).drop_first() =~= ac@.skip(i + 1));
        assert(bc@.skip(i as int).drop_first() =~= bc@.skip(i + 1));
        if ac[i] != bc[i] {
            return (ac[i] as u32) < (bc[i] as u32);
        }
        i = i + 1;
    }
    i == ac.len() && i < bc.len()
}

} // verus!

verus! {

/// Whether `needle` occurs in `hay` at position `i`.
pub open spec fn occurs_at(hay: Seq<char>, needle: Seq<char>, i: int) -> bool {
    0 <= i && i + needle.len() <= hay.len() && hay.subrange(i, i + needle.len()) == needle
}

/// The first position at which `needle` occurs in `hay`.
pub open spec fn find_text(hay: Seq<char>, needle: Seq<char>) -> Option<int> {
    if exists|i: int| occurs_at(hay, needle, i) {
        Some(choose|i: int| occurs_at(hay, needle, i) && forall|j: int| 0 <= j < i ==> !occurs_at(hay, needle, j))
    } else {
        None
    }
}

/// The first occurrence is an occurrence, and no earlier position is one.
pub proof fn lemma_find_text(hay: Seq<char>, needle: Seq<char>)
    ensures
        find_text(hay, needle) matches Some(i) ==> occurs_at(hay, needle, i)
            && forall|j: int| 0 <= j < i ==> !occurs_at(hay, needle, j),
        find_text(hay, needle) is None ==> forall|j: int| !occurs_at(hay, needle, j),
{
    if exists|i: int| occurs_at(hay, needle, i) {
        let w = choose|i: int| occurs_at(hay, needle, i);
        lemma_least_occurrence(hay, needle, w);
    }
}

proof fn lemma_least_occurrence(hay: Seq<char>, needle: Seq<char>, w: int)
    requires
        occurs_at(hay, needle, w),
    ensures
        exists|i: int| occurs_at(hay, needle, i) && forall|j: int| 0 <= j < i ==> !occurs_at(hay, needle, j),
    decreases w,
{
    if exists|j: int| 0 <= j < w && occurs_at(hay, needle, j) {
        let j = choose|j: int| 0 <= j < w && occurs_at(hay, needle, j);
        lemma_least_occurrence(hay, needle, j);
    } else {
        assert(occurs_at(hay, needle, w) && forall|j: int| 0 <= j < w ==> !occurs_at(hay, needle, j));
    }
}

/// Whether `needle` occurs at position `i` of `hay`.
pub fn occurs_at_exec(hay: &Vec<char>, needle: &Vec<char>, i: usize) -> (b: bool)
    ensures
        b == occurs_at(hay@, needle@, i as int),
{
    if i > hay.len() || needle.len() > hay.len() - i {
        return false;
    }
    let mut k: usize = 0;
    while k < needle.len()
        invariant
            i + needle@.len() <= hay@.len(),
            k <= needle@.len(),
            forall|j: int| 0 <= j < k ==> hay@[i + j] == needle@[j],
        decreases needle@.len() - k,
    {
        assert(i + k < hay@.len());
        assert(hay@.len() == hay.len());
        if hay[i + k] != needle[k] {
            assert(hay@.subrange(i as int, i + needle@.len())[k as int] != needle@[k as int]);
            return false;
        }
        k = k + 1;
    }
    assert(hay@.subrange(i as int, i + needle@.len()) =~= needle@);
    true
}

/// The first position at which `needle` occurs in `hay`, if any.
pub fn find_chars(hay: &Vec<char>, needle: &Vec<char>) -> (r: Option<usize>)
    ensures
        match r {
            Some(i) => find_text(hay@, needle@) == Some(i as int),
            None => find_text(hay@, needle@) is None,
        },
{
    let mut i: usize = 0;
    loop
        invariant
            i <= hay@.len(),
            forall|j: int| 0 <= j < i ==> !occurs_at(hay@, needle@, j),
        decreases hay@.len() - i,
    {
        if occurs_at_exec(hay, needle, i) {
            proof {
                let w = choose|w: int| occurs_at(hay@, needle@, w) && forall|j: int| 0 <= j < w ==> !occurs_at(hay@, needle@, j);
                assert(occurs_at(hay@, needle@, w));
                if w > i {
                    assert(!occurs_at(hay@, needle@, i as int));
                }
            }
            return Some(i);
        }
        if i == hay.len() {
            proof {
                assert forall|j: int| !occurs_at(hay@, needle@, j) by {
                    if 0 <= j && j <= i {
                    }
                }
            }
            return None;
        }
        i = i + 1;
    }
}

pub open spec fn is_digit(c: char) -> bool {
    '0' <= c && c <= '9'
}

/// The value of a string of decimal digits.
pub open spec fn digits_value(s: Seq<char>) -> nat
    decreases s.len(),
{
    if s.len() == 0 {
        0
    } else {
        digits_value(s.drop_last()) * 10 + ((s.last() as int - 48) as nat)
    }
}

/// What `str::parse::<u64>` gives: an optional '+' and then one or more
/// decimal digits whose value fits in 64 bits.
pub open spec fn parse_u64_spec(s: Seq<char>) -> Option<u64> {
    parse_u64_spec_body(if s.len() > 0 && s[0] == '+' { s.drop_first() } else { s })
}

proof fn lemma_digits_monotone(s: Seq<char>, n: int)
    requires
        0 <= n <= s.len(),
        forall|i: int| 0 <= i < s.len() ==> is_digit(#[trigger] s[i]),
    ensures
        digits_value(s.take(n)) <= digits_value(s),
    decreases s.len() - n,
{
    if n < s.len() {
        lemma_digits_monotone(s, n + 1);
        assert(s.take(n + 1).drop_last() =~= s.take(n));
    } else {
        assert(s.take(n) =~= s);
    }
}

/// Parses a decimal number as `str::parse::<u64>` does.
pub fn parse_u64(s: &Vec<char>) -> (r: Option<u64>)
    ensures
        r == parse_u64_spec(s@),
{
    let start: usize = if s.len() > 0 && s[0] == '+' { 1 } else { 0 };
    let ghost body = if s@.len() > 0 && s@[0] == '+' { s@.drop_first() } else { s@ };
    assert(body =~= s@.skip(start as int));
    assert(parse_u64_spec(s@) == parse_u64_spec_body(body));
    if start >= s.len() {
        return None;
    }
    let mut acc: u64 = 0;
    let mut i: usize = start;
    while i < s.len()
        invariant
            start <= i <= s@.len(),
            body =~= s@.skip(start as int),
            parse_u64_spec(s@) == parse_u64_spec_body(body),
            forall|j: int| 0 <= j < i - start ==> is_digit(#[trigger] body[j]),
            acc as nat == digits_value(body.take(i - start)),
        decreases s@.len() - i,
    {
        let c = s[i];
        if !('0' <= c && c <= '9') {
            proof {
                assert(!is_digit(body[i - start]));
                assert(parse_u64_spec_body(body) is None);
            }
            return None;
        }
        let d: u64 = (c as u32 - 48) as u64;
        proof {
            assert(body.take(i - start + 1).drop_last() =~= body.take(i - start));
            assert(body.take(i - start + 1).last() == c);
        }
        match acc.checked_mul(10) {
            Some(m) => match m.checked_add(d) {
                Some(n) => {
                    acc = n;
                },
                None => {
                    proof { lemma_overflow_none(body, (i - start) as int); }
                    return None;
                },
            },
            None => {
                proof { lemma_overflow_none(body, (i - start) as int); }
                return None;
            },
        }
        i = i + 1;
    }
    assert(body.take(s@.len() - start) =~= body);
    Some(acc)
}

proof fn lemma_overflow_none(body: Seq<char>, k: int)
    requires
        0 <= k < body.len(),
        digits_value(body.take(k + 1)) > u64::MAX,
    ensures
        parse_u64_spec_body(body) is None,
{
    if forall|i: int| 0 <= i < body.len() ==> is_digit(#[trigger] body[i]) {
        lemma_digits_monotone(body, k + 1);
    }
}

/// `parse_u64_spec` once the sign has been taken off.
pub open spec fn parse_u64_spec_body(body: Seq<char>) -> Option<u64> {
    if body.len() > 0 && (forall|i: int| 0 <= i < body.len() ==> is_digit(#[trigger] body[i]))
        && digits_value(body) <= u64::MAX {
        Some(digits_value(body) as u64)
    } else {
        None
    }
}

} // verus!

verus! {

/// The pieces of `s` between the occurrences of `d`, as `str::split` with a
/// non-empty pattern gives them.
pub open spec fn split_text(s: Seq<char>, d: Seq<char>) -> Seq<Seq<char>>
    decreases s.len(),
{
    if d.len() == 0 {
        seq![s]
    } else {
        match find_text(s, d) {
            Some(i) => if 0 <= i && i + d.len() <= s.len() {
                seq![s.take(i)] + split_text(s.skip(i + d.len()), d)
            } else {
                seq![s]
            },
            None => seq![s],
        }
    }
}

/// `str::split` with an empty pattern: an empty piece, each character, and
/// another empty piece.
pub open spec fn split_empty_text(s: Seq<char>) -> Seq<Seq<char>> {
    seq![Seq::<char>::empty()] + Seq::new(s.len(), |i: int| seq![s[i]]) + seq![Seq::<char>::empty()]
}

/// The pieces that `str::split(d)` gives.
pub open spec fn split_pieces(s: Seq<char>, d: Seq<char>) -> Seq<Seq<char>> {
    if d.len() == 0 { split_empty_text(s) } else { split_text(s, d) }
}

/// The pieces of `s` between the occurrences of `d`, as `str::split` gives them.
#[verifier::rlimit(40)]
pub fn split_chars(s: &Vec<char>, d: &Vec<char>) -> (r: Vec<Vec<char>>)
    ensures
        r@.len() == split_pieces(s@, d@).len(),
        forall|i: int| 0 <= i < r@.len() ==> #[trigger] r@[i]@ == split_pieces(s@, d@)[i],
{
    let mut r: Vec<Vec<char>> = Vec::new();
    if d.len() == 0 {
        r.push(Vec::new());
        let mut i: usize = 0;
        while i < s.len()
            invariant
                i <= s@.len(),
                r@.len() == i + 1,
                r@[0]@ == Seq::<char>::empty(),
                forall|j: int| 1 <= j <= i ==> #[trigger] r@[j]@ == seq![s@[j - 1]],
            decreases s@.len() - i,
        {
            let mut piece: Vec<char> = Vec::new();
            piece.push(s[i]);
            r.push(piece);
            i = i + 1;
        }
        r.push(Vec::new());
        proof {
            let sp = split_empty_text(s@);
            assert(sp.len() == s@.len() + 2);
            assert forall|j: int| 0 <= j < r@.len() implies #[trigger] r@[j]@ == sp[j] by {
                if j == 0 {
                } else if j <= s@.len() {
                    assert(sp[j] == seq![s@[j - 1]]);
                } else {
                }
            }
        }
        return r;
    }
    let mut rest: Vec<char> = s.clone();
    assert(rest@ == s@);
    loop
        invariant
            d@.len() > 0,
            split_text(s@, d@) == r@.map_values(|p: Vec<char>| p@) + split_text(rest@, d@),
        decreases rest@.len(),
    {
        proof { lemma_find_text(rest@, d@); }
        match find_chars(&rest, d) {
            Some(i) => {
                let n: usize = rest.len();
                assert(occurs_at(rest@, d@, i as int));
                assert(i + d@.len() <= n);
                let piece = take_vec(&rest, i);
                let tail = skip_vec(&rest, i + d.len());
                let ghost before = r@.map_values(|p: Vec<char>| p@);
                let ghost pv = piece@;
                proof {
                    assert(split_text(rest@, d@) == seq![rest@.take(i as int)] + split_text(rest@.skip(i + d@.len()), d@));
                }
                r.push(piece);
                proof {
                    assert(r@.map_values(|p: Vec<char>| p@) =~= before.push(pv));
                    assert(before + (seq![pv] + split_text(tail@, d@))
                        =~= before.push(pv) + split_text(tail@, d@));
                }
                rest = tail;
            },
            None => {
                let ghost before = r@.map_values(|p: Vec<char>| p@);
                r.push(rest);
                proof {
                    assert(r@.map_values(|p: Vec<char>| p@) =~= before.push(rest@));
                    assert(before + seq![rest@] =~= before.push(rest@));
                    assert(r@.map_values(|p: Vec<char>| p@) == split_text(s@, d@));
                }
                return r;
            },
        }
    }
}

/// A one-character sequence.
pub fn single_char(c: char) -> (v: Vec<char>)
    ensures
        v@ == seq![c],
{
    let mut v: Vec<char> = Vec::new();
    v.push(c);
    v
}

/// The characters of `s` from position `from` on.
pub fn skip_vec(s: &Vec<char>, from: usize) -> (r: Vec<char>)
    requires
        from <= s@.len(),
    ensures
        r@ == s@.skip(from as int),
{
    let mut r: Vec<char> = Vec::new();
    let mut i: usize = from;
    while i < s.len()
        invariant
            from <= i <= s@.len(),
            r@ == s@.subrange(from as int, i as int),
        decreases s@.len() - i,
    {
        r.push(s[i]);
        i = i + 1;
    }
    r
}

/// The first `n` characters of `s`.
pub fn take_vec(s: &Vec<char>, n: usize) -> (r: Vec<char>)
    requires
        n <= s@.len(),
    ensures
        r@ == s@.take(n as int),
{
    let mut r: Vec<char> = Vec::new();
    let mut i: usize = 0;
    while i < n
        invariant
            i <= n <= s@.len(),
            r@ == s@.take(i as int),
        decreases n - i,
    {
        r.push(s[i]);
        assert(s@.take(i + 1) =~= s@.take(i as int).push(s@[i as int]));
        i = i + 1;
    }
    r
}

} // verus!

verus! {

/// Appends `t` to `s`.
pub fn append_text(s: &mut String, t: &String)
    ensures
        final(s)@ == old(s)@ + t@,
{
    s.append(t.as_str());
}

/// The pieces joined into one text, with `sep` between each two of them.
pub open spec fn join_text(pieces: Seq<Seq<char>>, sep: Seq<char>) -> Seq<char>
    decreases pieces.len(),
{
    if pieces.len() == 0 {
        Seq::empty()
    } else if pieces.len() == 1 {
        pieces[0]
    } else {
        join_text(pieces.drop_last(), sep) + sep + pieces.last()
    }
}

/// Joins the pieces with `sep` between each two of them.
pub fn join_chars(pieces: &Vec<Vec<char>>, sep: &Vec<char>) -> (r: Vec<char>)
    ensures
        r@ == join_text(pieces@.map_values(|p: Vec<char>| p@), sep@),
{
    let ghost ps = pieces@.map_values(|p: Vec<char>| p@);
    let mut r: Vec<char> = Vec::new();
    let mut i: usize = 0;
    while i < pieces.len()
        invariant
            i <= pieces@.len(),
            ps == pieces@.map_values(|p: Vec<char>| p@),
            r@ == join_text(ps.take(i as int), sep@),
        decreases pieces@.len() - i,
    {
        if i > 0 {
            r.extend_from_slice(sep.as_slice());
        }
        r.extend_from_slice(pieces[i].as_slice());
        proof {
            let t = ps.take(i + 1);
            assert(t.drop_last() =~= ps.take(i as int));
            assert(t.last() == pieces@[i as int]@);
            if i == 0 {
                assert(t.len() == 1);
            }
        }
        i = i + 1;
    }
    assert(ps.take(pieces@.len() as int) =~= ps);
    r
}

/// What `str::replace(from, to)` gives: the pieces of `s` between the
/// occurrences of `from`, joined with `to`.
pub open spec fn replace_text(s: Seq<char>, from: Seq<char>, to: Seq<char>) -> Seq<char> {
    join_text(split_pieces(s, from), to)
}

/// Replaces each occurrence of `from` in `s` with `to`, as `str::replace` does.
pub fn replace_chars(s: &Vec<char>, from: &Vec<char>, to: &Vec<char>) -> (r: Vec<char>)
    ensures
        r@ == replace_text(s@, from@, to@),
{
    let pieces = split_chars(s, from);
    assert(pieces@.map_values(|p: Vec<char>| p@) =~= split_pieces(s@, from@));
    join_chars(&pieces, to)
}

/// The characters that `char::is_whitespace` accepts: those with the Unicode
/// property White_Space.
pub open spec fn is_space(c: char) -> bool {
    ('\u{9}' <= c && c <= '\u{d}') || c == ' ' || c == '\u{85}' || c == '\u{a0}' || c == '\u{1680}'
        || ('\u{2000}' <= c && c <= '\u{200a}') || c == '\u{2028}' || c == '\u{2029}' || c == '\u{202f}'
        || c == '\u{205f}' || c == '\u{3000}'
}

fn is_space_exec(c: char) -> (b: bool)
    ensures
        b == is_space(c),
{
    ('\u{9}' <= c && c <= '\u{d}') || c == ' ' || c == '\u{85}' || c == '\u{a0}' || c == '\u{1680}'
        || ('\u{2000}' <= c && c <= '\u{200a}') || c == '\u{2028}' || c == '\u{2029}' || c == '\u{202f}'
        || c == '\u{205f}' || c == '\u{3000}'
}

/// What `str::trim` gives: `s` without the white space at either end.
pub open spec fn trim_text(s: Seq<char>) -> Seq<char> {
    s.subrange(leading_spaces(s), s.len() - trailing_spaces(s))
}

/// How many white-space characters `s` begins with.
pub open spec fn leading_spaces(s: Seq<char>) -> int
    decreases s.len(),
{
    if s.len() > 0 && is_space(s[0]) { 1 + leading_spaces(s.drop_first()) } else { 0 }
}

/// How many white-space characters `s` ends with, not counting past its start.
pub open spec fn trailing_spaces(s: Seq<char>) -> int
    decreases s.len(),
{
    if s.len() > 0 && is_space(s.last()) && leading_spaces(s) < s.len() {
        1 + trailing_spaces(s.drop_last())
    } else {
        0
    }
}

proof fn lemma_leading(s: Seq<char>, i: int)
    requires
        0 <= i <= s.len(),
        forall|j: int| 0 <= j < i ==> is_space(#[trigger] s[j]),
    ensures
        leading_spaces(s) == i + leading_spaces(s.skip(i)),
    decreases i,
{
    if i > 0 {
        assert(is_space(s[0]));
        let t = s.drop_first();
        assert forall|j: int| 0 <= j < i - 1 implies is_space(#[trigger] t[j]) by {
            assert(t[j] == s[j + 1]);
        }
        lemma_leading(t, i - 1);
        assert(t.skip(i - 1) =~= s.skip(i));
    } else {
        assert(s.skip(0) =~= s);
    }
}

proof fn lemma_leading_bound(s: Seq<char>)
    ensures
        0 <= leading_spaces(s) <= s.len(),
        leading_spaces(s) < s.len() ==> !is_space(s[leading_spaces(s)]),
        forall|j: int| 0 <= j < leading_spaces(s) ==> is_space(#[trigger] s[j]),
    decreases s.len(),
{
    if s.len() > 0 && is_space(s[0]) {
        let t = s.drop_first();
        lemma_leading_bound(t);
        assert forall|j: int| 0 <= j < leading_spaces(s) implies is_space(#[trigger] s[j]) by {
            if j > 0 {
                assert(s[j] == t[j - 1]);
            }
        }
    }
}

proof fn lemma_trailing(s: Seq<char>, k: int)
    requires
        0 <= k <= s.len() - leading_spaces(s),
        forall|j: int| s.len() - k <= j < s.len() ==> is_space(#[trigger] s[j]),
    ensures
        trailing_spaces(s) == k + trailing_spaces(s.take(s.len() - k)),
        leading_spaces(s.take(s.len() - k)) == leading_spaces(s),
    decreases k,
{
    lemma_leading_bound(s);
    if k > 0 {
        assert(is_space(s.last()));
        let t = s.drop_last();
        lemma_leading_prefix(s, t);
        assert forall|j: int| t.len() - (k - 1) <= j < t.len() implies is_space(#[trigger] t[j]) by {
            assert(t[j] == s[j]);
        }
        lemma_trailing(t, k - 1);
        assert(t.take(t.len() - (k - 1)) =~= s.take(s.len() - k));
    } else {
        assert(s.take(s.len() as int) =~= s);
    }
}

proof fn lemma_leading_prefix(s: Seq<char>, t: Seq<char>)
    requires
        t.len() <= s.len(),
        t =~= s.take(t.len() as int),
        leading_spaces(s) < t.len(),
    ensures
        leading_spaces(t) == leading_spaces(s),
    decreases t.len(),
{
    lemma_leading_bound(s);
    assert(t.len() > 0);
    assert(t[0] == s.take(t.len() as int)[0]);
    if s.len() > 0 && is_space(s[0]) {
        assert(t.drop_first() =~= s.drop_first().take(t.len() - 1));
        lemma_leading_prefix(s.drop_first(), t.drop_first());
    }
}

proof fn lemma_trailing_bound(s: Seq<char>)
    ensures
        0 <= trailing_spaces(s) <= s.len() - leading_spaces(s),
        trailing_spaces(s) < s.len() - leading_spaces(s) ==> !is_space(s[s.len() - trailing_spaces(s) - 1]),
    decreases s.len(),
{
    lemma_leading_bound(s);
    if s.len() > 0 && is_space(s.last()) && leading_spaces(s) < s.len() {
        let t = s.drop_last();
        lemma_trailing_bound(t);
        if leading_spaces(s) < t.len() {
            lemma_leading_prefix(s, t);
        } else {
            lemma_leading_bound(t);
            assert(leading_spaces(s) == s.len() - 1);
            assert(!is_space(s[s.len() - 1]));
        }
    }
}

/// `s` without the white space at either end, as `str::trim` gives it.
pub fn trim_chars(s: &Vec<char>) -> (r: Vec<char>)
    ensures
        r@ == trim_text(s@),
{
    let mut i: usize = 0;
    while i < s.len() && is_space_exec(s[i])
        invariant
            i <= s@.len(),
            forall|j: int| 0 <= j < i ==> is_space(#[trigger] s@[j]),
        decreases s@.len() - i,
    {
        i = i + 1;
    }
    proof {
        lemma_leading(s@, i as int);
        lemma_leading_bound(s@.skip(i as int));
        if i < s@.len() {
            assert(s@.skip(i as int)[0] == s@[i as int]);
        }
        assert(leading_spaces(s@) == i);
    }
    let mut e: usize = s.len();
    while e > i && is_space_exec(s[e - 1])
        invariant
            i <= e <= s@.len(),
            leading_spaces(s@) == i,
            forall|j: int| e <= j < s@.len() ==> is_space(#[trigger] s@[j]),
        decreases e,
    {
        e = e - 1;
    }
    proof {
        let k = s@.len() - e;
        lemma_trailing(s@, k);
        let t = s@.take(e as int);
        lemma_trailing_bound(t);
        if e > i {
            assert(!is_space(t.last()));
        }
        assert(trailing_spaces(t) == 0);
    }
    let mut r: Vec<char> = Vec::new();
    let mut j: usize = i;
    while j < e
        invariant
            i <= j <= e <= s@.len(),
            r@ == s@.subrange(i as int, j as int),
        decreases e - j,
    {
        r.push(s[j]);
        j = j + 1;
    }
    r
}

} // verus!

verus! {

/// What `str::parse::<i64>` gives: an optional sign and then one or more
/// decimal digits whose value fits in 64 signed bits.
pub open spec fn parse_i64_spec(s: Seq<char>) -> Option<i64> {
    if s.len() > 0 && s[0] == '-' {
        let body = s.drop_first();
        match parse_u64_spec_body(body) {
            Some(v) => if v <= 0x8000_0000_0000_0000u64 { Some((-(v as int)) as i64) } else { None },
            None => None,
        }
    } else {
        match parse_u64_spec(s) {
            Some(v) => if v <= i64::MAX { Some(v as i64) } else { None },
            None => None,
        }
    }
}

/// Parses a decimal number as `str::parse::<i64>` does.
pub fn parse_i64(s: &Vec<char>) -> (r: Option<i64>)
    ensures
        r == parse_i64_spec(s@),
{
    if s.len() > 0 && s[0] == '-' {
        let body = skip_vec(s, 1);
        assert(body@ =~= s@.drop_first());
        if body.len() > 0 && body[0] == '+' {
            return None;
        }
        assert(parse_u64_spec(body@) == parse_u64_spec_body(body@));
        match parse_u64(&body) {
            Some(v) => {
                if v <= 0x8000_0000_0000_0000u64 {
                    if v == 0x8000_0000_0000_0000u64 {
                        Some(i64::MIN)
                    } else {
                        let w: i64 = v as i64;
                        Some(-w)
                    }
                } else {
                    None
                }
            },
            None => None,
        }
    } else {
        match parse_u64(s) {
            Some(v) => if v <= 0x7fff_ffff_ffff_ffffu64 { Some(v as i64) } else { None },
            None => None,
        }
    }
}

/// The characters of `s` from `start` up to `end`, each bound held to the
/// length of `s` and `start` held to `end`.
pub open spec fn substring_text(s: Seq<char>, start: int, end: int) -> Seq<char> {
    let e = if end < s.len() { end } else { s.len() as int };
    let b = if start < e { start } else { e };
    s.subrange(b, e)
}

/// The characters of `s` from `start` up to `end`, clamped as
/// `substring_text` says.
pub fn substring_chars(s: &Vec<char>, start: usize, end: usize) -> (r: Vec<char>)
    ensures
        r@ == substring_text(s@, start as int, end as int),
{
    let e: usize = if end < s.len() { end } else { s.len() };
    let b: usize = if start < e { start } else { e };
    let mut r: Vec<char> = Vec::new();
    let mut j: usize = b;
    while j < e
        invariant
            b <= j <= e <= s@.len(),
            r@ == s@.subrange(b as int, j as int),
        decreases e - j,
    {
        r.push(s[j]);
        j = j + 1;
    }
    r
}

/// What `str::to_uppercase` gives for a text: the Unicode upper-case mapping
/// of each of its characters.
pub uninterp spec fn upper_text(s: Seq<char>) -> Seq<char>;

/// What `str::to_lowercase` gives for a text: the Unicode lower-case mapping
/// of each of its characters, with the final-sigma rule.
pub uninterp spec fn lower_text(s: Seq<char>) -> Seq<char>;

/// `str::to_uppercase` of `s`; its result is named `upper_text`.
#[verifier::external_body]
pub(crate) fn to_upper(s: &String) -> (r: String)
    ensures
        r@ == upper_text(s@),
{
    s.to_uppercase()
}

/// `str::to_lowercase` of `s`; its result is named `lower_text`.
#[verifier::external_body]
pub(crate) fn to_lower(s: &String) -> (r: String)
    ensures
        r@ == lower_text(s@),
{
    s.to_lowercase()
}

} // verus!

verus! {

/// A position where `needle` occurs, with no occurrence before it, is the
/// one `find_text` gives.
pub proof fn lemma_find_first(hay: Seq<char>, needle: Seq<char>, p: int)
    requires
        occurs_at(hay, needle, p),
        forall|j: int| 0 <= j < p ==> !occurs_at(hay, needle, j),
    ensures
        find_text(hay, needle) == Some(p),
{
    lemma_find_text(hay, needle);
    let i = find_text(hay, needle)->0;
    if i < p {
        assert(!occurs_at(hay, needle, i));
    } else if i > p {
        assert(!occurs_at(hay, needle, p));
    }
}

/// The decimal text of a number is a non-empty run of digits whose value
/// is the number.
pub proof fn lemma_decimal(n: nat)
    ensures
        decimal(n).len() > 0,
        forall|i: int| 0 <= i < decimal(n).len() ==> is_digit(#[trigger] decimal(n)[i]),
        digits_value(decimal(n)) == n,
    decreases n,
{
    if n >= 10 {
        lemma_decimal(n / 10);
        let d = decimal(n);
        assert(d.drop_last() =~= decimal(n / 10));
        let c = digit_char(n % 10);
        assert(c as int == n % 10 + 48);
        assert(d.last() == c);
        assert((n / 10) * 10 + n % 10 == n) by (nonlinear_arith);
        assert(digits_value(d) == digits_value(d.drop_last()) * 10 + ((d.last() as int - 48) as nat));
        assert forall|i: int| 0 <= i < d.len() implies is_digit(#[trigger] d[i]) by {
            if i < d.len() - 1 {
                assert(d[i] == decimal(n / 10)[i]);
            }
        }
    } else {
        let c = digit_char(n);
        assert(c as int == n + 48);
        assert(decimal(n).drop_last() =~= Seq::<char>::empty());
        assert(decimal(n).last() == c);
        assert(digits_value(decimal(n)) == digits_value(decimal(n).drop_last()) * 10 + ((decimal(n).last() as int - 48) as nat));
    }
}

/// Parsing the decimal text of a number gives the number back.
pub proof fn lemma_parse_decimal(n: u64)
    ensures
        parse_u64_spec(decimal(n as nat)) == Some(n),
{
    lemma_decimal(n as nat);
    let d = decimal(n as nat);
    assert(is_digit(d[0]));
    assert(d[0] != '+');
}

} // verus!
