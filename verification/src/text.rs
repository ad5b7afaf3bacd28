//! Character-level string helpers shared by the model, the rules and the
//! discovery code: conversion between strings and character vectors,
//! lexicographic ordering, and decimal rendering of integers.

use vstd::prelude::*;
use vstd::string::StringExecFns;

verus! {

/// Appends one character to a string (`String::push`).
#[verifier::external_body]
pub(crate) fn push_char(s: &mut String, c: char)
    ensures
        final(s)@ == old(s)@.push(c),
{
    s.push(c);
}

/// The characters of `s`, in order.
pub fn to_chars(s: &str) -> (r: Vec<char>)
    ensures
        r@ == s@,
{
    let n = s.unicode_len();
    let mut r: Vec<char> = Vec::new();
    let mut i: usize = 0;
    while i < n
        invariant
            n == s@.len(),
            i <= n,
            r@ == s@.subrange(0, i as int),
        decreases n - i,
    {
        let c = s.get_char(i);
        r.push(c);
        i = i + 1;
    }
    r
}

/// The string made of the characters `cs[from..to]`.
pub fn string_from_chars(cs: &Vec<char>, from: usize, to: usize) -> (r: String)
    requires
        from <= to <= cs@.len(),
    ensures
        r@ == cs@.subrange(from as int, to as int),
{
    let mut r = String::new();
    let mut i = from;
    while i < to
        invariant
            from <= i <= to <= cs@.len(),
            r@ == cs@.subrange(from as int, i as int),
        decreases to - i,
    {
        push_char(&mut r, cs[i]);
        i = i + 1;
    }
    r
}

/// Lexicographic order on character sequences, comparing code points. For
/// UTF-8 strings this is the same order as comparing their bytes.
pub open spec fn seq_le(a: Seq<char>, b: Seq<char>) -> bool
    decreases a.len(),
{
    if a.len() == 0 {
        true
    } else if b.len() == 0 {
        false
    } else if a[0] != b[0] {
        (a[0] as int) < (b[0] as int)
    } else {
        seq_le(a.drop_first(), b.drop_first())
    }
}

/// Strict lexicographic order.
pub open spec fn seq_lt(a: Seq<char>, b: Seq<char>) -> bool {
    seq_le(a, b) && a != b
}

proof fn lemma_seq_le_common_prefix(p: Seq<char>, a: Seq<char>, b: Seq<char>)
    ensures
        seq_le(p + a, p + b) == seq_le(a, b),
    decreases p.len(),
{
    if p.len() > 0 {
        assert((p + a).drop_first() =~= p.drop_first() + a);
        assert((p + b).drop_first() =~= p.drop_first() + b);
        assert((p + a)[0] == (p + b)[0]);
        lemma_seq_le_common_prefix(p.drop_first(), a, b);
    }
}

/// Text order is lexicographic: a text comes before every text it begins,
/// and texts that differ after a common beginning are ordered by the code
/// of the first character in which they differ.
pub proof fn lemma_seq_le_lexicographic(p: Seq<char>, a: Seq<char>, x: char, y: char, b: Seq<char>)
    ensures
        seq_le(p, p + a),
        x != y ==> (seq_le(p + seq![x] + a, p + seq![y] + b) <==> (x as int) < (y as int)),
{
    lemma_seq_le_common_prefix(p, Seq::<char>::empty(), a);
    assert(p + Seq::<char>::empty() =~= p);
    lemma_seq_le_common_prefix(p, seq![x] + a, seq![y] + b);
    assert(p + seq![x] + a =~= p + (seq![x] + a));
    assert(p + seq![y] + b =~= p + (seq![y] + b));
    assert((seq![x] + a)[0] == x && (seq![y] + b)[0] == y);
}

pub proof fn lemma_seq_le_total(a: Seq<char>, b: Seq<char>)
    ensures
        seq_le(a, b) || seq_le(b, a),
    decreases a.len(),
{
    if a.len() > 0 && b.len() > 0 && a[0] == b[0] {
        lemma_seq_le_total(a.drop_first(), b.drop_first());
    }
}

pub proof fn lemma_seq_le_refl(a: Seq<char>)
    ensures
        seq_le(a, a),
    decreases a.len(),
{
    if a.len() > 0 {
        lemma_seq_le_refl(a.drop_first());
    }
}

pub proof fn lemma_seq_le_antisym(a: Seq<char>, b: Seq<char>)
    requires
        seq_le(a, b),
        seq_le(b, a),
    ensures
        a == b,
    decreases a.len(),
{
    if a.len() > 0 && b.len() > 0 {
        lemma_seq_le_antisym(a.drop_first(), b.drop_first());
        assert(a =~= seq![a[0]] + a.drop_first());
        assert(b =~= seq![b[0]] + b.drop_first());
    }
}

pub proof fn lemma_seq_le_trans(a: Seq<char>, b: Seq<char>, c: Seq<char>)
    requires
        seq_le(a, b),
        seq_le(b, c),
    ensures
        seq_le(a, c),
    decreases a.len(),
{
    if a.len() > 0 && b.len() > 0 && c.len() > 0 && a[0] == b[0] && b[0] == c[0] {
        lemma_seq_le_trans(a.drop_first(), b.drop_first(), c.drop_first());
    }
}

pub proof fn lemma_seq_lt_le_trans(a: Seq<char>, b: Seq<char>, c: Seq<char>)
    requires
        seq_lt(a, b),
        seq_le(b, c),
    ensures
        seq_lt(a, c),
{
    lemma_seq_le_trans(a, b, c);
    if a == c {
        lemma_seq_le_antisym(a, b);
    }
}

pub proof fn lemma_seq_le_lt_trans(a: Seq<char>, b: Seq<char>, c: Seq<char>)
    requires
        seq_le(a, b),
        seq_lt(b, c),
    ensures
        seq_lt(a, c),
{
    lemma_seq_le_trans(a, b, c);
    if a == c {
        lemma_seq_le_antisym(b, c);
    }
}

/// `seq_lt` is the strict part of `seq_le`: exactly one of `a < b`, `a == b`,
/// `b < a` holds.
pub proof fn lemma_seq_trichotomy(a: Seq<char>, b: Seq<char>)
    ensures
        seq_lt(a, b) || a == b || seq_lt(b, a),
        seq_lt(a, b) ==> !seq_le(b, a),
        seq_le(a, b) || seq_lt(b, a),
{
    lemma_seq_le_total(a, b);
    lemma_seq_le_refl(a);
    if seq_le(a, b) && seq_le(b, a) {
        lemma_seq_le_antisym(a, b);
    }
}

/// Three-way comparison result for character sequences.
pub enum Order {
    Less,
    Equal,
    Greater,
}

/// Compares `a` and `b` lexicographically by code point.
pub fn compare_chars(a: &Vec<char>, b: &Vec<char>) -> (r: Order)
    ensures
        r is Less <==> seq_lt(a@, b@),
        r is Equal <==> a@ == b@,
        r is Greater <==> seq_lt(b@, a@),
{
    let mut i: usize = 0;
    assert(a@.skip(0) =~= a@);
    assert(b@.skip(0) =~= b@);
    while i < a.len() && i < b.len() && a[i] == b[i]
        invariant
            i <= a@.len(),
            i <= b@.len(),
            a@.subrange(0, i as int) == b@.subrange(0, i as int),
            seq_le(a@, b@) == seq_le(a@.skip(i as int), b@.skip(i as int)),
            seq_le(b@, a@) == seq_le(b@.skip(i as int), a@.skip(i as int)),
        decreases a.len() - i,
    {
        assert(a@.skip(i as int).drop_first() =~= a@.skip(i + 1));
        assert(b@.skip(i as int).drop_first() =~= b@.skip(i + 1));
        assert(a@.subrange(0, i + 1) =~= a@.subrange(0, i as int).push(a@[i as int]));
        assert(b@.subrange(0, i + 1) =~= b@.subrange(0, i as int).push(b@[i as int]));
        i = i + 1;
    }
    proof {
        lemma_seq_le_total(a@, b@);
        if seq_le(a@, b@) && seq_le(b@, a@) {
            lemma_seq_le_antisym(a@, b@);
        }
        lemma_seq_le_refl(a@);
    }
    if i < a.len() && i < b.len() {
        assert(a@.skip(i as int)[0] == a@[i as int]);
        assert(b@.skip(i as int)[0] == b@[i as int]);
        assert(a@ != b@);
        if a[i] < b[i] {
            Order::Less
        } else {
            Order::Greater
        }
    } else if i < a.len() {
        assert(a@ != b@);
        Order::Greater
    } else if i < b.len() {
        assert(a@ != b@);
        Order::Less
    } else {
        assert(a@ =~= a@.subrange(0, i as int));
        assert(b@ =~= b@.subrange(0, i as int));
        Order::Equal
    }
}

/// Whether two strings hold the same characters.
pub fn str_eq(a: &str, b: &str) -> (r: bool)
    ensures
        r == (a@ == b@),
{
    let x = to_chars(a);
    let y = to_chars(b);
    match compare_chars(&x, &y) {
        Order::Equal => true,
        _ => false,
    }
}

/// The decimal digit for `d`.
pub open spec fn digit_char(d: nat) -> char {
    if d == 0 { '0' }
    else if d == 1 { '1' }
    else if d == 2 { '2' }
    else if d == 3 { '3' }
    else if d == 4 { '4' }
    else if d == 5 { '5' }
    else if d == 6 { '6' }
    else if d == 7 { '7' }
    else if d == 8 { '8' }
    else { '9' }
}

/// The decimal rendering of a natural number, without leading zeros.
pub open spec fn decimal(n: nat) -> Seq<char>
    decreases n,
{
    if n < 10 {
        seq![digit_char(n)]
    } else {
        decimal(n / 10).push(digit_char(n % 10))
    }
}

/// The value of a decimal digit character.
pub open spec fn digit_value(c: char) -> int {
    (c as int) - ('0' as int)
}

/// The number a string of decimal digits denotes, most significant first.
pub open spec fn digits_value(s: Seq<char>) -> int
    decreases s.len(),
{
    if s.len() == 0 {
        0
    } else {
        digits_value(s.drop_last()) * 10 + digit_value(s.last())
    }
}

/// The decimal rendering of `n` reads back as `n`: it is a non-empty string
/// of digits `0`-`9`, with no leading zero unless `n` is zero, whose digits,
/// most significant first, evaluate to `n`.
pub proof fn lemma_decimal_reads_back(n: nat)
    ensures
        decimal(n).len() > 0,
        forall|i: int| 0 <= i < decimal(n).len() ==> '0' <= #[trigger] decimal(n)[i] <= '9',
        decimal(n)[0] == '0' ==> n == 0,
        digits_value(decimal(n)) == n,
    decreases n,
{
    if n < 10 {
        assert(decimal(n) == seq![digit_char(n)]);
        assert(seq![digit_char(n)].drop_last() =~= Seq::<char>::empty());
        assert(digits_value(Seq::<char>::empty()) == 0);
        assert(digit_value(digit_char(n)) == n);
        assert(digits_value(seq![digit_char(n)]) == digits_value(Seq::<char>::empty()) * 10 + digit_value(digit_char(n)));
    } else {
        let q = n / 10;
        let d = n % 10;
        lemma_decimal_reads_back(q);
        let s = decimal(q).push(digit_char(d));
        assert(decimal(n) == s);
        assert(s.drop_last() =~= decimal(q));
        assert(digit_value(digit_char(d)) == d);
        assert(n == q * 10 + d);
        assert(s.last() == digit_char(d));
        assert(digits_value(s) == digits_value(decimal(q)) * 10 + digit_value(digit_char(d)));
        assert(s[0] == decimal(q)[0]);
        assert forall|i: int| 0 <= i < s.len() implies '0' <= #[trigger] s[i] <= '9' by {
            if i < decimal(q).len() {
                assert(s[i] == decimal(q)[i]);
            }
        }
    }
}

/// The decimal rendering of an integer, with a leading `-` when negative.
pub open spec fn signed_decimal(n: int) -> Seq<char> {
    if n < 0 {
        seq!['-'] + decimal((-n) as nat)
    } else {
        decimal(n as nat)
    }
}

fn digit(d: u64) -> (c: char)
    requires
        d < 10,
    ensures
        c == digit_char(d as nat),
{
    if d == 0 { '0' }
    else if d == 1 { '1' }
    else if d == 2 { '2' }
    else if d == 3 { '3' }
    else if d == 4 { '4' }
    else if d == 5 { '5' }
    else if d == 6 { '6' }
    else if d == 7 { '7' }
    else if d == 8 { '8' }
    else { '9' }
}

fn push_decimal(s: &mut String, n: u64)
    ensures
        final(s)@ == old(s)@ + decimal(n as nat),
    decreases n,
{
    if n < 10 {
        push_char(s, digit(n));
        assert(decimal(n as nat) =~= seq![digit_char(n as nat)]);
    } else {
        push_decimal(s, n / 10);
        push_char(s, digit(n % 10));
    }
}

/// Renders an unsigned integer in decimal.
pub fn u64_to_string(n: u64) -> (r: String)
    ensures
        r@ == decimal(n as nat),
{
    let mut s = String::new();
    push_decimal(&mut s, n);
    assert(s@ =~= decimal(n as nat));
    s
}

/// Renders a signed integer in decimal.
pub fn i64_to_string(n: i64) -> (r: String)
    ensures
        r@ == signed_decimal(n as int),
{
    let mut s = String::new();
    if n < 0 {
        push_char(&mut s, '-');
        let m: u64 = if n == i64::MIN {
            9223372036854775808u64
        } else {
            (-n) as u64
        };
        push_decimal(&mut s, m);
    } else {
        push_decimal(&mut s, n as u64);
    }
    s
}

} // verus!

verus! {

/// The parts joined with `sep` between consecutive parts.
pub open spec fn join_with(parts: Seq<Seq<char>>, sep: Seq<char>) -> Seq<char>
    decreases parts.len(),
{
    if parts.len() == 0 {
        seq![]
    } else if parts.len() == 1 {
        parts[0]
    } else {
        join_with(parts.drop_last(), sep) + sep + parts.last()
    }
}

/// Joins the views of `parts` with `sep`.
pub fn join_strings(parts: &Vec<String>, sep: &str) -> (r: String)
    ensures
        r@ == join_with(parts@.map_values(|p: String| p@), sep@),
{
    let ghost views = parts@.map_values(|p: String| p@);
    let mut r = String::new();
    let mut i: usize = 0;
    while i < parts.len()
        invariant
            i <= parts@.len(),
            views == parts@.map_values(|p: String| p@),
            r@ == join_with(views.take(i as int), sep@),
        decreases parts.len() - i,
    {
        assert(views.take(i + 1).drop_last() =~= views.take(i as int));
        if i > 0 {
            r.append(sep);
        }
        r.append(parts[i].as_str());
        proof {
            if i == 0 {
                assert(r@ =~= views.take(1)[0]);
            }
        }
        i = i + 1;
    }
    assert(views.take(i as int) =~= views);
    r
}

/// The index of the last occurrence of `c` in `s`, if any.
pub open spec fn last_index_of(s: Seq<char>, c: char) -> Option<int>
    decreases s.len(),
{
    if s.len() == 0 {
        None
    } else if s.last() == c {
        Some(s.len() - 1)
    } else {
        last_index_of(s.drop_last(), c)
    }
}

pub proof fn lemma_last_index_of(s: Seq<char>, c: char)
    ensures
        match last_index_of(s, c) {
            Some(i) => 0 <= i < s.len() && s[i] == c && forall|j: int| i < j < s.len() ==> s[j] != c,
            None => forall|j: int| 0 <= j < s.len() ==> s[j] != c,
        },
    decreases s.len(),
{
    if s.len() > 0 && s.last() != c {
        lemma_last_index_of(s.drop_last(), c);
        let t = s.drop_last();
        assert forall|j: int| 0 <= j < t.len() implies t[j] == s[j] by {}
    }
}

/// Finds the last occurrence of `c` in `cs`.
pub fn find_last(cs: &Vec<char>, c: char) -> (r: Option<usize>)
    ensures
        match r {
            Some(i) => last_index_of(cs@, c) == Some(i as int) && i < cs@.len(),
            None => last_index_of(cs@, c).is_none(),
        },
{
    proof { lemma_last_index_of(cs@, c); }
    let mut i = cs.len();
    assert(cs@.take(i as int) =~= cs@);
    while i > 0
        invariant
            i <= cs@.len(),
            last_index_of(cs@, c) == last_index_of(cs@.take(i as int), c),
        decreases i,
    {
        assert(cs@.take(i as int).drop_last() =~= cs@.take(i - 1));
        if cs[i - 1] == c {
            return Some(i - 1);
        }
        i = i - 1;
    }
    None
}

/// The part of a `/`-separated path before its last `/` (`""` when there is
/// none).
pub open spec fn parent_of(s: Seq<char>) -> Seq<char> {
    match last_index_of(s, '/') {
        Some(i) => s.take(i),
        None => seq![],
    }
}

/// The part of a `/`-separated path after its last `/` (all of it when there
/// is none).
pub open spec fn last_segment(s: Seq<char>) -> Seq<char> {
    match last_index_of(s, '/') {
        Some(i) => s.skip(i + 1),
        None => s,
    }
}

/// Splitting a path at its last `/` gives back its directory and its final
/// name: for a name without `/`, `<d>/<name>` has directory `d` and final
/// name `name`, and the bare name has directory `""` and is its own final
/// name.
pub proof fn lemma_path_split(d: Seq<char>, name: Seq<char>)
    requires
        forall|j: int| 0 <= j < name.len() ==> name[j] != '/',
    ensures
        parent_of(d + "/"@ + name) == d,
        last_segment(d + "/"@ + name) == name,
        parent_of(name) == Seq::<char>::empty(),
        last_segment(name) == name,
{
    reveal_strlit("/");
    let s = d + "/"@ + name;
    lemma_last_index_of(s, '/');
    lemma_last_index_of(name, '/');
    assert(s[d.len() as int] == '/');
    assert forall|j: int| d.len() < j < s.len() implies s[j] != '/' by {
        assert(s[j] == name[j - d.len() - 1]);
    }
    let i = last_index_of(s, '/')->0;
    assert(i == d.len());
    assert(s.take(i) =~= d);
    assert(s.skip(i + 1) =~= name);
}

/// The directory part of a store-relative path: everything before the last
/// `/`, or `""` when the path has no `/`.
pub fn parent_location(rel: &str) -> (r: String)
    ensures
        r@ == parent_of(rel@),
{
    let cs = to_chars(rel);
    match find_last(&cs, '/') {
        Some(i) => string_from_chars(&cs, 0, i),
        None => String::new(),
    }
}

/// The file-name part of a store-relative path: everything after the last
/// `/`, or the whole path when it has no `/`.
pub fn final_segment(rel: &str) -> (r: String)
    ensures
        r@ == last_segment(rel@),
{
    let cs = to_chars(rel);
    match find_last(&cs, '/') {
        Some(i) => {
            assert(i < cs.len());
            string_from_chars(&cs, i + 1, cs.len())
        },
        None => string_from_chars(&cs, 0, cs.len()),
    }
}

/// Concatenates two strings.
pub fn concat2(a: &str, b: &str) -> (r: String)
    ensures
        r@ == a@ + b@,
{
    let mut r = String::from_str(a);
    r.append(b);
    r
}

/// Concatenates three strings.
pub fn concat3(a: &str, b: &str, c: &str) -> (r: String)
    ensures
        r@ == a@ + b@ + c@,
{
    let mut r = String::from_str(a);
    r.append(b);
    r.append(c);
    r
}

} // verus!
