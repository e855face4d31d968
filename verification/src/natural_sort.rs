//! Natural (human) ordering for names and paths: runs of ASCII digits
//! compare by numeric value rather than character by character, so
//! `page2.jpg` sorts before `page10.jpg`. Paths compare component by
//! component, so a number in one segment is never compared against a number
//! in another.
//!
//! A name's key is its alternating runs of digits and non-digits; a digit
//! run is a number (saturating at `u64::MAX`) and sorts before any text run;
//! numbers compare by value and text runs by character code; keys (and
//! paths of keys) compare lexicographically, a proper prefix sorting first.

use crate::paths::{components, path_components};
use crate::text::chars_of;
use std::cmp::Ordering;
use vstd::prelude::*;

verus! {

/// One run of a natural-sort key.
pub enum Part {
    Num(int),
    Text(Seq<char>),
}

pub open spec fn is_digit(c: char) -> bool {
    '0' <= c <= '9'
}

/// The decimal value of a run of digits.
pub open spec fn decimal(s: Seq<char>) -> int
    decreases s.len(),
{
    if s.len() == 0 {
        0
    } else {
        10 * decimal(s.drop_last()) + (s.last() as int - '0' as int)
    }
}

/// A digit run's number, saturating at `u64::MAX`.
pub open spec fn run_value(s: Seq<char>) -> int {
    if decimal(s) > u64::MAX {
        u64::MAX as int
    } else {
        decimal(s)
    }
}

/// The finished parts, the digit run and the text run in progress after the
/// first `n` characters.
pub open spec fn key_state(s: Seq<char>, n: int) -> (Seq<Part>, Seq<char>, Seq<char>)
    decreases n,
{
    if n <= 0 {
        (Seq::empty(), Seq::empty(), Seq::empty())
    } else {
        let (parts, num, text) = key_state(s, n - 1);
        let c = s[n - 1];
        if is_digit(c) {
            (if text.len() > 0 { parts.push(Part::Text(text)) } else { parts }, num.push(c), Seq::empty())
        } else {
            (if num.len() > 0 { parts.push(Part::Num(run_value(num))) } else { parts }, Seq::empty(), text.push(c))
        }
    }
}

/// The natural-sort key of a name.
pub open spec fn natural_key(s: Seq<char>) -> Seq<Part> {
    let (parts, num, text) = key_state(s, s.len() as int);
    let p1 = if num.len() > 0 { parts.push(Part::Num(run_value(num))) } else { parts };
    if text.len() > 0 { p1.push(Part::Text(text)) } else { p1 }
}

/// Lexicographic comparison under the element comparison `c` (-1, 0, 1):
/// the first differing element decides; a proper prefix comes first.
pub open spec fn lex_order<T>(a: Seq<T>, b: Seq<T>, c: spec_fn(T, T) -> int) -> int
    decreases a.len(),
{
    if a.len() == 0 && b.len() == 0 {
        0
    } else if a.len() == 0 {
        -1
    } else if b.len() == 0 {
        1
    } else if c(a[0], b[0]) != 0 {
        c(a[0], b[0])
    } else {
        lex_order(a.drop_first(), b.drop_first(), c)
    }
}

pub open spec fn int_order(x: int, y: int) -> int {
    if x < y {
        -1
    } else if x == y {
        0
    } else {
        1
    }
}

pub open spec fn char_order(x: char, y: char) -> int {
    int_order(x as int, y as int)
}

pub open spec fn part_order(p: Part, q: Part) -> int {
    match (p, q) {
        (Part::Num(a), Part::Num(b)) => int_order(a, b),
        (Part::Num(_), Part::Text(_)) => -1,
        (Part::Text(_), Part::Num(_)) => 1,
        (Part::Text(a), Part::Text(b)) => lex_order(a, b, |x: char, y: char| char_order(x, y)),
    }
}

pub open spec fn key_order(a: Seq<Part>, b: Seq<Part>) -> int {
    lex_order(a, b, |p: Part, q: Part| part_order(p, q))
}

/// Natural comparison of two names (-1, 0, 1).
pub open spec fn natural_order(a: Seq<char>, b: Seq<char>) -> int {
    key_order(natural_key(a), natural_key(b))
}

/// Natural comparison of two paths, component by component (-1, 0, 1).
pub open spec fn path_order(a: Seq<char>, b: Seq<char>) -> int {
    lex_order(
        components(a).map_values(|c: Seq<char>| natural_key(c)),
        components(b).map_values(|c: Seq<char>| natural_key(c)),
        |x: Seq<Part>, y: Seq<Part>| key_order(x, y),
    )
}

// ---------------------------------------------------------------------------
// Order laws

/// `c` is a strict total order's three-way comparison: it answers -1, 0 or
/// 1, answers 0 exactly on equal arguments, flips sign when its arguments
/// swap, and is transitive.
pub open spec fn is_total_order<T>(c: spec_fn(T, T) -> int) -> bool {
    &&& forall|x: T, y: T| -1 <= #[trigger] c(x, y) <= 1
    &&& forall|x: T, y: T| #[trigger] c(x, y) == 0 <==> x == y
    &&& forall|x: T, y: T| #[trigger] c(x, y) == -c(y, x)
    &&& forall|x: T, y: T, z: T| #[trigger] c(x, y) < 0 && #[trigger] c(y, z) < 0 ==> c(x, z) < 0
}

proof fn lemma_lex_range<T>(a: Seq<T>, b: Seq<T>, c: spec_fn(T, T) -> int)
    requires
        is_total_order(c),
    ensures
        -1 <= lex_order(a, b, c) <= 1,
        lex_order(a, b, c) == 0 <==> a == b,
        lex_order(a, b, c) == -lex_order(b, a, c),
    decreases a.len(),
{
    if a.len() > 0 && b.len() > 0 {
        lemma_lex_range(a.drop_first(), b.drop_first(), c);
        if c(a[0], b[0]) == 0 {
            assert(a[0] == b[0]);
            if a.drop_first() == b.drop_first() {
                assert forall|i: int| 0 <= i < a.len() implies a[i] == b[i] by {
                    if i > 0 {
                        assert(a[i] == a.drop_first()[i - 1]);
                        assert(b[i] == b.drop_first()[i - 1]);
                    }
                }
                assert(a =~= b);
            }
        }
        if a == b {
            assert(a.drop_first() == b.drop_first());
        }
        assert(c(a[0], b[0]) == -c(b[0], a[0]));
    }
    if a.len() == 0 && b.len() == 0 {
        assert(a =~= b);
    }
}

proof fn lemma_lex_trans<T>(a: Seq<T>, b: Seq<T>, d: Seq<T>, c: spec_fn(T, T) -> int)
    requires
        is_total_order(c),
        lex_order(a, b, c) < 0,
        lex_order(b, d, c) < 0,
    ensures
        lex_order(a, d, c) < 0,
    decreases a.len(),
{
    if a.len() > 0 && b.len() > 0 && d.len() > 0 {
        let x = a[0];
        let y = b[0];
        let z = d[0];
        if c(x, y) == 0 && c(y, z) == 0 {
            assert(x == y && y == z);
            lemma_lex_trans(a.drop_first(), b.drop_first(), d.drop_first(), c);
        } else if c(x, y) == 0 {
            assert(x == y);
        } else if c(y, z) == 0 {
            assert(y == z);
        } else {
            assert(c(x, y) < 0 && c(y, z) < 0);
        }
    }
}

/// The three-way comparison of a lexicographic order over a total order is
/// itself a total order.
pub proof fn lemma_lex_total<T>(c: spec_fn(T, T) -> int)
    requires
        is_total_order(c),
    ensures
        is_total_order(|a: Seq<T>, b: Seq<T>| lex_order(a, b, c)),
{
    let l = |a: Seq<T>, b: Seq<T>| lex_order(a, b, c);
    assert forall|x: Seq<T>, y: Seq<T>| -1 <= #[trigger] l(x, y) <= 1 && (l(x, y) == 0 <==> x == y)
        && l(x, y) == -l(y, x) by {
        lemma_lex_range(x, y, c);
    }
    assert forall|x: Seq<T>, y: Seq<T>, z: Seq<T>| #[trigger] l(x, y) < 0 && #[trigger] l(y, z) < 0 implies l(
        x,
        z,
    ) < 0 by {
        lemma_lex_trans(x, y, z, c);
    }
}

/// Character-code order on strings is a strict total order: answers in
/// -1..=1, 0 exactly on equal strings, antisymmetric and transitive.
pub proof fn lemma_text_order(a: Seq<char>, b: Seq<char>, c: Seq<char>)
    ensures
        -1 <= text_order(a, b) <= 1,
        text_order(a, b) == 0 <==> a == b,
        text_order(a, b) == -text_order(b, a),
        text_order(a, b) < 0 && text_order(b, c) < 0 ==> text_order(a, c) < 0,
{
    lemma_char_total();
    lemma_lex_range(a, b, |x: char, y: char| char_order(x, y));
    if text_order(a, b) < 0 && text_order(b, c) < 0 {
        lemma_lex_trans(a, b, c, |x: char, y: char| char_order(x, y));
    }
}

/// Three-way comparison of strings by character code, the first
/// differing character deciding and a proper prefix coming first.
pub open spec fn text_order(a: Seq<char>, b: Seq<char>) -> int {
    lex_order(a, b, |x: char, y: char| char_order(x, y))
}

proof fn lemma_char_total()
    ensures
        is_total_order(|x: char, y: char| char_order(x, y)),
{
}

proof fn lemma_part_total()
    ensures
        is_total_order(|p: Part, q: Part| part_order(p, q)),
{
    lemma_char_total();
    lemma_lex_total(|x: char, y: char| char_order(x, y));
    let tc = |a: Seq<char>, b: Seq<char>| lex_order(a, b, |x: char, y: char| char_order(x, y));
    assert forall|p: Part, q: Part| -1 <= #[trigger] part_order(p, q) <= 1 && (part_order(p, q) == 0 <==> p == q)
        && part_order(p, q) == -part_order(q, p) by {
        match (p, q) {
            (Part::Text(a), Part::Text(b)) => {
                assert(tc(a, b) == lex_order(a, b, |x: char, y: char| char_order(x, y)));
                assert(-1 <= tc(a, b) <= 1);
                assert(tc(a, b) == 0 <==> a == b);
                assert(tc(a, b) == -tc(b, a));
            },
            _ => {},
        }
    }
    assert forall|p: Part, q: Part, r: Part| #[trigger] part_order(p, q) < 0 && #[trigger] part_order(q, r) < 0 implies part_order(p, r) < 0 by {
        match (p, q, r) {
            (Part::Text(a), Part::Text(b), Part::Text(d)) => {
                assert(tc(a, b) < 0 && tc(b, d) < 0);
            },
            _ => {},
        }
    }
    let pc = |p: Part, q: Part| part_order(p, q);
    assert forall|p: Part, q: Part| -1 <= #[trigger] pc(p, q) <= 1 by {
        assert(-1 <= part_order(p, q) <= 1);
    }
    assert forall|p: Part, q: Part| #[trigger] pc(p, q) == 0 <==> p == q by {
        assert(part_order(p, q) == 0 <==> p == q);
    }
    assert forall|p: Part, q: Part| #[trigger] pc(p, q) == -pc(q, p) by {
        assert(part_order(p, q) == -part_order(q, p));
    }
    assert forall|p: Part, q: Part, r: Part| #[trigger] pc(p, q) < 0 && #[trigger] pc(q, r) < 0 implies pc(p, r) < 0 by {
        assert(part_order(p, q) < 0 && part_order(q, r) < 0);
    }
}

/// Natural order on names is a total preorder: every name compares equal to
/// itself, swapping the arguments flips the answer, and it is transitive.
/// Two names compare equal exactly when their keys are equal (`a01` and
/// `a1` do).
pub proof fn lemma_natural_order_is_total_preorder(a: Seq<char>, b: Seq<char>, c: Seq<char>)
    ensures
        natural_order(a, a) == 0,
        natural_order(a, b) == -natural_order(b, a),
        natural_order(a, b) == 0 <==> natural_key(a) == natural_key(b),
        natural_order(a, b) < 0 && natural_order(b, c) < 0 ==> natural_order(a, c) < 0,
{
    lemma_part_total();
    let pc = |p: Part, q: Part| part_order(p, q);
    lemma_lex_range(natural_key(a), natural_key(a), pc);
    lemma_lex_range(natural_key(a), natural_key(b), pc);
    if natural_order(a, b) < 0 && natural_order(b, c) < 0 {
        lemma_lex_trans(natural_key(a), natural_key(b), natural_key(c), pc);
    }
}

/// Natural order on paths is a total preorder, like
/// [`lemma_natural_order_is_total_preorder`], equal exactly when the
/// component keys are equal.
pub proof fn lemma_path_order_is_total_preorder(a: Seq<char>, b: Seq<char>, c: Seq<char>)
    ensures
        path_order(a, a) == 0,
        path_order(a, b) == -path_order(b, a),
        path_order(a, b) == 0 <==> components(a).map_values(|s: Seq<char>| natural_key(s))
            == components(b).map_values(|s: Seq<char>| natural_key(s)),
        path_order(a, b) < 0 && path_order(b, c) < 0 ==> path_order(a, c) < 0,
{
    lemma_part_total();
    let pc = |p: Part, q: Part| part_order(p, q);
    lemma_lex_total(pc);
    let kc = |x: Seq<Part>, y: Seq<Part>| key_order(x, y);
    assert forall|x: Seq<Part>, y: Seq<Part>| #[trigger] kc(x, y) == lex_order(x, y, pc) by {}
    assert(is_total_order(kc)) by {
        let lc = |x: Seq<Part>, y: Seq<Part>| lex_order(x, y, pc);
        assert forall|x: Seq<Part>, y: Seq<Part>| #[trigger] kc(x, y) == lc(x, y) by {}
        assert forall|x: Seq<Part>, y: Seq<Part>| -1 <= #[trigger] kc(x, y) <= 1 by {
            assert(-1 <= lc(x, y) <= 1);
        }
        assert forall|x: Seq<Part>, y: Seq<Part>| #[trigger] kc(x, y) == 0 <==> x == y by {
            assert(lc(x, y) == 0 <==> x == y);
        }
        assert forall|x: Seq<Part>, y: Seq<Part>| #[trigger] kc(x, y) == -kc(y, x) by {
            assert(lc(x, y) == -lc(y, x));
        }
        assert forall|x: Seq<Part>, y: Seq<Part>, z: Seq<Part>| #[trigger] kc(x, y) < 0 && #[trigger] kc(y, z) < 0 implies kc(x, z) < 0 by {
            assert(lc(x, y) < 0 && lc(y, z) < 0);
        }
    }
    let ka = components(a).map_values(|s: Seq<char>| natural_key(s));
    let kb = components(b).map_values(|s: Seq<char>| natural_key(s));
    let k3 = components(c).map_values(|s: Seq<char>| natural_key(s));
    lemma_lex_range(ka, ka, kc);
    lemma_lex_range(ka, kb, kc);
    if path_order(a, b) < 0 && path_order(b, c) < 0 {
        lemma_lex_trans(ka, kb, k3, kc);
    }
}

// ---------------------------------------------------------------------------
// Executable keys and comparisons

/// One run of a key, as computed.
pub enum KeyPart {
    Num(u64),
    Text(Vec<char>),
}

pub open spec fn part_view(k: KeyPart) -> Part {
    match k {
        KeyPart::Num(n) => Part::Num(n as int),
        KeyPart::Text(t) => Part::Text(t@),
    }
}

pub open spec fn key_view(k: Seq<KeyPart>) -> Seq<Part> {
    k.map_values(|p: KeyPart| part_view(p))
}

pub proof fn lemma_decimal_push(s: Seq<char>, c: char)
    ensures
        decimal(s.push(c)) == 10 * decimal(s) + (c as int - '0' as int),
{
    assert(s.push(c).drop_last() =~= s);
}

proof fn lemma_decimal_nonneg(s: Seq<char>)
    requires
        forall|i: int| 0 <= i < s.len() ==> is_digit(#[trigger] s[i]),
    ensures
        decimal(s) >= 0,
    decreases s.len(),
{
    if s.len() > 0 {
        assert(is_digit(s[s.len() - 1]));
        lemma_decimal_nonneg(s.drop_last());
    }
}

/// A run of digits is worth at least any of its prefixes.
pub proof fn lemma_decimal_prefix_bound(s: Seq<char>, k: int)
    requires
        0 <= k <= s.len(),
        forall|i: int| 0 <= i < s.len() ==> is_digit(#[trigger] s[i]),
    ensures
        decimal(s) >= decimal(s.take(k)),
    decreases s.len(),
{
    if k < s.len() {
        assert(s.drop_last().take(k) =~= s.take(k));
        assert forall|i: int| 0 <= i < s.drop_last().len() implies is_digit(#[trigger] s.drop_last()[i]) by {
            assert(s.drop_last()[i] == s[i]);
        }
        lemma_decimal_prefix_bound(s.drop_last(), k);
        lemma_decimal_nonneg(s.drop_last());
        assert(is_digit(s[s.len() - 1]));
    } else {
        assert(s.take(k) =~= s);
    }
}

/// The number a run of ASCII digits stands for, `u64::MAX` when it does
/// not fit.
fn run_number(num: &Vec<char>) -> (r: u64)
    requires
        forall|i: int| 0 <= i < num@.len() ==> is_digit(#[trigger] num@[i]),
    ensures
        r as int == run_value(num@),
{
    let mut v: u64 = 0;
    let mut over = false;
    let n = num.len();
    for i in 0..n
        invariant
            n == num@.len(),
            forall|j: int| 0 <= j < num@.len() ==> is_digit(#[trigger] num@[j]),
            !over ==> v as int == decimal(num@.subrange(0, i as int)),
            over ==> decimal(num@.subrange(0, i as int)) > u64::MAX,
    {
        proof {
            lemma_decimal_nonneg(num@.subrange(0, i as int));
        }
        let c = num[i];
        proof {
            assert(num@.subrange(0, i as int + 1) =~= num@.subrange(0, i as int).push(c));
            assert(is_digit(num@[i as int]));
            lemma_decimal_push(num@.subrange(0, i as int), c);
        }
        let d: u64 = ((c as u32) - ('0' as u32)) as u64;
        if !over {
            let w: u128 = (v as u128) * 10 + (d as u128);
            if w > u64::MAX as u128 {
                over = true;
            } else {
                v = w as u64;
            }
        }
    }
    proof {
        assert(num@.subrange(0, n as int) =~= num@);
    }
    if over {
        u64::MAX
    } else {
        v
    }
}

fn push_part(parts: &mut Vec<KeyPart>, p: KeyPart)
    ensures
        key_view(final(parts)@) == key_view(old(parts)@).push(part_view(p)),
{
    let ghost before = parts@;
    parts.push(p);
    assert(key_view(parts@) =~= key_view(before).push(part_view(p)));
}

/// The natural-sort key of the characters `s`.
pub fn natural_key_of(s: &[char]) -> (k: Vec<KeyPart>)
    ensures
        key_view(k@) == natural_key(s@),
{
    let mut parts: Vec<KeyPart> = Vec::new();
    let mut num: Vec<char> = Vec::new();
    let mut text: Vec<char> = Vec::new();
    let n = s.len();
    for i in 0..n
        invariant
            n == s@.len(),
            key_state(s@, i as int) == (key_view(parts@), num@, text@),
            forall|j: int| 0 <= j < num@.len() ==> is_digit(#[trigger] num@[j]),
    {
        let c = s[i];
        if '0' <= c && c <= '9' {
            if text.len() > 0 {
                push_part(&mut parts, KeyPart::Text(text));
                text = Vec::new();
            }
            num.push(c);
        } else {
            if num.len() > 0 {
                let v = run_number(&num);
                push_part(&mut parts, KeyPart::Num(v));
                num = Vec::new();
            }
            text.push(c);
        }
    }
    if num.len() > 0 {
        let v = run_number(&num);
        push_part(&mut parts, KeyPart::Num(v));
    }
    if text.len() > 0 {
        push_part(&mut parts, KeyPart::Text(text));
    }
    parts
}

/// Three-way comparison of two character runs by character code.
pub fn compare_text(a: &Vec<char>, b: &Vec<char>) -> (r: i8)
    ensures
        r as int == lex_order(a@, b@, |x: char, y: char| char_order(x, y)),
{
    let mut i: usize = 0;
    assert(a@.subrange(0, a@.len() as int) =~= a@);
    assert(b@.subrange(0, b@.len() as int) =~= b@);
    while i < a.len() && i < b.len()
        invariant_except_break
            i <= a@.len(),
            i <= b@.len(),
            lex_order(a@, b@, |x: char, y: char| char_order(x, y)) == lex_order(a@.subrange(i as int, a@.len() as int), b@.subrange(i as int, b@.len() as int), |x: char, y: char| char_order(x, y)),
        ensures
            i <= a@.len(),
            i <= b@.len(),
            (i == a@.len() || i == b@.len()) ==> lex_order(a@, b@, |x: char, y: char| char_order(x, y)) == lex_order(a@.subrange(i as int, a@.len() as int), b@.subrange(i as int, b@.len() as int), |x: char, y: char| char_order(x, y)),
            (i < a@.len() && i < b@.len()) ==> a@[i as int] != b@[i as int] && lex_order(a@, b@, |x: char, y: char| char_order(x, y)) == char_order(a@[i as int], b@[i as int]),
        decreases a.len() - i,
    {
        let x = a[i];
        let y = b[i];
        let ghost sa = a@.subrange(i as int, a@.len() as int);
        let ghost sb = b@.subrange(i as int, b@.len() as int);
        assert(sa[0] == x && sb[0] == y);
        if x != y {
            break;
        }
        assert(sa.drop_first() =~= a@.subrange(i as int + 1, a@.len() as int));
        assert(sb.drop_first() =~= b@.subrange(i as int + 1, b@.len() as int));
        i = i + 1;
    }
    if i < a.len() && i < b.len() {
        if a[i] < b[i] { -1 } else { 1 }
    } else if i == a.len() && i == b.len() {
        0
    } else if i == a.len() {
        -1
    } else {
        1
    }
}

/// Three-way comparison of two key parts.
fn compare_part(p: &KeyPart, q: &KeyPart) -> (r: i8)
    ensures
        r as int == part_order(part_view(*p), part_view(*q)),
{
    match (p, q) {
        (KeyPart::Num(a), KeyPart::Num(b)) => {
            if *a < *b { -1 } else if *a == *b { 0 } else { 1 }
        },
        (KeyPart::Num(_), KeyPart::Text(_)) => -1,
        (KeyPart::Text(_), KeyPart::Num(_)) => 1,
        (KeyPart::Text(a), KeyPart::Text(b)) => compare_text(a, b),
    }
}

/// Three-way comparison of two keys.
fn compare_keys(a: &Vec<KeyPart>, b: &Vec<KeyPart>) -> (r: i8)
    ensures
        r as int == key_order(key_view(a@), key_view(b@)),
{
    let ghost ka = key_view(a@);
    let ghost kb = key_view(b@);
    let mut i: usize = 0;
    assert(ka.subrange(0, ka.len() as int) =~= ka);
    assert(kb.subrange(0, kb.len() as int) =~= kb);
    while i < a.len() && i < b.len()
        invariant_except_break
            i <= a@.len(),
            i <= b@.len(),
            ka == key_view(a@),
            kb == key_view(b@),
            lex_order(ka, kb, |p: Part, q: Part| part_order(p, q)) == lex_order(ka.subrange(i as int, ka.len() as int), kb.subrange(i as int, kb.len() as int), |p: Part, q: Part| part_order(p, q)),
        ensures
            i <= a@.len(),
            i <= b@.len(),
            (i == a@.len() || i == b@.len()) ==> lex_order(ka, kb, |p: Part, q: Part| part_order(p, q)) == lex_order(ka.subrange(i as int, ka.len() as int), kb.subrange(i as int, kb.len() as int), |p: Part, q: Part| part_order(p, q)),
            (i < a@.len() && i < b@.len()) ==> part_order(ka[i as int], kb[i as int]) != 0 && lex_order(ka, kb, |p: Part, q: Part| part_order(p, q)) == part_order(ka[i as int], kb[i as int]),
        decreases a.len() - i,
    {
        let d = compare_part(&a[i], &b[i]);
        assert(ka[i as int] == part_view(a@[i as int]));
        assert(kb[i as int] == part_view(b@[i as int]));
        let ghost sa = ka.subrange(i as int, ka.len() as int);
        let ghost sb = kb.subrange(i as int, kb.len() as int);
        assert(sa[0] == ka[i as int] && sb[0] == kb[i as int]);
        if d != 0 {
            break;
        }
        assert(sa.drop_first() =~= ka.subrange(i as int + 1, ka.len() as int));
        assert(sb.drop_first() =~= kb.subrange(i as int + 1, kb.len() as int));
        i = i + 1;
    }
    if i < a.len() && i < b.len() {
        assert(ka[i as int] == part_view(a@[i as int]));
        assert(kb[i as int] == part_view(b@[i as int]));
        compare_part(&a[i], &b[i])
    } else if i == a.len() && i == b.len() {
        0
    } else if i == a.len() {
        -1
    } else {
        1
    }
}

pub open spec fn path_keys_view(k: Seq<Vec<KeyPart>>) -> Seq<Seq<Part>> {
    k.map_values(|p: Vec<KeyPart>| key_view(p@))
}

/// The keys of the components of `path`.
pub fn path_key(path: &str) -> (k: Vec<Vec<KeyPart>>)
    ensures
        path_keys_view(k@) == components(path@).map_values(|c: Seq<char>| natural_key(c)),
{
    let comps = path_components(path);
    let ghost cv = comps@.map_values(|p: Vec<char>| p@);
    let mut keys: Vec<Vec<KeyPart>> = Vec::new();
    let n = comps.len();
    for i in 0..n
        invariant
            n == comps@.len(),
            cv == comps@.map_values(|p: Vec<char>| p@),
            keys@.len() == i,
            forall|j: int| 0 <= j < i ==> key_view(#[trigger] keys@[j]@) == natural_key(cv[j]),
    {
        let k = natural_key_of(comps[i].as_slice());
        assert(cv[i as int] == comps@[i as int]@);
        keys.push(k);
    }
    let ghost want = cv.map_values(|c: Seq<char>| natural_key(c));
    assert(path_keys_view(keys@) =~= want);
    keys
}

/// Three-way comparison of two paths' component keys.
fn compare_path_keys(a: &Vec<Vec<KeyPart>>, b: &Vec<Vec<KeyPart>>) -> (r: i8)
    ensures
        r as int == lex_order(path_keys_view(a@), path_keys_view(b@), |x: Seq<Part>, y: Seq<Part>| key_order(x, y)),
{
    let ghost ka = path_keys_view(a@);
    let ghost kb = path_keys_view(b@);
    let mut i: usize = 0;
    assert(ka.subrange(0, ka.len() as int) =~= ka);
    assert(kb.subrange(0, kb.len() as int) =~= kb);
    while i < a.len() && i < b.len()
        invariant_except_break
            i <= a@.len(),
            i <= b@.len(),
            ka == path_keys_view(a@),
            kb == path_keys_view(b@),
            lex_order(ka, kb, |x: Seq<Part>, y: Seq<Part>| key_order(x, y)) == lex_order(ka.subrange(i as int, ka.len() as int), kb.subrange(i as int, kb.len() as int), |x: Seq<Part>, y: Seq<Part>| key_order(x, y)),
        ensures
            i <= a@.len(),
            i <= b@.len(),
            (i == a@.len() || i == b@.len()) ==> lex_order(ka, kb, |x: Seq<Part>, y: Seq<Part>| key_order(x, y)) == lex_order(ka.subrange(i as int, ka.len() as int), kb.subrange(i as int, kb.len() as int), |x: Seq<Part>, y: Seq<Part>| key_order(x, y)),
            (i < a@.len() && i < b@.len()) ==> key_order(ka[i as int], kb[i as int]) != 0 && lex_order(ka, kb, |x: Seq<Part>, y: Seq<Part>| key_order(x, y)) == key_order(ka[i as int], kb[i as int]),
        decreases a.len() - i,
    {
        let d = compare_keys(&a[i], &b[i]);
        assert(ka[i as int] == key_view(a@[i as int]@));
        assert(kb[i as int] == key_view(b@[i as int]@));
        let ghost sa = ka.subrange(i as int, ka.len() as int);
        let ghost sb = kb.subrange(i as int, kb.len() as int);
        assert(sa[0] == ka[i as int] && sb[0] == kb[i as int]);
        if d != 0 {
            break;
        }
        assert(sa.drop_first() =~= ka.subrange(i as int + 1, ka.len() as int));
        assert(sb.drop_first() =~= kb.subrange(i as int + 1, kb.len() as int));
        i = i + 1;
    }
    if i < a.len() && i < b.len() {
        assert(ka[i as int] == key_view(a@[i as int]@));
        assert(kb[i as int] == key_view(b@[i as int]@));
        compare_keys(&a[i], &b[i])
    } else if i == a.len() && i == b.len() {
        0
    } else if i == a.len() {
        -1
    } else {
        1
    }
}

fn ordering_from(r: i8) -> (o: Ordering)
    ensures
        r < 0 <==> o == Ordering::Less,
        r == 0 <==> o == Ordering::Equal,
        r > 0 <==> o == Ordering::Greater,
{
    if r < 0 {
        Ordering::Less
    } else if r == 0 {
        Ordering::Equal
    } else {
        Ordering::Greater
    }
}

/// Compares two plain names (such as directory names) in natural order.
pub fn compare(a: &str, b: &str) -> (o: Ordering)
    ensures
        natural_order(a@, b@) < 0 <==> o == Ordering::Less,
        natural_order(a@, b@) == 0 <==> o == Ordering::Equal,
        natural_order(a@, b@) > 0 <==> o == Ordering::Greater,
{
    let ca = chars_of(a);
    let cb = chars_of(b);
    let ka = natural_key_of(ca.as_slice());
    let kb = natural_key_of(cb.as_slice());
    let r = compare_keys(&ka, &kb);
    ordering_from(r)
}

/// Compares two `/`-separated paths in natural order, component by
/// component, so a number in one segment is never compared against a
/// number in another.
pub fn compare_paths(a: &str, b: &str) -> (o: Ordering)
    ensures
        path_order(a@, b@) < 0 <==> o == Ordering::Less,
        path_order(a@, b@) == 0 <==> o == Ordering::Equal,
        path_order(a@, b@) > 0 <==> o == Ordering::Greater,
{
    let ka = path_key(a);
    let kb = path_key(b);
    let r = compare_path_keys(&ka, &kb);
    ordering_from(r)
}

} // verus!
