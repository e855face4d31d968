//! Character-level string helpers shared by the path, sorting, profile and
//! metadata logic.

use vstd::prelude::*;

verus! {

/// The characters of `s`, in order.
pub fn chars_of(s: &str) -> (v: Vec<char>)
    ensures
        v@ == s@,
{
    let mut v: Vec<char> = Vec::new();
    for c in it: s.chars()
        invariant
            v@.len() == it.index(),
            forall|k: int| 0 <= k < v@.len() ==> v@[k] == it.seq()[k],
    {
        v.push(c);
    }
    assert(v@ =~= s@);
    v
}

/// A string holding exactly `chars`. Calls std's `FromIterator<&char>`
/// for `String`, which appends the characters in order.
#[verifier::external_body]
pub fn string_from_chars(chars: &[char]) -> (s: String)
    ensures
        s@ == chars@,
{
    chars.iter().collect()
}

/// Whether two character sequences are equal.
pub fn chars_eq(a: &[char], b: &[char]) -> (r: bool)
    ensures
        r == (a@ == b@),
{
    if a.len() != b.len() {
        return false;
    }
    let n = a.len();
    for i in 0..n
        invariant
            n == a@.len(),
            n == b@.len(),
            forall|k: int| 0 <= k < i ==> a@[k] == b@[k],
    {
        if a[i] != b[i] {
            return false;
        }
    }
    assert(a@ =~= b@);
    true
}

/// `p` is a prefix of `s`.
pub open spec fn has_prefix(s: Seq<char>, p: Seq<char>) -> bool {
    p.len() <= s.len() && s.take(p.len() as int) == p
}

/// Whether `s` starts with `prefix`.
pub fn starts_with(s: &[char], prefix: &[char]) -> (r: bool)
    ensures
        r == (prefix@.len() <= s@.len() && s@.take(prefix@.len() as int) == prefix@),
{
    if prefix.len() > s.len() {
        return false;
    }
    let n = prefix.len();
    for i in 0..n
        invariant
            n == prefix@.len(),
            n <= s@.len(),
            forall|k: int| 0 <= k < i ==> s@[k] == prefix@[k],
    {
        if s[i] != prefix[i] {
            assert(s@.take(n as int)[i as int] != prefix@[i as int]);
            return false;
        }
    }
    assert(s@.take(n as int) =~= prefix@);
    true
}

/// Whether two strings hold the same characters.
pub fn str_eq(a: &str, b: &str) -> (r: bool)
    ensures
        r == (a@ == b@),
{
    let ca = chars_of(a);
    let cb = chars_of(b);
    chars_eq(ca.as_slice(), cb.as_slice())
}

/// Whether `s` starts with `prefix`.
pub fn str_starts_with(s: &str, prefix: &str) -> (r: bool)
    ensures
        r == (prefix@.len() <= s@.len() && s@.take(prefix@.len() as int) == prefix@),
{
    let cs = chars_of(s);
    let cp = chars_of(prefix);
    starts_with(cs.as_slice(), cp.as_slice())
}

/// What std's `str::to_lowercase` gives for a string: its characters mapped
/// by Unicode's lowercase mapping, context-sensitive for a final sigma.
pub uninterp spec fn lowercase(s: Seq<char>) -> Seq<char>;

/// `t` is the ASCII lowercasing of the ASCII text `s`: `A` to `Z` become
/// `a` to `z`, every other character stays.
pub open spec fn ascii_lowercased(s: Seq<char>, t: Seq<char>) -> bool {
    &&& t.len() == s.len()
    &&& forall|i: int|
        0 <= i < s.len() ==> if 'A' <= #[trigger] s[i] <= 'Z' {
            t[i] as u32 == s[i] as u32 + 32
        } else {
            t[i] == s[i]
        }
}

/// Calls `str::to_lowercase`. Its result depends on the characters of `s`
/// alone; Unicode's lowercase mapping is left unstated but for ASCII text,
/// which it maps as ASCII lowercasing does.
#[verifier::external_body]
pub fn to_lowercase(s: &str) -> (r: String)
    ensures
        r@ == lowercase(s@),
        (forall|i: int| 0 <= i < s@.len() ==> (#[trigger] s@[i] as u32) < 128) ==> ascii_lowercased(s@, r@),
{
    s.to_lowercase()
}

/// A copy of `v`.
pub fn clone_chars(v: &[char]) -> (r: Vec<char>)
    ensures
        r@ == v@,
{
    let mut r: Vec<char> = Vec::new();
    let n = v.len();
    for i in 0..n
        invariant
            n == v@.len(),
            r@ == v@.take(i as int),
    {
        r.push(v[i]);
        assert(r@ =~= v@.take(i + 1));
    }
    assert(v@.take(n as int) =~= v@);
    r
}

/// A copy of `v`.
pub fn clone_bytes(v: &[u8]) -> (r: Vec<u8>)
    ensures
        r@ == v@,
{
    let mut r: Vec<u8> = Vec::new();
    let n = v.len();
    for i in 0..n
        invariant
            n == v@.len(),
            r@ == v@.take(i as int),
    {
        r.push(v[i]);
        assert(r@ =~= v@.take(i + 1));
    }
    assert(v@.take(n as int) =~= v@);
    r
}

/// The ASCII digit for `d` (below ten).
pub open spec fn digit_char(d: int) -> char {
    ((48 + d) as u8) as char
}

/// The decimal digits of `n`, most significant first, without leading
/// zeros.
pub open spec fn decimal_text(n: nat) -> Seq<char>
    decreases n,
{
    if n < 10 {
        seq![digit_char(n as int)]
    } else {
        decimal_text(n / 10).push(digit_char((n % 10) as int))
    }
}

/// `s` preceded by as many `c` as bring it to `width` characters.
pub open spec fn pad_left(s: Seq<char>, width: nat, c: char) -> Seq<char> {
    if s.len() >= width {
        s
    } else {
        Seq::new((width - s.len()) as nat, |i: int| c) + s
    }
}

/// The decimal digits of `n`.
pub fn decimal_chars(n: u64) -> (r: Vec<char>)
    ensures
        r@ == decimal_text(n as nat),
    decreases n,
{
    let d: u8 = (n % 10) as u8;
    let c = (48u8 + d) as char;
    if n < 10 {
        let mut r: Vec<char> = Vec::new();
        r.push(c);
        r
    } else {
        let mut r = decimal_chars(n / 10);
        r.push(c);
        r
    }
}

/// `s` padded on the left with `c` to `width` characters.
pub fn pad_left_chars(s: Vec<char>, width: usize, c: char) -> (r: Vec<char>)
    ensures
        r@ == pad_left(s@, width as nat, c),
{
    if s.len() >= width {
        return s;
    }
    let k = width - s.len();
    let mut r: Vec<char> = Vec::new();
    for i in 0..k
        invariant
            r@ == Seq::new(i as nat, |j: int| c),
    {
        r.push(c);
        assert(r@ =~= Seq::new((i + 1) as nat, |j: int| c));
    }
    let n = s.len();
    for i in 0..n
        invariant
            n == s@.len(),
            r@ == Seq::new(k as nat, |j: int| c) + s@.take(i as int),
    {
        r.push(s[i]);
        assert(r@ =~= Seq::new(k as nat, |j: int| c) + s@.take(i + 1));
    }
    assert(s@.take(n as int) =~= s@);
    r
}

/// Appends the characters of `b` to `a`.
pub fn append_chars(a: &mut Vec<char>, b: &[char])
    ensures
        final(a)@ == old(a)@ + b@,
{
    let n = b.len();
    let ghost start = a@;
    for i in 0..n
        invariant
            n == b@.len(),
            a@ == start + b@.take(i as int),
    {
        a.push(b[i]);
        assert(a@ =~= start + b@.take(i + 1));
    }
    assert(b@.take(n as int) =~= b@);
}

/// Unicode's White_Space characters (what `char::is_whitespace` tests).
pub open spec fn is_white_space(c: char) -> bool {
    let v = c as u32;
    (0x09 <= v <= 0x0d) || v == 0x20 || v == 0x85 || v == 0xa0 || v == 0x1680 || (0x2000 <= v <= 0x200a)
        || v == 0x2028 || v == 0x2029 || v == 0x202f || v == 0x205f || v == 0x3000
}

pub open spec fn trim_start(s: Seq<char>) -> Seq<char>
    decreases s.len(),
{
    if s.len() > 0 && is_white_space(s[0]) {
        trim_start(s.drop_first())
    } else {
        s
    }
}

pub open spec fn trim_end(s: Seq<char>) -> Seq<char>
    decreases s.len(),
{
    if s.len() > 0 && is_white_space(s.last()) {
        trim_end(s.drop_last())
    } else {
        s
    }
}

/// `s` without leading and trailing white space.
pub open spec fn trimmed(s: Seq<char>) -> Seq<char> {
    trim_end(trim_start(s))
}

fn is_white_space_char(c: char) -> (b: bool)
    ensures
        b == is_white_space(c),
{
    let v = c as u32;
    (0x09 <= v && v <= 0x0d) || v == 0x20 || v == 0x85 || v == 0xa0 || v == 0x1680 || (0x2000 <= v && v <= 0x200a)
        || v == 0x2028 || v == 0x2029 || v == 0x202f || v == 0x205f || v == 0x3000
}

/// `s` without leading and trailing white space (what `str::trim` gives).
pub fn trim_str(s: &str) -> (r: String)
    ensures
        r@ == trimmed(s@),
{
    let cs = chars_of(s);
    let n = cs.len();
    let mut a: usize = 0;
    assert(cs@.subrange(0, n as int) =~= cs@);
    while a < n && is_white_space_char(cs[a])
        invariant
            a <= n,
            n == cs@.len(),
            cs@ == s@,
            trim_start(s@) == trim_start(cs@.subrange(a as int, n as int)),
        decreases n - a,
    {
        assert(cs@.subrange(a + 1, n as int) =~= cs@.subrange(a as int, n as int).drop_first());
        a = a + 1;
    }
    assert(trim_start(cs@.subrange(a as int, n as int)) == cs@.subrange(a as int, n as int));
    let mut b: usize = n;
    while b > a && is_white_space_char(cs[b - 1])
        invariant
            a <= b <= n,
            n == cs@.len(),
            trim_end(cs@.subrange(a as int, n as int)) == trim_end(cs@.subrange(a as int, b as int)),
        decreases b - a,
    {
        assert(cs@.subrange(a as int, b - 1) =~= cs@.subrange(a as int, b as int).drop_last());
        b = b - 1;
    }
    assert(trim_end(cs@.subrange(a as int, b as int)) == cs@.subrange(a as int, b as int));
    let kept = slice_chars(cs.as_slice(), a, b);
    string_from_chars(kept.as_slice())
}

/// The first `, ` in `s` at or after `i`.
pub open spec fn next_separator(s: Seq<char>, i: int) -> Option<int>
    decreases s.len() - i,
{
    if i < 0 || i + 1 >= s.len() {
        None
    } else if s[i] == ',' && s[i + 1] == ' ' {
        Some(i)
    } else {
        next_separator(s, i + 1)
    }
}

/// The pieces of `s[i..]` between the `, ` separators (what `split(", ")`
/// yields): at least one piece, possibly empty.
pub open spec fn split_pieces(s: Seq<char>, i: int) -> Seq<Seq<char>>
    decreases s.len() - i,
{
    match next_separator(s, i) {
        None => seq![s.subrange(i, s.len() as int)],
        Some(k) => if 0 <= i <= k && k + 2 <= s.len() {
            seq![s.subrange(i, k)] + split_pieces(s, k + 2)
        } else {
            seq![s.subrange(i, s.len() as int)]
        },
    }
}

/// The characters `s[a..b]`.
pub fn slice_chars(s: &[char], a: usize, b: usize) -> (r: Vec<char>)
    requires
        a <= b <= s@.len(),
    ensures
        r@ == s@.subrange(a as int, b as int),
{
    let mut r: Vec<char> = Vec::new();
    for i in a..b
        invariant
            a <= b <= s@.len(),
            r@ == s@.subrange(a as int, i as int),
    {
        r.push(s[i]);
        assert(r@ =~= s@.subrange(a as int, i + 1));
    }
    r
}

/// The pieces of `s` between `, ` separators (see [`split_pieces`]).
pub fn split_comma_space(s: &[char]) -> (r: Vec<Vec<char>>)
    ensures
        r@.map_values(|p: Vec<char>| p@) == split_pieces(s@, 0),
{
    let n = s.len();
    let mut out: Vec<Vec<char>> = Vec::new();
    let mut start: usize = 0;
    let mut i: usize = 0;
    while i < n && i + 1 < n
        invariant
            n == s@.len(),
            start <= i <= n,
            next_separator(s@, start as int) == next_separator(s@, i as int),
            split_pieces(s@, 0) == out@.map_values(|p: Vec<char>| p@) + split_pieces(s@, start as int),
        decreases n - i,
    {
        if s[i] == ',' && s[i + 1] == ' ' {
            let piece = slice_chars(s, start, i);
            let ghost before = out@.map_values(|p: Vec<char>| p@);
            let ghost pv = piece@;
            out.push(piece);
            assert(out@.map_values(|p: Vec<char>| p@) =~= before.push(pv));
            assert(split_pieces(s@, start as int) == seq![pv] + split_pieces(s@, i + 2));
            assert(before + (seq![pv] + split_pieces(s@, i + 2)) =~= before.push(pv) + split_pieces(s@, i + 2));
            start = i + 2;
            i = i + 2;
        } else {
            i = i + 1;
        }
    }
    let piece = slice_chars(s, start, n);
    let ghost before = out@.map_values(|p: Vec<char>| p@);
    let ghost pv = piece@;
    out.push(piece);
    assert(out@.map_values(|p: Vec<char>| p@) =~= before.push(pv));
    assert(split_pieces(s@, start as int) == seq![pv]);
    assert(before + seq![pv] =~= before.push(pv));
    out
}

} // verus!
