//! Archive paths, `/`-separated. A path's components are the root `/` when
//! the path starts with one, then its non-empty segments other than `.` (a
//! `.` opening a relative path is kept); the file name is the last
//! component (unless it is the root, `.` or `..`), and the extension is the
//! part of the file name after its last `.`, when that dot is not the
//! name's first character.

use crate::text::{append_chars, chars_eq, chars_of, clone_chars, string_from_chars};
use vstd::prelude::*;

verus! {

/// Components closed so far, the segment being read, and whether a `/`
/// has been read, after the first `n` characters.
pub open spec fn split_state(s: Seq<char>, n: int) -> (Seq<Seq<char>>, Seq<char>, bool)
    decreases n,
{
    if n <= 0 {
        (Seq::empty(), Seq::empty(), false)
    } else {
        let (done, cur, slash) = split_state(s, n - 1);
        if s[n - 1] == '/' {
            (close_segment(done, cur, !slash), Seq::empty(), true)
        } else {
            (done, cur.push(s[n - 1]), slash)
        }
    }
}

/// Appends a finished segment unless it is empty, or is `.` anywhere but
/// at the very start of the path.
pub open spec fn close_segment(done: Seq<Seq<char>>, cur: Seq<char>, first: bool) -> Seq<Seq<char>> {
    if cur.len() == 0 || (cur == seq!['.'] && !first) {
        done
    } else {
        done.push(cur)
    }
}

/// The root component, `/`, of a path that starts with `/`; nothing for
/// a relative path.
pub open spec fn root_of(s: Seq<char>) -> Seq<Seq<char>> {
    if s.len() > 0 && s[0] == '/' {
        seq![seq!['/']]
    } else {
        Seq::empty()
    }
}

/// The components of a path.
pub open spec fn components(s: Seq<char>) -> Seq<Seq<char>> {
    let (done, cur, slash) = split_state(s, s.len() as int);
    root_of(s) + close_segment(done, cur, !slash)
}

/// Components joined with `/`.
pub open spec fn join(parts: Seq<Seq<char>>) -> Seq<char>
    decreases parts.len(),
{
    if parts.len() == 0 {
        Seq::empty()
    } else if parts.len() == 1 {
        parts[0]
    } else {
        join(parts.drop_last()) + seq!['/'] + parts.last()
    }
}

/// Components written out as a path: joined with `/`, the root `/`
/// followed directly by what comes after it.
pub open spec fn path_text(parts: Seq<Seq<char>>) -> Seq<char> {
    if parts.len() > 0 && parts[0] == seq!['/'] {
        seq!['/'] + join(parts.drop_first())
    } else {
        join(parts)
    }
}

pub fn is_dot(cur: &Vec<char>) -> (r: bool)
    ensures
        r == (cur@ == seq!['.']),
{
    let r = cur.len() == 1 && cur[0] == '.';
    proof {
        if cur@.len() == 1 && cur@[0] == '.' {
            assert(cur@ =~= seq!['.']);
        }
    }
    r
}

pub fn is_root(cur: &Vec<char>) -> (r: bool)
    ensures
        r == (cur@ == seq!['/']),
{
    let r = cur.len() == 1 && cur[0] == '/';
    proof {
        if cur@.len() == 1 && cur@[0] == '/' {
            assert(cur@ =~= seq!['/']);
        }
    }
    r
}

/// The components of `path` (see the module documentation).
pub fn path_components(path: &str) -> (parts: Vec<Vec<char>>)
    ensures
        parts@.map_values(|p: Vec<char>| p@) == components(path@),
{
    let s = chars_of(path);
    let n = s.len();
    let mut done: Vec<Vec<char>> = Vec::new();
    if n > 0 && s[0] == '/' {
        let mut root: Vec<char> = Vec::new();
        root.push('/');
        done.push(root);
        assert(done@.map_values(|p: Vec<char>| p@) =~= root_of(s@));
    } else {
        assert(done@.map_values(|p: Vec<char>| p@) =~= root_of(s@));
    }
    let ghost root = root_of(s@);
    let mut cur: Vec<char> = Vec::new();
    let mut slash = false;
    for i in 0..n
        invariant
            n == s@.len(),
            s@ == path@,
            root == root_of(s@),
            split_state(s@, i as int) == (done@.map_values(|p: Vec<char>| p@).subrange(root.len() as int, done@.len() as int), cur@, slash),
            done@.map_values(|p: Vec<char>| p@).subrange(0, root.len() as int) == root,
            root.len() <= done@.len(),
    {
        let c = s[i];
        if c == '/' {
            let dot = is_dot(&cur);
            if cur.len() > 0 && (!dot || !slash) {
                let ghost before = done@.map_values(|p: Vec<char>| p@);
                let ghost cv = cur@;
                done.push(cur);
                assert(done@.map_values(|p: Vec<char>| p@) =~= before.push(cv));
                assert(done@.map_values(|p: Vec<char>| p@).subrange(root.len() as int, done@.len() as int)
                    =~= before.subrange(root.len() as int, before.len() as int).push(cv));
                assert(done@.map_values(|p: Vec<char>| p@).subrange(0, root.len() as int)
                    =~= before.subrange(0, root.len() as int));
            }
            cur = Vec::new();
            slash = true;
        } else {
            cur.push(c);
        }
    }
    let dot = is_dot(&cur);
    if cur.len() > 0 && (!dot || !slash) {
        let ghost before = done@.map_values(|p: Vec<char>| p@);
        let ghost cv = cur@;
        done.push(cur);
        assert(done@.map_values(|p: Vec<char>| p@) =~= before.push(cv));
        assert(done@.map_values(|p: Vec<char>| p@).subrange(root.len() as int, done@.len() as int)
            =~= before.subrange(root.len() as int, before.len() as int).push(cv));
        assert(done@.map_values(|p: Vec<char>| p@).subrange(0, root.len() as int)
            =~= before.subrange(0, root.len() as int));
    }
    let ghost dv = done@.map_values(|p: Vec<char>| p@);
    assert(dv =~= dv.subrange(0, root.len() as int) + dv.subrange(root.len() as int, dv.len() as int));
    done
}

/// `parts` joined with `/`.
pub fn join_parts(parts: &Vec<Vec<char>>) -> (s: Vec<char>)
    ensures
        s@ == join(parts@.map_values(|p: Vec<char>| p@)),
{
    let mut s: Vec<char> = Vec::new();
    let n = parts.len();
    for i in 0..n
        invariant
            n == parts@.len(),
            s@ == join(parts@.map_values(|p: Vec<char>| p@).take(i as int)),
    {
        let ghost pv = parts@.map_values(|p: Vec<char>| p@);
        proof {
            assert(pv.take(i + 1).drop_last() =~= pv.take(i as int));
        }
        if i > 0 {
            s.push('/');
        }
        let part = &parts[i];
        let m = part.len();
        let ghost base = s@;
        for k in 0..m
            invariant
                m == part@.len(),
                s@ == base + part@.take(k as int),
        {
            s.push(part[k]);
            assert(part@.take(k + 1) =~= part@.take(k as int).push(part@[k as int]));
        }
        proof {
            assert(part@.take(m as int) =~= part@);
            if i == 0 {
                assert(pv.take(1) =~= seq![part@]);
                assert(base =~= Seq::<char>::empty());
            }
        }
    }
    proof {
        assert(parts@.map_values(|p: Vec<char>| p@).take(n as int) =~= parts@.map_values(|p: Vec<char>| p@));
    }
    s
}

/// `parts` written out as a path (see [`path_text`]).
pub fn path_text_parts(parts: &Vec<Vec<char>>) -> (s: Vec<char>)
    ensures
        s@ == path_text(parts@.map_values(|p: Vec<char>| p@)),
{
    let ghost pv = parts@.map_values(|p: Vec<char>| p@);
    if parts.len() > 0 && is_root(&parts[0]) {
        assert(pv[0] == parts@[0]@);
        let mut rest: Vec<Vec<char>> = Vec::new();
        let n = parts.len();
        for i in 1..n
            invariant
                n == parts@.len(),
                1 <= n,
                pv == parts@.map_values(|p: Vec<char>| p@),
                rest@.map_values(|p: Vec<char>| p@) == pv.subrange(1, i as int),
        {
            let ghost before = rest@.map_values(|p: Vec<char>| p@);
            let c = clone_chars(parts[i].as_slice());
            assert(pv[i as int] == parts@[i as int]@);
            let ghost cv = c@;
            rest.push(c);
            assert(rest@.map_values(|p: Vec<char>| p@) =~= before.push(cv));
            assert(rest@.map_values(|p: Vec<char>| p@) =~= pv.subrange(1, i + 1));
        }
        assert(pv.subrange(1, n as int) =~= pv.drop_first());
        let joined = join_parts(&rest);
        let mut out: Vec<char> = Vec::new();
        out.push('/');
        append_chars(&mut out, joined.as_slice());
        assert(out@ =~= seq!['/'] + joined@);
        out
    } else {
        proof {
            if parts@.len() > 0 {
                assert(pv[0] == parts@[0]@);
            }
        }
        join_parts(parts)
    }
}

/// Converts a relative path into a `/`-separated archive entry name.
pub fn path_to_entry_name(path: &str) -> (name: String)
    ensures
        name@ == join(components(path@)),
{
    let parts = path_components(path);
    let s = join_parts(&parts);
    string_from_chars(s.as_slice())
}

/// The file name: the last component, unless there is none or it is the
/// root, `.` or `..`.
pub open spec fn file_name(s: Seq<char>) -> Option<Seq<char>> {
    let c = components(s);
    if c.len() == 0 || c.last() == seq!['.', '.'] || c.last() == seq!['.'] || c.last() == seq!['/'] {
        None
    } else {
        Some(c.last())
    }
}

/// The index of the last `.` in `name`, if any.
pub open spec fn last_dot(name: Seq<char>, n: int) -> Option<int>
    decreases n,
{
    if n <= 0 {
        None
    } else if name[n - 1] == '.' {
        Some(n - 1)
    } else {
        last_dot(name, n - 1)
    }
}

/// The extension of a file name: what follows its last `.`, unless there is
/// no dot, the only dot is the first character, or the name is `..`.
pub open spec fn name_extension(name: Seq<char>) -> Option<Seq<char>> {
    if name == seq!['.', '.'] {
        None
    } else {
        match last_dot(name, name.len() as int) {
            None => None,
            Some(i) => if i == 0 {
                None
            } else {
                Some(name.subrange(i + 1, name.len() as int))
            },
        }
    }
}

/// The extension of a path's file name.
pub open spec fn extension(s: Seq<char>) -> Option<Seq<char>> {
    match file_name(s) {
        None => None,
        Some(n) => name_extension(n),
    }
}

pub fn is_dot_dot(name: &Vec<char>) -> (r: bool)
    ensures
        r == (name@ == seq!['.', '.']),
{
    let r = name.len() == 2 && name[0] == '.' && name[1] == '.';
    proof {
        if name@.len() == 2 && name@[0] == '.' && name@[1] == '.' {
            assert(name@ =~= seq!['.', '.']);
        }
    }
    r
}

/// The extension of a file name (see [`name_extension`]).
pub fn name_extension_exec(name: &Vec<char>) -> (e: Option<Vec<char>>)
    ensures
        match e {
            None => name_extension(name@) is None,
            Some(v) => name_extension(name@) == Some(v@),
        },
{
    if is_dot_dot(name) {
        return None;
    }
    let n = name.len();
    let mut i = n;
    while i > 0 && name[i - 1] != '.'
        invariant
            n == name@.len(),
            i <= n,
            last_dot(name@, n as int) == last_dot(name@, i as int),
        decreases i,
    {
        i = i - 1;
    }
    if i <= 1 {
        return None;
    }
    let mut ext: Vec<char> = Vec::new();
    for k in i..n
        invariant
            n == name@.len(),
            1 < i <= n,
            ext@ == name@.subrange(i as int, k as int),
    {
        ext.push(name[k]);
        assert(name@.subrange(i as int, k + 1) =~= name@.subrange(i as int, k as int).push(name@[k as int]));
    }
    Some(ext)
}

} // verus!
