//! Byte-string model of filesystem paths.
//!
//! Paths travel through the library as `Vec<u8>` (the bytes of the path, with
//! `/` as the separator). The spec functions here give each operation an exact
//! mathematical meaning over `Seq<u8>`, and the exec functions are proved
//! against them.

use vstd::prelude::*;

verus! {

/// The path separator byte, `/`.
pub const SEP: u8 = 47;

/// The extension separator byte, `.`.
pub const DOT: u8 = 46;

/// Index of the last occurrence of `c` in `s`, or `-1` when `s` has none.
pub open spec fn last_index_of(s: Seq<u8>, c: u8) -> int
    decreases s.len(),
{
    if s.len() == 0 {
        -1
    } else if s[s.len() - 1] == c {
        s.len() - 1
    } else {
        last_index_of(s.drop_last(), c)
    }
}

pub proof fn lemma_last_index_of(s: Seq<u8>, c: u8)
    ensures
        -1 <= last_index_of(s, c) < s.len(),
        last_index_of(s, c) >= 0 ==> s[last_index_of(s, c)] == c,
        forall|j: int| last_index_of(s, c) < j < s.len() ==> s[j] != c,
    decreases s.len(),
{
    if s.len() > 0 && s[s.len() - 1] != c {
        lemma_last_index_of(s.drop_last(), c);
        assert(forall|j: int| 0 <= j < s.len() - 1 ==> s.drop_last()[j] == s[j]);
    }
}

/// The part of `p` after its last separator: the file name, possibly empty.
pub open spec fn file_name_of(p: Seq<u8>) -> Seq<u8> {
    p.subrange(last_index_of(p, SEP) + 1, p.len() as int)
}

/// The part of `p` before its last separator. A path with no separator has an
/// empty parent; a path whose only separator is leading keeps that root.
pub open spec fn parent_of(p: Seq<u8>) -> Seq<u8> {
    let i = last_index_of(p, SEP);
    if i <= 0 {
        p.subrange(0, i + 1)
    } else {
        p.subrange(0, i)
    }
}

/// The extension of `p`: what follows the last dot of the file name, unless
/// the dot is absent or leads the name (a hidden file has no extension).
pub open spec fn ext_of(p: Seq<u8>) -> Option<Seq<u8>> {
    let f = file_name_of(p);
    let i = last_index_of(f, DOT);
    if i <= 0 {
        None
    } else {
        Some(f.subrange(i + 1, f.len() as int))
    }
}

/// The file name of `p` with its extension (and the dot) removed.
pub open spec fn stem_of(p: Seq<u8>) -> Seq<u8> {
    let f = file_name_of(p);
    let i = last_index_of(f, DOT);
    if i <= 0 {
        f
    } else {
        f.subrange(0, i)
    }
}

/// `dir` and `rel` joined with a single separator between them.
pub open spec fn join_of(dir: Seq<u8>, rel: Seq<u8>) -> Seq<u8> {
    if dir.len() == 0 {
        rel
    } else if dir[dir.len() - 1] == SEP {
        dir + rel
    } else {
        dir + seq![SEP] + rel
    }
}

/// `p` with its extension replaced by `e` (or `e` appended when `p` has none).
pub open spec fn with_ext_of(p: Seq<u8>, e: Seq<u8>) -> Seq<u8> {
    let i = last_index_of(p, SEP);
    p.subrange(0, i + 1) + stem_of(p) + seq![DOT] + e
}

/// `p` relative to `root`: `Some(rest)` when `p` lies under `root`.
pub open spec fn strip_prefix_of(p: Seq<u8>, root: Seq<u8>) -> Option<Seq<u8>> {
    if p == root {
        Some(Seq::<u8>::empty())
    } else if root.len() > 0 && root[root.len() - 1] == SEP && root.len() < p.len()
        && p.subrange(0, root.len() as int) == root {
        Some(p.subrange(root.len() as int, p.len() as int))
    } else if root.len() + 1 < p.len() && p.subrange(0, root.len() as int) == root
        && p[root.len() as int] == SEP {
        Some(p.subrange(root.len() as int + 1, p.len() as int))
    } else {
        None
    }
}

/// Copy of the bytes of `v` in `[start, end)`.
pub fn copy_range(v: &Vec<u8>, start: usize, end: usize) -> (r: Vec<u8>)
    requires
        start <= end <= v.len(),
    ensures
        r@ == v@.subrange(start as int, end as int),
{
    let mut r: Vec<u8> = Vec::new();
    let mut i: usize = start;
    while i < end
        invariant
            start <= i <= end <= v.len(),
            r@ == v@.subrange(start as int, i as int),
        decreases end - i,
    {
        r.push(v[i]);
        proof {
            assert(r@ =~= v@.subrange(start as int, i + 1));
        }
        i = i + 1;
    }
    r
}

/// Copy of the whole of `v`.
pub fn clone_bytes(v: &Vec<u8>) -> (r: Vec<u8>)
    ensures
        r@ == v@,
{
    let r = copy_range(v, 0, v.len());
    proof {
        assert(v@.subrange(0, v@.len() as int) =~= v@);
    }
    r
}

/// Copy of an optional byte string.
pub fn clone_opt_bytes(v: &Option<Vec<u8>>) -> (r: Option<Vec<u8>>)
    ensures
        opt_bytes_view(r) == opt_bytes_view(*v),
{
    match v {
        None => None,
        Some(b) => Some(clone_bytes(b)),
    }
}

/// View of an optional byte string as an optional byte sequence.
pub open spec fn opt_bytes_view(v: Option<Vec<u8>>) -> Option<Seq<u8>> {
    match v {
        None => None,
        Some(b) => Some(b@),
    }
}

/// Index of the last occurrence of `c` in `v`, if any.
pub fn find_last(v: &Vec<u8>, c: u8) -> (r: Option<usize>)
    ensures
        match r {
            Some(i) => i == last_index_of(v@, c),
            None => last_index_of(v@, c) == -1,
        },
{
    let mut i: usize = v.len();
    while i > 0
        invariant
            i <= v.len(),
            forall|j: int| i <= j < v@.len() ==> v@[j] != c,
        decreases i,
    {
        i = i - 1;
        if v[i] == c {
            proof {
                lemma_last_index_of(v@, c);
            }
            return Some(i);
        }
    }
    proof {
        lemma_last_index_of(v@, c);
    }
    None
}

/// The file name of `v`, per `file_name_of`.
pub fn file_name(v: &Vec<u8>) -> (r: Vec<u8>)
    ensures
        r@ == file_name_of(v@),
{
    proof {
        lemma_last_index_of(v@, SEP);
    }
    let n = v.len();
    match find_last(v, SEP) {
        Some(i) => copy_range(v, i + 1, n),
        None => copy_range(v, 0, n),
    }
}

/// The parent of `v`, per `parent_of`.
pub fn parent(v: &Vec<u8>) -> (r: Vec<u8>)
    ensures
        r@ == parent_of(v@),
{
    proof {
        lemma_last_index_of(v@, SEP);
    }
    match find_last(v, SEP) {
        Some(i) => {
            if i == 0 {
                copy_range(v, 0, 1)
            } else {
                copy_range(v, 0, i)
            }
        },
        None => Vec::new(),
    }
}

/// The extension of `v`, per `ext_of`.
pub fn extension(v: &Vec<u8>) -> (r: Option<Vec<u8>>)
    ensures
        opt_bytes_view(r) == ext_of(v@),
{
    let f = file_name(v);
    proof {
        lemma_last_index_of(f@, DOT);
    }
    match find_last(&f, DOT) {
        Some(i) => {
            if i == 0 {
                None
            } else {
                Some(copy_range(&f, i + 1, f.len()))
            }
        },
        None => None,
    }
}

/// The stem of `v`, per `stem_of`.
pub fn stem(v: &Vec<u8>) -> (r: Vec<u8>)
    ensures
        r@ == stem_of(v@),
{
    let f = file_name(v);
    proof {
        lemma_last_index_of(f@, DOT);
    }
    match find_last(&f, DOT) {
        Some(i) => {
            if i == 0 {
                f
            } else {
                copy_range(&f, 0, i)
            }
        },
        None => f,
    }
}

/// Append the bytes of `src` to `dst`.
pub fn push_all(dst: &mut Vec<u8>, src: &Vec<u8>)
    ensures
        final(dst)@ == old(dst)@ + src@,
{
    let mut i: usize = 0;
    while i < src.len()
        invariant
            i <= src.len(),
            dst@ == old(dst)@ + src@.subrange(0, i as int),
        decreases src.len() - i,
    {
        dst.push(src[i]);
        proof {
            assert(old(dst)@ + src@.subrange(0, i + 1) =~= (old(dst)@ + src@.subrange(
                0,
                i as int,
            )).push(src@[i as int]));
        }
        i = i + 1;
    }
    proof {
        assert(src@.subrange(0, src@.len() as int) =~= src@);
    }
}

/// `dir` and `rel` joined, per `join_of`.
pub fn join(dir: &Vec<u8>, rel: &Vec<u8>) -> (r: Vec<u8>)
    ensures
        r@ == join_of(dir@, rel@),
{
    if dir.len() == 0 {
        return clone_bytes(rel);
    }
    let mut r = clone_bytes(dir);
    if dir[dir.len() - 1] != SEP {
        r.push(SEP);
        proof {
            assert(r@ =~= dir@ + seq![SEP]);
        }
    }
    push_all(&mut r, rel);
    r
}

/// `v` with its extension replaced by `e`, per `with_ext_of`.
pub fn with_extension(v: &Vec<u8>, e: &Vec<u8>) -> (r: Vec<u8>)
    ensures
        r@ == with_ext_of(v@, e@),
{
    proof {
        lemma_last_index_of(v@, SEP);
    }
    let n = v.len();
    let mut r = match find_last(v, SEP) {
        Some(i) => copy_range(v, 0, if i < n { i + 1 } else { n }),
        None => Vec::new(),
    };
    let s = stem(v);
    push_all(&mut r, &s);
    r.push(DOT);
    let ghost before = r@;
    push_all(&mut r, e);
    proof {
        let i = last_index_of(v@, SEP);
        assert(before =~= v@.subrange(0, i + 1) + stem_of(v@) + seq![DOT]);
    }
    r
}

/// `v` relative to `root`, per `strip_prefix_of`.
pub fn strip_prefix(v: &Vec<u8>, root: &Vec<u8>) -> (r: Option<Vec<u8>>)
    ensures
        opt_bytes_view(r) == strip_prefix_of(v@, root@),
{
    if bytes_eq(v, root) {
        proof {
            assert(v@ =~= root@);
        }
        return Some(Vec::new());
    }
    proof {
        assert(v@ != root@);
    }
    if root.len() < v.len() {
        let head = copy_range(v, 0, root.len());
        if bytes_eq(&head, root) {
            proof {
                assert(head@ =~= root@);
            }
            if root.len() > 0 && root[root.len() - 1] == SEP {
                return Some(copy_range(v, root.len(), v.len()));
            }
            if root.len() + 1 < v.len() && v[root.len()] == SEP {
                return Some(copy_range(v, root.len() + 1, v.len()));
            }
            // `v` extends `root` without a separator of its own: not nested.
            return None;
        }
    }
    None
}

/// Byte-for-byte equality of two byte strings.
pub fn bytes_eq(a: &Vec<u8>, b: &Vec<u8>) -> (r: bool)
    ensures
        r <==> a@ == b@,
{
    if a.len() != b.len() {
        return false;
    }
    let mut i: usize = 0;
    while i < a.len()
        invariant
            i <= a.len(),
            a@.len() == b@.len(),
            forall|j: int| 0 <= j < i ==> a@[j] == b@[j],
        decreases a.len() - i,
    {
        if a[i] != b[i] {
            return false;
        }
        i = i + 1;
    }
    proof {
        assert(a@ =~= b@);
    }
    true
}

} // verus!
