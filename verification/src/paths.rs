//! Unix path text: splitting into components, file extensions, joining,
//! and whether one path lies under another.

use vstd::prelude::*;
use crate::text::{chars_eq, chars_of, push_chars};

verus! {

/// A component of a path, as `std::path::Component` names them on Unix.
#[derive(PartialEq, Eq, Structural)]
pub enum PathPart {
    RootDir,
    CurDir,
    ParentDir,
    Normal,
}

/// The text of `p` cut at every `/` (empty pieces included).
pub open spec fn split_slashes(p: Seq<char>) -> Seq<Seq<char>>
    decreases p.len(),
{
    if p.len() == 0 {
        seq![seq![]]
    } else {
        let r = split_slashes(p.drop_last());
        if p.last() == '/' {
            r.push(seq![])
        } else {
            r.update(r.len() - 1, r.last().push(p.last()))
        }
    }
}

/// What one piece between slashes contributes: nothing for an empty piece
/// or `.`, a parent-directory step for `..`, otherwise a normal name.
pub open spec fn piece_components(s: Seq<char>) -> Seq<(PathPart, Seq<char>)> {
    if s.len() == 0 || s == seq!['.'] {
        seq![]
    } else if s == seq!['.', '.'] {
        seq![(PathPart::ParentDir, s)]
    } else {
        seq![(PathPart::Normal, s)]
    }
}

pub open spec fn pieces_components(pieces: Seq<Seq<char>>) -> Seq<(PathPart, Seq<char>)>
    decreases pieces.len(),
{
    if pieces.len() == 0 {
        seq![]
    } else {
        pieces_components(pieces.drop_last()) + piece_components(pieces.last())
    }
}

/// Whether a relative path starts with a `.` piece (`.` alone or `./...`).
pub open spec fn starts_with_dot_piece(p: Seq<char>) -> bool {
    p == seq!['.'] || (p.len() >= 2 && p[0] == '.' && p[1] == '/')
}

/// `Path::components` on Unix: a root for a leading `/`, a current-directory
/// step when a relative path starts with a `.` piece, then the pieces between
/// slashes with empty pieces and `.` left out. Each component carries its
/// text.
pub open spec fn components(p: Seq<char>) -> Seq<(PathPart, Seq<char>)> {
    let head = if p.len() > 0 && p[0] == '/' {
        seq![(PathPart::RootDir, seq!['/'])]
    } else if starts_with_dot_piece(p) {
        seq![(PathPart::CurDir, seq!['.'])]
    } else {
        seq![]
    };
    head + pieces_components(split_slashes(p))
}

/// The exec form of a component list: its parts and texts as sequences.
pub open spec fn components_view(v: Seq<(PathPart, Vec<char>)>) -> Seq<(PathPart, Seq<char>)> {
    Seq::new(v.len(), |i: int| (v[i].0, v[i].1@))
}

proof fn lemma_split_nonempty(p: Seq<char>)
    ensures
        split_slashes(p).len() >= 1,
    decreases p.len(),
{
    if p.len() > 0 {
        lemma_split_nonempty(p.drop_last());
    }
}

pub(crate) fn copy_chars(s: &Vec<char>) -> (r: Vec<char>)
    ensures
        r@ == s@,
{
    let mut r: Vec<char> = Vec::new();
    let mut i: usize = 0;
    while i < s.len()
        invariant
            i <= s.len(),
            r@ == s@.take(i as int),
        decreases s.len() - i,
    {
        r.push(s[i]);
        assert(s@.take(i + 1) =~= s@.take(i as int).push(s@[i as int]));
        i = i + 1;
    }
    assert(s@.take(s.len() as int) =~= s@);
    r
}

/// Appends the components that one piece between slashes contributes.
fn push_piece(done: &mut Vec<(PathPart, Vec<char>)>, s: &Vec<char>)
    ensures
        components_view(final(done)@) == components_view(old(done)@) + piece_components(s@),
{
    let ghost start = components_view(done@);
    if s.len() == 0 || (s.len() == 1 && s[0] == '.') {
        assert(s.len() == 1 ==> s@ =~= seq!['.']);
        assert(components_view(done@) =~= start + piece_components(s@));
    } else if s.len() == 2 && s[0] == '.' && s[1] == '.' {
        assert(s@ =~= seq!['.', '.']);
        done.push((PathPart::ParentDir, copy_chars(s)));
        assert(components_view(done@) =~= start + piece_components(s@));
    } else {
        assert(s@ != seq!['.']);
        assert(s@ != seq!['.', '.']);
        done.push((PathPart::Normal, copy_chars(s)));
        assert(components_view(done@) =~= start + piece_components(s@));
    }
}

/// `Path::components` of the path text `p`.
pub fn path_components(p: &Vec<char>) -> (r: Vec<(PathPart, Vec<char>)>)
    ensures
        components_view(r@) == components(p@),
{
    let mut r: Vec<(PathPart, Vec<char>)> = Vec::new();
    if p.len() > 0 && p[0] == '/' {
        let mut root: Vec<char> = Vec::new();
        root.push('/');
        r.push((PathPart::RootDir, root));
        assert(root@ =~= seq!['/']);
    } else if (p.len() == 1 && p[0] == '.') || (p.len() >= 2 && p[0] == '.' && p[1] == '/') {
        assert(p.len() == 1 ==> p@ =~= seq!['.']);
        let mut dot: Vec<char> = Vec::new();
        dot.push('.');
        r.push((PathPart::CurDir, dot));
        assert(dot@ =~= seq!['.']);
    } else {
        assert(!starts_with_dot_piece(p@));
    }
    let ghost head = components_view(r@);
    let mut cur: Vec<char> = Vec::new();
    let mut i: usize = 0;
    assert(p@.take(0) =~= Seq::<char>::empty());
    assert(split_slashes(Seq::<char>::empty()).drop_last() =~= Seq::<Seq<char>>::empty());
    assert(components_view(r@) =~= head + pieces_components(Seq::<Seq<char>>::empty()));
    while i < p.len()
        invariant
            i <= p.len(),
            split_slashes(p@.take(i as int)).len() >= 1,
            cur@ == split_slashes(p@.take(i as int)).last(),
            components_view(r@) == head + pieces_components(split_slashes(p@.take(i as int)).drop_last()),
        decreases p.len() - i,
    {
        let ghost before = split_slashes(p@.take(i as int));
        assert(p@.take(i + 1).drop_last() =~= p@.take(i as int));
        assert(p@.take(i + 1).last() == p@[i as int]);
        if p[i] == '/' {
            push_piece(&mut r, &cur);
            let ghost after = split_slashes(p@.take(i + 1));
            assert(after == before.push(seq![]));
            assert(after.drop_last() =~= before);
            assert(pieces_components(before) == pieces_components(before.drop_last()) + piece_components(before.last()));
            cur = Vec::new();
            assert(cur@ =~= after.last());
        } else {
            cur.push(p[i]);
            let ghost after = split_slashes(p@.take(i + 1));
            assert(after.drop_last() =~= before.drop_last());
        }
        proof {
            lemma_split_nonempty(p@.take(i + 1));
        }
        i = i + 1;
    }
    assert(p@.take(p.len() as int) =~= p@);
    let ghost pieces = split_slashes(p@);
    push_piece(&mut r, &cur);
    assert(pieces_components(pieces) == pieces_components(pieces.drop_last()) + piece_components(pieces.last()));
    r
}

/// `Path::starts_with`: the components of `base` are the first components
/// of `path` (whole components only).
pub open spec fn path_has_prefix(path: Seq<char>, base: Seq<char>) -> bool {
    let pc = components(path);
    let bc = components(base);
    bc.len() <= pc.len() && pc.take(bc.len() as int) == bc
}

/// Whether the path `path` lies under `base`, component by component.
pub fn path_starts_with(path: &str, base: &str) -> (r: bool)
    ensures
        r == path_has_prefix(path@, base@),
{
    let pv = chars_of(path);
    let bv = chars_of(base);
    let pc = path_components(&pv);
    let bc = path_components(&bv);
    let ghost pcs = components(path@);
    let ghost bcs = components(base@);
    if bc.len() > pc.len() {
        return false;
    }
    let mut i: usize = 0;
    while i < bc.len()
        invariant
            bc.len() <= pc.len(),
            pcs == components(path@),
            bcs == components(base@),
            components_view(pc@) == pcs,
            components_view(bc@) == bcs,
            i <= bc.len(),
            forall|j: int| 0 <= j < i ==> pcs[j] == bcs[j],
        decreases bc.len() - i,
    {
        assert(pcs[i as int] == (pc@[i as int].0, pc@[i as int].1@));
        assert(bcs[i as int] == (bc@[i as int].0, bc@[i as int].1@));
        if pc[i].0 != bc[i].0 || !chars_eq(&pc[i].1, &bc[i].1) {
            assert(pcs.take(bcs.len() as int)[i as int] != bcs[i as int]);
            assert(pcs.take(bcs.len() as int) != bcs);
            return false;
        }
        i = i + 1;
    }
    assert(pcs.take(bcs.len() as int) =~= bcs);
    true
}

/// `path` lies under `base` with no step back out: the components of
/// `base` start those of `path`, and none of the components after them is
/// `..`. Resolving `.` and `..` lexically then leaves `path` inside `base`.
pub open spec fn lies_under(path: Seq<char>, base: Seq<char>) -> bool {
    let pc = components(path);
    let bc = components(base);
    &&& path_has_prefix(path, base)
    &&& forall|i: int| bc.len() <= i < pc.len() ==> (#[trigger] pc[i]).0 != PathPart::ParentDir
}

/// Whether `path` lies under `base` with no `..` step after it.
pub fn path_lies_under(path: &str, base: &str) -> (r: bool)
    ensures
        r == lies_under(path@, base@),
{
    if !path_starts_with(path, base) {
        return false;
    }
    let pv = chars_of(path);
    let bv = chars_of(base);
    let pc = path_components(&pv);
    let bc = path_components(&bv);
    let ghost pcs = components(path@);
    let ghost bcs = components(base@);
    assert(bc@.len() == bcs.len());
    let mut i: usize = bc.len();
    while i < pc.len()
        invariant
            components_view(pc@) == pcs,
            pcs == components(path@),
            bcs == components(base@),
            bc@.len() == bcs.len(),
            bcs.len() <= i <= pc.len(),
            forall|k: int| bcs.len() <= k < i ==> (#[trigger] pcs[k]).0 != PathPart::ParentDir,
        decreases pc.len() - i,
    {
        assert(pcs[i as int].0 == pc@[i as int].0);
        if pc[i].0 == PathPart::ParentDir {
            return false;
        }
        i = i + 1;
    }
    true
}

/// The texts held by a list of character vectors.
pub open spec fn names_view(v: Seq<Vec<char>>) -> Seq<Seq<char>> {
    Seq::new(v.len(), |i: int| v[i]@)
}

/// The names among a list of components, in order.
pub open spec fn normal_names(c: Seq<(PathPart, Seq<char>)>) -> Seq<Seq<char>>
    decreases c.len(),
{
    if c.len() == 0 {
        seq![]
    } else if c.last().0 == PathPart::Normal {
        normal_names(c.drop_last()).push(c.last().1)
    } else {
        normal_names(c.drop_last())
    }
}

/// The names in the path `p` (its `Component::Normal` parts), in order.
pub fn path_names(p: &str) -> (r: Vec<Vec<char>>)
    ensures
        names_view(r@) == normal_names(components(p@)),
{
    let pv = chars_of(p);
    let c = path_components(&pv);
    let ghost cs = components(p@);
    let mut r: Vec<Vec<char>> = Vec::new();
    let mut i: usize = 0;
    assert(cs.take(0) =~= Seq::<(PathPart, Seq<char>)>::empty());
    while i < c.len()
        invariant
            components_view(c@) == cs,
            cs == components(p@),
            i <= c.len(),
            names_view(r@) == normal_names(cs.take(i as int)),
        decreases c.len() - i,
    {
        let ghost prev = names_view(r@);
        let ghost part = cs[i as int];
        assert(cs.take(i + 1).drop_last() =~= cs.take(i as int));
        assert(cs.take(i + 1).last() == part);
        assert(part == (c@[i as int].0, c@[i as int].1@));
        if c[i].0 == PathPart::Normal {
            let t = copy_chars(&c[i].1);
            r.push(t);
            assert(names_view(r@) =~= prev.push(part.1));
        } else {
            assert(names_view(r@) == prev);
        }
        i = i + 1;
    }
    assert(cs.take(c.len() as int) =~= cs);
    r
}

/// Index of the last occurrence of `c` in `s`, or -1.
pub open spec fn last_index_of(s: Seq<char>, c: char) -> int
    decreases s.len(),
{
    if s.len() == 0 {
        -1
    } else if s.last() == c {
        s.len() - 1
    } else {
        last_index_of(s.drop_last(), c)
    }
}

pub proof fn lemma_last_index_of_bounds(s: Seq<char>, c: char)
    ensures
        -1 <= last_index_of(s, c) < s.len(),
        last_index_of(s, c) >= 0 ==> s[last_index_of(s, c)] == c,
        forall|j: int| last_index_of(s, c) < j < s.len() ==> s[j] != c,
    decreases s.len(),
{
    if s.len() > 0 && s.last() != c {
        lemma_last_index_of_bounds(s.drop_last(), c);
        assert forall|j: int| last_index_of(s, c) < j < s.len() implies s[j] != c by {
            if j < s.len() - 1 {
                assert(s[j] == s.drop_last()[j]);
            }
        }
    }
}

/// `Path::extension` of a file name: the text after its last `.`, unless
/// there is no `.`, the only one leads the name, or the name is `..`.
pub open spec fn extension_of(name: Seq<char>) -> Option<Seq<char>> {
    let k = last_index_of(name, '.');
    if name == seq!['.', '.'] || k <= 0 {
        None
    } else {
        Some(name.skip(k + 1))
    }
}

/// Exec form of `last_index_of`.
pub(crate) fn find_last(s: &Vec<char>, c: char) -> (r: Option<usize>)
    ensures
        match r {
            Some(k) => k as int == last_index_of(s@, c),
            None => last_index_of(s@, c) == -1,
        },
{
    let mut n: usize = s.len();
    assert(s@.take(n as int) =~= s@);
    while n > 0
        invariant
            n <= s.len(),
            last_index_of(s@, c) == last_index_of(s@.take(n as int), c),
        decreases n,
    {
        assert(s@.take(n as int).last() == s@[n - 1]);
        assert(s@.take(n as int).drop_last() =~= s@.take(n - 1));
        if s[n - 1] == c {
            return Some(n - 1);
        }
        n = n - 1;
    }
    None
}

/// The extension of the file name `name`, if it has one.
pub fn file_extension(name: &Vec<char>) -> (r: Option<Vec<char>>)
    ensures
        r matches Some(e) ==> extension_of(name@) == Some(e@),
        r is None ==> extension_of(name@) is None,
{
    if name.len() == 2 && name[0] == '.' && name[1] == '.' {
        assert(name@ =~= seq!['.', '.']);
        return None;
    }
    match find_last(name, '.') {
        None => None,
        Some(k) => {
            if k == 0 {
                None
            } else {
                proof {
                    lemma_last_index_of_bounds(name@, '.');
                }
                let mut e: Vec<char> = Vec::new();
                let mut i: usize = k + 1;
                while i < name.len()
                    invariant
                        k < name.len(),
                        k + 1 <= i <= name.len(),
                        e@ == name@.subrange(k + 1, i as int),
                    decreases name.len() - i,
                {
                    e.push(name[i]);
                    assert(name@.subrange(k + 1, i + 1) =~= name@.subrange(k + 1, i as int).push(name@[i as int]));
                    i = i + 1;
                }
                assert(name@.subrange(k + 1, name.len() as int) =~= name@.skip(k + 1));
                Some(e)
            }
        },
    }
}

/// `Path::join` on Unix: an absolute `rel` replaces `base`; otherwise `rel`
/// is appended, after a `/` when `base` is non-empty and does not end in one.
pub open spec fn joined(base: Seq<char>, rel: Seq<char>) -> Seq<char> {
    if rel.len() > 0 && rel[0] == '/' {
        rel
    } else if base.len() > 0 && base.last() != '/' {
        base + seq!['/'] + rel
    } else {
        base + rel
    }
}

/// `base.join(rel)` as text.
pub fn join(base: &str, rel: &str) -> (r: String)
    ensures
        r@ == joined(base@, rel@),
{
    let bv = chars_of(base);
    let rv = chars_of(rel);
    let mut r = String::new();
    if rv.len() > 0 && rv[0] == '/' {
        push_chars(&mut r, &rv);
    } else {
        push_chars(&mut r, &bv);
        if bv.len() > 0 && bv[bv.len() - 1] != '/' {
            crate::text::push_char(&mut r, '/');
        }
        push_chars(&mut r, &rv);
    }
    r
}

} // verus!
