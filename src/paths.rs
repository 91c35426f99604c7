//! Module paths: splitting a written type path into segments and
//! canonicalising a relative module path against the module it is written in.

use crate::text::str_eq;
use vstd::prelude::*;
use vstd::string::*;

verus! {

/// The character sequences of a vector of strings.
pub open spec fn segs_of(v: Vec<String>) -> Seq<Seq<char>> {
    v@.map_values(|s: String| s@)
}

pub open spec fn crate_seg() -> Seq<char> {
    seq!['c', 'r', 'a', 't', 'e']
}

pub open spec fn self_seg() -> Seq<char> {
    seq!['s', 'e', 'l', 'f']
}

pub open spec fn super_seg() -> Seq<char> {
    seq!['s', 'u', 'p', 'e', 'r']
}

/// The root module path, `crate`.
pub open spec fn root_path() -> Seq<Seq<char>> {
    seq![crate_seg()]
}

/// Splitting of `s[i..]` at each `::`, where `cur` is the segment read so far
/// and `acc` the segments already closed.
pub open spec fn split_from(s: Seq<char>, i: int, cur: Seq<char>, acc: Seq<Seq<char>>) -> Seq<Seq<char>>
    decreases s.len() - i,
{
    if i >= s.len() {
        acc.push(cur)
    } else if s[i] == ':' && i + 1 < s.len() && s[i + 1] == ':' {
        split_from(s, i + 2, Seq::empty(), acc.push(cur))
    } else {
        split_from(s, i + 1, cur.push(s[i]), acc)
    }
}

/// The segments of a written path such as `shared::Config`, read from left to
/// right with each `::` closing a segment.
pub open spec fn split_path(s: Seq<char>) -> Seq<Seq<char>> {
    split_from(s, 0, Seq::empty(), Seq::empty())
}

pub proof fn lemma_split_from_len(s: Seq<char>, i: int, cur: Seq<char>, acc: Seq<Seq<char>>)
    ensures
        split_from(s, i, cur, acc).len() > acc.len(),
    decreases s.len() - i,
{
    if i < s.len() {
        if s[i] == ':' && i + 1 < s.len() && s[i + 1] == ':' {
            lemma_split_from_len(s, i + 2, Seq::empty(), acc.push(cur));
        } else {
            lemma_split_from_len(s, i + 1, cur.push(s[i]), acc);
        }
    }
}

pub proof fn lemma_split_path_nonempty(s: Seq<char>)
    ensures
        split_path(s).len() >= 1,
{
    lemma_split_from_len(s, 0, Seq::empty(), Seq::empty());
}

/// One step of canonicalisation: `crate` goes to the root, `self` stays,
/// `super` goes up one level (impossible at the root), any other segment
/// goes down into the child module of that name.
pub open spec fn step_path(cur: Seq<Seq<char>>, seg: Seq<char>) -> Option<Seq<Seq<char>>> {
    if seg == crate_seg() {
        Some(root_path())
    } else if seg == self_seg() {
        Some(cur)
    } else if seg == super_seg() {
        if cur.len() <= 1 {
            None
        } else {
            Some(cur.drop_last())
        }
    } else {
        Some(cur.push(seg))
    }
}

/// Canonical form of the first `n` segments of `segs`, read relative to the
/// module path `base`; `None` where a `super` climbs above the root.
pub open spec fn normalize_prefix(segs: Seq<Seq<char>>, base: Seq<Seq<char>>, n: int) -> Option<Seq<Seq<char>>>
    decreases n,
{
    if n <= 0 {
        Some(base)
    } else {
        match normalize_prefix(segs, base, n - 1) {
            Some(cur) => step_path(cur, segs[n - 1]),
            None => None,
        }
    }
}

/// Absolute module path that `segs`, written in the module `base`, denotes.
pub open spec fn normalize(segs: Seq<Seq<char>>, base: Seq<Seq<char>>) -> Option<Seq<Seq<char>>> {
    normalize_prefix(segs, base, segs.len() as int)
}

/// Copy of a vector of strings.
pub fn clone_segs(v: &Vec<String>) -> (r: Vec<String>)
    ensures
        segs_of(r) == segs_of(*v),
{
    let mut r: Vec<String> = Vec::new();
    let mut i: usize = 0;
    while i < v.len()
        invariant
            i <= v.len(),
            segs_of(r) =~= segs_of(*v).subrange(0, i as int),
        decreases v.len() - i,
    {
        let ghost before = segs_of(r);
        r.push(v[i].clone());
        assert(segs_of(r) =~= before.push(v[i as int]@));
        assert(segs_of(*v).subrange(0, i + 1) =~= segs_of(*v).subrange(0, i as int).push(v[i as int]@));
        i = i + 1;
    }
    assert(segs_of(*v).subrange(0, v.len() as int) =~= segs_of(*v));
    r
}

/// Segment-wise equality of two paths.
pub fn segs_eq(a: &Vec<String>, b: &Vec<String>) -> (r: bool)
    ensures
        r == (segs_of(*a) == segs_of(*b)),
{
    if a.len() != b.len() {
        assert(segs_of(*a).len() != segs_of(*b).len());
        return false;
    }
    let mut i: usize = 0;
    while i < a.len()
        invariant
            a.len() == b.len(),
            i <= a.len(),
            forall|j: int| 0 <= j < i ==> segs_of(*a)[j] == segs_of(*b)[j],
        decreases a.len() - i,
    {
        if a[i] != b[i] {
            assert(segs_of(*a)[i as int] != segs_of(*b)[i as int]);
            return false;
        }
        i = i + 1;
    }
    assert(segs_of(*a) =~= segs_of(*b));
    true
}

/// Splits a written type path at each `::`.
pub fn split_type_path(s: &str) -> (r: Vec<String>)
    ensures
        segs_of(r) == split_path(s@),
        r.len() >= 1,
{
    let n = s.unicode_len();
    let mut acc: Vec<String> = Vec::new();
    let mut cur = String::new();
    let mut i: usize = 0;
    assert(segs_of(acc) =~= Seq::<Seq<char>>::empty());
    while i < n
        invariant
            n == s@.len(),
            i <= n,
            split_from(s@, i as int, cur@, segs_of(acc)) == split_path(s@),
        decreases n - i,
    {
        let c = s.get_char(i);
        if c == ':' && i + 1 < n && s.get_char(i + 1) == ':' {
            let ghost before = segs_of(acc);
            let ghost closed = cur@;
            acc.push(cur);
            cur = String::new();
            assert(segs_of(acc) =~= before.push(closed));
            i = i + 2;
        } else {
            crate::text::push_char(&mut cur, c);
            i = i + 1;
        }
    }
    let ghost before = segs_of(acc);
    let ghost last = cur@;
    acc.push(cur);
    proof {
        assert(segs_of(acc) =~= before.push(last));
        lemma_split_path_nonempty(s@);
    }
    acc
}

pub proof fn lemma_normalize_stuck(segs: Seq<Seq<char>>, base: Seq<Seq<char>>, k: int, n: int)
    requires
        0 <= k <= n,
        normalize_prefix(segs, base, k) is None,
    ensures
        normalize_prefix(segs, base, n) is None,
    decreases n - k,
{
    if k < n {
        lemma_normalize_stuck(segs, base, k + 1, n);
    }
}

/// Whether `seg` is the segment `crate`.
fn is_crate_seg(seg: &String) -> (r: bool)
    ensures
        r == (seg@ == crate_seg()),
{
    proof {
        reveal_strlit("crate");
        assert("crate"@ =~= crate_seg());
    }
    str_eq(seg.as_str(), "crate")
}

fn is_self_seg(seg: &String) -> (r: bool)
    ensures
        r == (seg@ == self_seg()),
{
    proof {
        reveal_strlit("self");
        assert("self"@ =~= self_seg());
    }
    str_eq(seg.as_str(), "self")
}

fn is_super_seg(seg: &String) -> (r: bool)
    ensures
        r == (seg@ == super_seg()),
{
    proof {
        reveal_strlit("super");
        assert("super"@ =~= super_seg());
    }
    str_eq(seg.as_str(), "super")
}

/// The absolute module path that `segs`, written in module `base`, denotes;
/// `None` where a `super` climbs above the root.
pub fn normalize_path(segs: &Vec<String>, base: &Vec<String>) -> (r: Option<Vec<String>>)
    ensures
        match r {
            Some(v) => normalize(segs_of(*segs), segs_of(*base)) == Some(segs_of(v)),
            None => normalize(segs_of(*segs), segs_of(*base)) is None,
        },
{
    let mut cur = clone_segs(base);
    let mut i: usize = 0;
    while i < segs.len()
        invariant
            i <= segs.len(),
            normalize_prefix(segs_of(*segs), segs_of(*base), i as int) == Some(segs_of(cur)),
        decreases segs.len() - i,
    {
        let seg = &segs[i];
        assert(segs_of(*segs)[i as int] == seg@);
        if is_crate_seg(seg) {
            let mut root: Vec<String> = Vec::new();
            root.push(String::from_str("crate"));
            proof {
                reveal_strlit("crate");
                assert("crate"@ =~= crate_seg());
                assert(segs_of(root) =~= root_path());
            }
            cur = root;
        } else if is_self_seg(seg) {
        } else if is_super_seg(seg) {
            if cur.len() <= 1 {
                proof {
                    lemma_normalize_stuck(segs_of(*segs), segs_of(*base), i + 1, segs.len() as int);
                }
                return None;
            }
            let ghost before = segs_of(cur);
            cur.pop();
            assert(segs_of(cur) =~= before.drop_last());
        } else {
            let ghost before = segs_of(cur);
            cur.push(seg.clone());
            assert(segs_of(cur) =~= before.push(seg@));
        }
        i = i + 1;
    }
    Some(cur)
}

/// Whether `s` holds no `::`, so that it is a single segment.
pub open spec fn is_plain_name(s: Seq<char>) -> bool {
    forall|i: int| 0 <= i < s.len() - 1 ==> !(#[trigger] s[i] == ':' && s[i + 1] == ':')
}

proof fn lemma_split_from_plain(s: Seq<char>, i: int, cur: Seq<char>, acc: Seq<Seq<char>>)
    requires
        is_plain_name(s),
        0 <= i <= s.len(),
    ensures
        split_from(s, i, cur, acc) == acc.push(cur + s.subrange(i, s.len() as int)),
    decreases s.len() - i,
{
    if i >= s.len() {
        assert(cur + s.subrange(i, s.len() as int) =~= cur);
    } else {
        lemma_split_from_plain(s, i + 1, cur.push(s[i]), acc);
        assert(cur.push(s[i]) + s.subrange(i + 1, s.len() as int) =~= cur + s.subrange(i, s.len() as int));
    }
}

/// A name without `::` is a path of one segment.
pub proof fn lemma_split_plain(s: Seq<char>)
    requires
        is_plain_name(s),
    ensures
        split_path(s) == seq![s],
{
    lemma_split_from_plain(s, 0, Seq::empty(), Seq::empty());
    assert(Seq::<char>::empty() + s.subrange(0, s.len() as int) =~= s);
    assert(Seq::<Seq<char>>::empty().push(s) =~= seq![s]);
}

/// Whether `v` holds a string equal to `s`.
pub fn contains_segment(v: &Vec<String>, s: &String) -> (r: bool)
    ensures
        r == segs_of(*v).contains(s@),
{
    let mut i: usize = 0;
    while i < v.len()
        invariant
            i <= v.len(),
            forall|j: int| 0 <= j < i ==> segs_of(*v)[j] != s@,
        decreases v.len() - i,
    {
        if v[i] == *s {
            assert(segs_of(*v)[i as int] == s@);
            return true;
        }
        i = i + 1;
    }
    false
}

} // verus!
