//! The two value trees: the structured tree handed over by the decoding
//! collaborators, and the host-native tree the bridge produces.

use vstd::prelude::*;

verus! {

/// One number of a structured value tree, in exactly one of the three
/// disjoint 64-bit representations, or in none of them.
#[derive(Debug, Clone, Copy, PartialEq)]
pub enum NumKind {
    /// Fits the unsigned 64-bit range.
    Unsigned(u64),
    /// Fits the signed 64-bit range but not the unsigned one, so it is
    /// negative.
    Signed(i64),
    /// A finite IEEE-754 double, carried as its bit pattern.
    FloatBits(u64),
    /// A malformed numeric literal: none of the three representations
    /// applies. The bridge converts it to the host null rather than failing.
    Malformed,
}

/// A structured value tree: the universal intermediate representation the
/// decoding collaborators produce. Map entries carry their source order,
/// which is not assumed stable; the bridge re-orders them.
#[derive(Debug, PartialEq)]
pub enum Tree {
    Null,
    Bool(bool),
    Num(NumKind),
    Text(String),
    List(Vec<Tree>),
    Object(Vec<(String, Tree)>),
}

/// A host-native value tree. Numbers stay in their exact representation;
/// dictionary entries are ordered by key, lexicographically ascending.
#[derive(Debug, PartialEq)]
pub enum HostValue {
    Null,
    Bool(bool),
    UInt(u64),
    Int(i64),
    FloatBits(u64),
    Text(String),
    List(Vec<HostValue>),
    Dict(Vec<(String, HostValue)>),
}

/// A signed number is only used for values the unsigned representation
/// cannot hold, so it is negative.
pub open spec fn number_wf(n: NumKind) -> bool {
    match n {
        NumKind::Signed(i) => i < 0,
        _ => true,
    }
}

/// The keys of an object's entries are pairwise distinct.
pub open spec fn keys_unique(ps: Seq<(String, Tree)>) -> bool {
    forall|i: int, j: int| 0 <= i < j < ps.len() ==> ps[i].0@ != ps[j].0@
}

/// Some entry of `ps` carries the key `k`.
pub open spec fn has_key(ps: Seq<(String, Tree)>, k: Seq<char>) -> bool {
    exists|i: int| 0 <= i < ps.len() && ps[i].0@ == k
}

/// Well-formedness of a structured value tree, as the producing collaborator
/// guarantees it: object keys are unique and numbers sit in the right
/// representation, at every depth.
pub open spec fn tree_wf(v: Tree) -> bool
    decreases v,
{
    match v {
        Tree::Num(n) => number_wf(n),
        Tree::List(xs) => forall|i: int| 0 <= i < xs@.len() ==> tree_wf(#[trigger] xs@[i]),
        Tree::Object(ps) => keys_unique(ps@) && forall|i: int|
            0 <= i < ps@.len() ==> tree_wf(#[trigger] ps@[i].1),
        _ => true,
    }
}

/// A well-formed list is well-formed at each entry.
pub proof fn lemma_list_entry_wf(xs: Vec<Tree>, i: int)
    requires
        tree_wf(Tree::List(xs)),
        0 <= i < xs@.len(),
    ensures
        tree_wf(xs@[i]),
{
    let v = Tree::List(xs);
    match v {
        Tree::List(ys) => {
            assert(ys == xs);
            assert(tree_wf(v) == (forall|j: int|
                0 <= j < ys@.len() ==> tree_wf(#[trigger] ys@[j])));
        },
        _ => {},
    }
}

/// A well-formed object has unique keys and is well-formed at each entry.
pub proof fn lemma_object_entry_wf(ps: Vec<(String, Tree)>, i: int)
    requires
        tree_wf(Tree::Object(ps)),
        0 <= i < ps@.len(),
    ensures
        tree_wf(ps@[i].1),
        keys_unique(ps@),
{
    let v = Tree::Object(ps);
    match v {
        Tree::Object(qs) => {
            assert(qs == ps);
            assert(keys_unique(qs@) && (forall|j: int|
                0 <= j < qs@.len() ==> tree_wf(#[trigger] qs@[j].1)));
        },
        _ => {},
    }
}

/// Assembles well-formedness of a list from its entries'.
pub proof fn lemma_list_wf_intro(xs: Vec<Tree>)
    requires
        forall|i: int| 0 <= i < xs@.len() ==> tree_wf(#[trigger] xs@[i]),
    ensures
        tree_wf(Tree::List(xs)),
{
    let v = Tree::List(xs);
    match v {
        Tree::List(ys) => {
            assert(ys == xs);
            assert(tree_wf(v) == (forall|j: int|
                0 <= j < ys@.len() ==> tree_wf(#[trigger] ys@[j])));
        },
        _ => {},
    }
}

/// Assembles well-formedness of an object from unique keys and its
/// entries'.
pub proof fn lemma_object_wf_intro(ps: Vec<(String, Tree)>)
    requires
        keys_unique(ps@),
        forall|i: int| 0 <= i < ps@.len() ==> tree_wf(#[trigger] ps@[i].1),
    ensures
        tree_wf(Tree::Object(ps)),
{
    let v = Tree::Object(ps);
    match v {
        Tree::Object(qs) => {
            assert(qs == ps);
            assert(tree_wf(v) == (keys_unique(qs@) && (forall|j: int|
                0 <= j < qs@.len() ==> tree_wf(#[trigger] qs@[j].1))));
        },
        _ => {},
    }
}

/// Executable test of well-formedness, so that an unverified embedder can
/// validate a tree a collaborator handed it before calling functions that
/// assume §-style validity: the result is exactly `tree_wf`.
pub fn check_tree_wf(t: &Tree) -> (r: bool)
    ensures
        r == tree_wf(*t),
    decreases *t,
{
    match t {
        Tree::Null => true,
        Tree::Bool(_) => true,
        Tree::Text(_) => true,
        Tree::Num(n) => {
            let ok = match n {
                NumKind::Signed(i) => *i < 0,
                _ => true,
            };
            proof {
                let v = *t;
                match v {
                    Tree::Num(m) => {
                        assert(tree_wf(v) == number_wf(m));
                    },
                    _ => {},
                }
            }
            ok
        },
        Tree::List(xs) => {
            let mut i: usize = 0;
            while i < xs.len()
                invariant
                    i <= xs@.len(),
                    *t == Tree::List(*xs),
                    forall|j: int| 0 <= j < i ==> tree_wf(#[trigger] xs@[j]),
                decreases xs@.len() - i,
            {
                proof {
                    assert(decreases_to!(*t => t->List_0));
                    assert(t->List_0 == *xs);
                    assert(decreases_to!(*xs => xs@));
                    assert(decreases_to!(xs@ => xs@[i as int]));
                }
                if !check_tree_wf(&xs[i]) {
                    proof {
                        if tree_wf(*t) {
                            lemma_list_entry_wf(*xs, i as int);
                        }
                    }
                    return false;
                }
                i = i + 1;
            }
            proof {
                lemma_list_wf_intro(*xs);
            }
            true
        },
        Tree::Object(ps) => {
            let mut i: usize = 0;
            while i < ps.len()
                invariant
                    i <= ps@.len(),
                    *t == Tree::Object(*ps),
                    forall|j: int| 0 <= j < i ==> tree_wf(#[trigger] ps@[j].1),
                    forall|j: int, k: int| 0 <= j < k < i ==> ps@[j].0@ != ps@[k].0@,
                decreases ps@.len() - i,
            {
                proof {
                    assert(decreases_to!(*t => t->Object_0));
                    assert(t->Object_0 == *ps);
                    assert(decreases_to!(*ps => ps@));
                    assert(decreases_to!(ps@ => ps@[i as int]));
                    assert(decreases_to!(ps@[i as int] => ps@[i as int].1));
                }
                if !check_tree_wf(&ps[i].1) {
                    proof {
                        if tree_wf(*t) {
                            lemma_object_entry_wf(*ps, i as int);
                        }
                    }
                    return false;
                }
                let mut j: usize = 0;
                while j < i
                    invariant
                        j <= i,
                        i < ps@.len(),
                        *t == Tree::Object(*ps),
                        forall|k: int| 0 <= k < j ==> ps@[k].0@ != ps@[i as int].0@,
                    decreases i - j,
                {
                    if crate::order::str_eq(ps[j].0.as_str(), ps[i].0.as_str()) {
                        proof {
                            if tree_wf(*t) {
                                lemma_object_entry_wf(*ps, i as int);
                                assert(ps@[j as int].0@ != ps@[i as int].0@);
                            }
                        }
                        return false;
                    }
                    j = j + 1;
                }
                i = i + 1;
            }
            proof {
                lemma_object_wf_intro(*ps);
            }
            true
        },
    }
}

} // verus!
