//! The value bridge: the recursive conversion from a structured value tree
//! to a host-native value tree.
//!
//! Numbers keep their exact representation (a malformed number falls back to
//! the host null), list order is preserved, and dictionary entries come out
//! ordered by key, lexicographically ascending, whatever order the source
//! object listed them in.

use vstd::prelude::*;

use crate::order::{lemma_lex_lt_connected, lemma_lex_lt_transitive, lex_lt, str_lt};
use crate::value::{has_key, tree_wf, HostValue, NumKind, Tree};

verus! {

/// What a number converts to: the host value keeps the exact representation;
/// a malformed number falls back to the host null.
pub open spec fn num_converts(n: NumKind, h: HostValue) -> bool {
    match n {
        NumKind::Unsigned(u) => h == HostValue::UInt(u),
        NumKind::Signed(i) => h == HostValue::Int(i),
        NumKind::FloatBits(bits) => h == HostValue::FloatBits(bits),
        NumKind::Malformed => h == HostValue::Null,
    }
}

/// Some entry of the dictionary carries the key `k`.
pub open spec fn dict_has_key(qs: Seq<(String, HostValue)>, k: Seq<char>) -> bool {
    exists|j: int| 0 <= j < qs.len() && qs[j].0@ == k
}

/// Dictionary keys are strictly ascending in lexicographic order.
pub open spec fn dict_keys_sorted(qs: Seq<(String, HostValue)>) -> bool {
    forall|i: int, j: int| 0 <= i < j < qs.len() ==> lex_lt(qs[i].0@, qs[j].0@)
}

/// The conversion relation: `h` is the host-native form of the tree `v`.
///
/// An object's entries reappear as a dictionary with the same set of keys,
/// strictly sorted, each value converted; a list's entries reappear in
/// order, each converted.
pub open spec fn converts(v: Tree, h: HostValue) -> bool
    decreases v,
{
    match v {
        Tree::Null => h == HostValue::Null,
        Tree::Bool(b) => h == HostValue::Bool(b),
        Tree::Num(n) => num_converts(n, h),
        Tree::Text(s) => h matches HostValue::Text(t) && t@ == s@,
        Tree::List(xs) => {
            &&& h matches HostValue::List(ys)
            &&& xs@.len() == ys@.len()
            &&& forall|i: int| 0 <= i < xs@.len() ==> converts(#[trigger] xs@[i], ys@[i])
        },
        Tree::Object(ps) => {
            &&& h matches HostValue::Dict(qs)
            &&& dict_keys_sorted(qs@)
            &&& forall|j: int| 0 <= j < qs@.len() ==> has_key(ps@, #[trigger] qs@[j].0@)
            &&& forall|i: int| 0 <= i < ps@.len() ==> dict_has_key(qs@, #[trigger] ps@[i].0@)
            &&& forall|i: int, j: int|
                0 <= i < ps@.len() && 0 <= j < qs@.len() && ps@[i].0@ == qs@[j].0@
                    ==> converts(#[trigger] ps@[i].1, #[trigger] qs@[j].1)
        },
    }
}

/// Converts one number, keeping its representation; the malformed case is
/// the single permissive fallback of the bridge.
pub fn convert_number(n: NumKind) -> (r: HostValue)
    ensures
        num_converts(n, r),
{
    match n {
        NumKind::Unsigned(u) => HostValue::UInt(u),
        NumKind::Signed(i) => HostValue::Int(i),
        NumKind::FloatBits(bits) => HostValue::FloatBits(bits),
        NumKind::Malformed => HostValue::Null,
    }
}

/// Position at which `k` keeps the dictionary sorted: everything before it
/// is smaller, and the entry at it (if any) is larger.
fn find_insert_pos(qs: &Vec<(String, HostValue)>, k: &str) -> (m: usize)
    requires
        dict_keys_sorted(qs@),
        !dict_has_key(qs@, k@),
    ensures
        m <= qs@.len(),
        forall|j: int| 0 <= j < m ==> lex_lt(#[trigger] qs@[j].0@, k@),
        m < qs@.len() ==> lex_lt(k@, qs@[m as int].0@),
{
    let mut m: usize = 0;
    loop
        invariant
            m <= qs@.len(),
            dict_keys_sorted(qs@),
            !dict_has_key(qs@, k@),
            forall|j: int| 0 <= j < m ==> lex_lt(#[trigger] qs@[j].0@, k@),
        decreases qs@.len() - m,
    {
        if m == qs.len() {
            return m;
        }
        if str_lt(k, qs[m].0.as_str()) {
            return m;
        }
        proof {
            if !lex_lt(qs@[m as int].0@, k@) {
                lemma_lex_lt_connected(k@, qs@[m as int].0@);
                assert(qs@[m as int].0@ == k@);
                assert(false);
            }
        }
        m = m + 1;
    }
}

/// Inserts a new key into a sorted dictionary, keeping it sorted. The key
/// must not be present yet.
fn insert_sorted(qs: &mut Vec<(String, HostValue)>, k: String, h: HostValue)
    requires
        dict_keys_sorted(old(qs)@),
        !dict_has_key(old(qs)@, k@),
    ensures
        final(qs)@.len() == old(qs)@.len() + 1,
        dict_keys_sorted(final(qs)@),
        forall|j: int|
            0 <= j < final(qs)@.len() ==> (final(qs)@[j].0@ == k@ && final(qs)@[j].1 == h) || (
            exists|j0: int| 0 <= j0 < old(qs)@.len() && final(qs)@[j] == #[trigger] old(qs)@[j0]),
        forall|j0: int|
            0 <= j0 < old(qs)@.len() ==> exists|j: int|
                0 <= j < final(qs)@.len() && final(qs)@[j] == #[trigger] old(qs)@[j0],
        dict_has_key(final(qs)@, k@),
        forall|j: int|
            0 <= j < final(qs)@.len() && (#[trigger] final(qs)@[j].0@) == k@
                ==> final(qs)@[j].1 == h,
{
    let m = find_insert_pos(qs, k.as_str());
    let ghost prior = qs@;
    let ghost entry = (k, h);
    qs.insert(m, (k, h));
    proof {
        prior.insert_ensures(m as int, entry);
        assert forall|i: int, j: int| 0 <= i < j < qs@.len() implies lex_lt(
            qs@[i].0@,
            qs@[j].0@,
        ) by {
            if j < m {
                assert(qs@[i] == prior[i] && qs@[j] == prior[j]);
            } else if j == m {
                assert(qs@[i] == prior[i]);
                assert(lex_lt(prior[i].0@, k@));
            } else {
                assert(qs@[j] == prior[j - 1]);
                if i < m {
                    assert(qs@[i] == prior[i]);
                    if m <= j - 2 {
                        lemma_lex_lt_transitive(prior[i].0@, k@, prior[m as int].0@);
                        lemma_lex_lt_transitive(k@, prior[m as int].0@, prior[j - 1].0@);
                        lemma_lex_lt_transitive(prior[i].0@, k@, prior[j - 1].0@);
                    } else {
                        lemma_lex_lt_transitive(prior[i].0@, k@, prior[j - 1].0@);
                    }
                } else if i == m {
                    if m <= j - 2 {
                        lemma_lex_lt_transitive(k@, prior[m as int].0@, prior[j - 1].0@);
                    }
                } else {
                    assert(qs@[i] == prior[i - 1]);
                }
            }
        }
        assert(qs@[m as int] == entry);
        assert forall|j: int|
            0 <= j < qs@.len() && (#[trigger] qs@[j].0@) == k@ implies qs@[j].1 == h by {
            if j < m {
                assert(qs@[j] == prior[j]);
                assert(dict_has_key(prior, k@));
            } else if j > m {
                assert(qs@[j] == prior[j - 1]);
                assert(dict_has_key(prior, k@));
            }
        }
        assert forall|j0: int| 0 <= j0 < prior.len() implies exists|j: int|
            0 <= j < qs@.len() && qs@[j] == #[trigger] prior[j0] by {
            if j0 < m {
                assert(qs@[j0] == prior[j0]);
            } else {
                assert(qs@[j0 + 1] == prior[j0]);
            }
        }
    }
}

/// The value bridge. Total for well-formed trees: every node converts, and
/// the result stands in the conversion relation with the input.
#[verifier::rlimit(60)]
pub fn convert(v: &Tree) -> (r: HostValue)
    requires
        tree_wf(*v),
    ensures
        converts(*v, r),
    decreases *v,
{
    match v {
        Tree::Null => HostValue::Null,
        Tree::Bool(b) => HostValue::Bool(*b),
        Tree::Num(n) => convert_number(*n),
        Tree::Text(s) => HostValue::Text(s.clone()),
        Tree::List(xs) => {
            let mut ys: Vec<HostValue> = Vec::new();
            let mut i: usize = 0;
            while i < xs.len()
                invariant
                    i <= xs@.len(),
                    ys@.len() == i,
                    *v == Tree::List(*xs),
                    tree_wf(*v),
                    forall|j: int| 0 <= j < i ==> converts(xs@[j], #[trigger] ys@[j]),
                decreases xs@.len() - i,
            {
                proof {
                    assert(tree_wf(Tree::List(*xs)));
                    crate::value::lemma_list_entry_wf(*xs, i as int);
                    assert(decreases_to!(*v => v->List_0));
                    assert(v->List_0 == *xs);
                    assert(decreases_to!(*xs => xs@));
                    assert(decreases_to!(xs@ => xs@[i as int]));
                }
                ys.push(convert(&xs[i]));
                i = i + 1;
            }
            HostValue::List(ys)
        },
        Tree::Object(ps) => {
            let mut qs: Vec<(String, HostValue)> = Vec::new();
            let mut i: usize = 0;
            while i < ps.len()
                invariant
                    i <= ps@.len(),
                    *v == Tree::Object(*ps),
                    tree_wf(*v),
                    dict_keys_sorted(qs@),
                    forall|j: int|
                        0 <= j < qs@.len() ==> exists|i0: int|
                            0 <= i0 < i && ps@[i0].0@ == (#[trigger] qs@[j].0@),
                    forall|i0: int| 0 <= i0 < i ==> dict_has_key(qs@, #[trigger] ps@[i0].0@),
                    forall|i0: int, j: int|
                        0 <= i0 < i && 0 <= j < qs@.len() && ps@[i0].0@ == qs@[j].0@
                            ==> converts(#[trigger] ps@[i0].1, #[trigger] qs@[j].1),
                decreases ps@.len() - i,
            {
                proof {
                    assert(tree_wf(Tree::Object(*ps)));
                    crate::value::lemma_object_entry_wf(*ps, i as int);
                    assert(decreases_to!(*v => v->Object_0));
                    assert(v->Object_0 == *ps);
                    assert(decreases_to!(*ps => ps@));
                    assert(decreases_to!(ps@ => ps@[i as int]));
                    assert(decreases_to!(ps@[i as int] => ps@[i as int].1));
                }
                let hv = convert(&ps[i].1);
                let key = ps[i].0.clone();
                proof {
                    if dict_has_key(qs@, key@) {
                        let j = choose|j: int|
                            0 <= j < qs@.len() && qs@[j].0@ == key@;
                        let i0 = choose|i0: int|
                            0 <= i0 < i && ps@[i0].0@ == qs@[j].0@;
                        assert(ps@[i0].0@ == ps@[i as int].0@);
                        assert(false);
                    }
                }
                let ghost prior = qs@;
                insert_sorted(&mut qs, key, hv);
                proof {
                    assert forall|j: int|
                        0 <= j < qs@.len() implies exists|i0: int|
                        0 <= i0 < i + 1 && ps@[i0].0@ == (#[trigger] qs@[j].0@) by {
                        if qs@[j].0@ == ps@[i as int].0@ {
                            assert(0 <= i < i + 1 && ps@[i as int].0@ == qs@[j].0@);
                        } else {
                            let j0 = choose|j0: int|
                                0 <= j0 < prior.len() && qs@[j] == prior[j0];
                            let i0 = choose|i0: int|
                                0 <= i0 < i && ps@[i0].0@ == prior[j0].0@;
                            assert(0 <= i0 < i + 1 && ps@[i0].0@ == qs@[j].0@);
                        }
                    }
                    assert forall|i0: int| 0 <= i0 < i + 1 implies dict_has_key(
                        qs@,
                        #[trigger] ps@[i0].0@,
                    ) by {
                        if i0 == i {
                            assert(dict_has_key(qs@, key@));
                        } else {
                            let j0 = choose|j0: int|
                                0 <= j0 < prior.len() && prior[j0].0@ == ps@[i0].0@;
                            let j = choose|j: int|
                                0 <= j < qs@.len() && qs@[j] == prior[j0];
                            assert(0 <= j < qs@.len() && qs@[j].0@ == ps@[i0].0@);
                        }
                    }
                    assert forall|i0: int, j: int|
                        0 <= i0 < i + 1 && 0 <= j < qs@.len() && ps@[i0].0@ == qs@[j].0@
                            implies converts(#[trigger] ps@[i0].1, #[trigger] qs@[j].1) by {
                        if qs@[j].0@ == key@ {
                            assert(qs@[j].1 == hv);
                            assert(ps@[i0].0@ == ps@[i as int].0@);
                            if i0 != i {
                                assert(false);
                            }
                        } else {
                            let j0 = choose|j0: int|
                                0 <= j0 < prior.len() && qs@[j] == prior[j0];
                            if i0 == i {
                                assert(prior[j0].0@ == key@);
                                let i1 = choose|i1: int|
                                    0 <= i1 < i && ps@[i1].0@ == prior[j0].0@;
                                assert(ps@[i1].0@ == ps@[i as int].0@);
                                assert(false);
                            }
                            assert(converts(ps@[i0].1, prior[j0].1));
                        }
                    }
                }
                i = i + 1;
            }
            HostValue::Dict(qs)
        },
    }
}

} // verus!
