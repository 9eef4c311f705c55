//! The bridge's laws: numeric fidelity and determinism.
//!
//! `host_eq` is equality of host trees up to string identity (same shape,
//! same scalars, same text). `tree_equiv` says two source trees are
//! logically identical: equal except that object entries may be listed in
//! different orders. The main theorem: converting logically identical trees
//! gives equal host trees, whatever order their objects listed their keys.

use vstd::prelude::*;

use crate::bridge::{converts, dict_has_key, dict_keys_sorted, num_converts};
use crate::serial::{canon, canon_entries, canon_entry, canon_items};
use crate::order::{lemma_lex_lt_irreflexive, lemma_lex_lt_transitive, lex_lt};
use crate::value::{has_key, tree_wf, HostValue, NumKind, Tree};

verus! {

/// Structural equality of host trees: same shape, same scalars, text and
/// keys equal as character sequences.
pub open spec fn host_eq(a: HostValue, b: HostValue) -> bool
    decreases a,
{
    match a {
        HostValue::Null => b == HostValue::Null,
        HostValue::Bool(x) => b == HostValue::Bool(x),
        HostValue::UInt(x) => b == HostValue::UInt(x),
        HostValue::Int(x) => b == HostValue::Int(x),
        HostValue::FloatBits(x) => b == HostValue::FloatBits(x),
        HostValue::Text(s) => b matches HostValue::Text(t) && s@ == t@,
        HostValue::List(xs) => b matches HostValue::List(ys) && xs@.len() == ys@.len() && (forall|
            i: int,
        | 0 <= i < xs@.len() ==> host_eq(#[trigger] xs@[i], ys@[i])),
        HostValue::Dict(ps) => b matches HostValue::Dict(qs) && ps@.len() == qs@.len() && (forall|
            i: int,
        |
            0 <= i < ps@.len() ==> (#[trigger] ps@[i].0@) == qs@[i].0@ && host_eq(
                ps@[i].1,
                qs@[i].1,
            )),
    }
}

/// Logical identity of source trees: equal except for the order in which
/// objects list their entries.
pub open spec fn tree_equiv(a: Tree, b: Tree) -> bool
    decreases a,
{
    match a {
        Tree::Null => b == Tree::Null,
        Tree::Bool(x) => b == Tree::Bool(x),
        Tree::Num(n) => b == Tree::Num(n),
        Tree::Text(s) => b matches Tree::Text(t) && s@ == t@,
        Tree::List(xs) => b matches Tree::List(ys) && xs@.len() == ys@.len() && (forall|i: int|
            0 <= i < xs@.len() ==> tree_equiv(#[trigger] xs@[i], ys@[i])),
        Tree::Object(ps) => b matches Tree::Object(qs) && (forall|i: int|
            0 <= i < ps@.len() ==> has_key(qs@, #[trigger] ps@[i].0@)) && (forall|j: int|
            0 <= j < qs@.len() ==> has_key(ps@, #[trigger] qs@[j].0@)) && (forall|i: int, j: int|
            0 <= i < ps@.len() && 0 <= j < qs@.len() && ps@[i].0@ == qs@[j].0@ ==> tree_equiv(
                #[trigger] ps@[i].1,
                #[trigger] qs@[j].1,
            )),
    }
}

/// Unfolds the conversion relation at a list.
pub proof fn lemma_converts_list_elim(xs: Vec<Tree>, h: HostValue)
    requires
        converts(Tree::List(xs), h),
    ensures
        h is List,
        xs@.len() == h->List_0@.len(),
        forall|i: int| 0 <= i < xs@.len() ==> converts(#[trigger] xs@[i], h->List_0@[i]),
{
    let v = Tree::List(xs);
    match v {
        Tree::List(zs) => {
            assert(zs == xs);
            assert(converts(v, h) == (h matches HostValue::List(ys) && zs@.len() == ys@.len() && (
            forall|i: int| 0 <= i < zs@.len() ==> converts(#[trigger] zs@[i], ys@[i]))));
        },
        _ => {},
    }
}

/// Unfolds the conversion relation at an object.
pub proof fn lemma_converts_object_elim(ps: Vec<(String, Tree)>, h: HostValue)
    requires
        converts(Tree::Object(ps), h),
    ensures
        h is Dict,
        dict_keys_sorted(h->Dict_0@),
        forall|j: int| 0 <= j < h->Dict_0@.len() ==> has_key(ps@, #[trigger] h->Dict_0@[j].0@),
        forall|i: int| 0 <= i < ps@.len() ==> dict_has_key(h->Dict_0@, #[trigger] ps@[i].0@),
        forall|i: int, j: int|
            0 <= i < ps@.len() && 0 <= j < h->Dict_0@.len() && ps@[i].0@ == h->Dict_0@[j].0@
                ==> converts(#[trigger] ps@[i].1, #[trigger] h->Dict_0@[j].1),
{
    let v = Tree::Object(ps);
    match v {
        Tree::Object(zs) => {
            assert(zs == ps);
            assert(converts(v, h) == ({
                &&& h matches HostValue::Dict(qs)
                &&& dict_keys_sorted(qs@)
                &&& forall|j: int| 0 <= j < qs@.len() ==> has_key(zs@, #[trigger] qs@[j].0@)
                &&& forall|i: int| 0 <= i < zs@.len() ==> dict_has_key(qs@, #[trigger] zs@[i].0@)
                &&& forall|i: int, j: int|
                    0 <= i < zs@.len() && 0 <= j < qs@.len() && zs@[i].0@ == qs@[j].0@
                        ==> converts(#[trigger] zs@[i].1, #[trigger] qs@[j].1)
            }));
        },
        _ => {},
    }
}

/// Two dictionaries with sorted keys and the same key set list their keys
/// identically.
pub proof fn lemma_sorted_same_keys(q1: Seq<(String, HostValue)>, q2: Seq<(String, HostValue)>)
    requires
        dict_keys_sorted(q1),
        dict_keys_sorted(q2),
        forall|j: int| 0 <= j < q1.len() ==> dict_has_key(q2, #[trigger] q1[j].0@),
        forall|j: int| 0 <= j < q2.len() ==> dict_has_key(q1, #[trigger] q2[j].0@),
    ensures
        q1.len() == q2.len(),
        forall|j: int| 0 <= j < q1.len() ==> (#[trigger] q1[j].0@) == q2[j].0@,
    decreases q1.len(),
{
    if q1.len() == 0 {
        if q2.len() > 0 {
            assert(dict_has_key(q1, q2[0].0@));
            assert(false);
        }
    } else {
        if q2.len() == 0 {
            assert(dict_has_key(q2, q1[0].0@));
            assert(false);
        }
        // the two head keys are equal
        if q1[0].0@ != q2[0].0@ {
            let j2 = choose|j2: int| 0 <= j2 < q2.len() && q2[j2].0@ == q1[0].0@;
            let i1 = choose|i1: int| 0 <= i1 < q1.len() && q1[i1].0@ == q2[0].0@;
            assert(j2 > 0);
            assert(lex_lt(q2[0].0@, q1[0].0@));
            assert(i1 > 0);
            assert(lex_lt(q1[0].0@, q2[0].0@));
            lemma_lex_lt_transitive(q1[0].0@, q2[0].0@, q1[0].0@);
            lemma_lex_lt_irreflexive(q1[0].0@);
            assert(false);
        }
        let t1 = q1.skip(1);
        let t2 = q2.skip(1);
        assert forall|j: int| 0 <= j < t1.len() implies dict_has_key(
            t2,
            #[trigger] t1[j].0@,
        ) by {
            assert(t1[j] == q1[j + 1]);
            let j2 = choose|j2: int| 0 <= j2 < q2.len() && q2[j2].0@ == q1[j + 1].0@;
            if j2 == 0 {
                assert(q1[0].0@ == q1[j + 1].0@);
                assert(lex_lt(q1[0].0@, q1[j + 1].0@));
                lemma_lex_lt_irreflexive(q1[0].0@);
                assert(false);
            }
            assert(t2[j2 - 1] == q2[j2]);
        }
        assert forall|j: int| 0 <= j < t2.len() implies dict_has_key(
            t1,
            #[trigger] t2[j].0@,
        ) by {
            assert(t2[j] == q2[j + 1]);
            let i1 = choose|i1: int| 0 <= i1 < q1.len() && q1[i1].0@ == q2[j + 1].0@;
            if i1 == 0 {
                assert(q2[0].0@ == q2[j + 1].0@);
                assert(lex_lt(q2[0].0@, q2[j + 1].0@));
                lemma_lex_lt_irreflexive(q2[0].0@);
                assert(false);
            }
            assert(t1[i1 - 1] == q1[i1]);
        }
        lemma_sorted_same_keys(t1, t2);
        assert forall|j: int| 0 <= j < q1.len() implies (#[trigger] q1[j].0@) == q2[j].0@ by {
            if j > 0 {
                assert(t1[j - 1] == q1[j] && t2[j - 1] == q2[j]);
            }
        }
    }
}

/// Determinism of the bridge: converting logically identical trees gives
/// equal host trees, whatever order their objects listed their entries.
pub proof fn lemma_bridge_deterministic(v1: Tree, v2: Tree, h1: HostValue, h2: HostValue)
    requires
        tree_equiv(v1, v2),
        converts(v1, h1),
        converts(v2, h2),
    ensures
        host_eq(h1, h2),
    decreases v1,
{
    match v1 {
        Tree::Null => {},
        Tree::Bool(_) => {},
        Tree::Num(_) => {},
        Tree::Text(_) => {},
        Tree::List(xs1) => {
            let xs2 = v2->List_0;
            lemma_converts_list_elim(xs1, h1);
            lemma_converts_list_elim(xs2, h2);
            let ys1 = h1->List_0;
            let ys2 = h2->List_0;
            assert forall|i: int| 0 <= i < ys1@.len() implies host_eq(
                #[trigger] ys1@[i],
                ys2@[i],
            ) by {
                assert(tree_equiv(xs1@[i], xs2@[i]));
                assert(converts(xs1@[i], ys1@[i]));
                assert(converts(xs2@[i], ys2@[i]));
                assert(decreases_to!(v1 => v1->List_0));
                assert(decreases_to!(xs1 => xs1@));
                assert(decreases_to!(xs1@ => xs1@[i]));
                lemma_bridge_deterministic(xs1@[i], xs2@[i], ys1@[i], ys2@[i]);
            }
            match h1 {
                HostValue::List(z1) => {
                    assert(host_eq(h1, h2) == (h2 matches HostValue::List(w2) && z1@.len()
                        == w2@.len() && (forall|i: int|
                        0 <= i < z1@.len() ==> host_eq(#[trigger] z1@[i], w2@[i]))));
                },
                _ => {},
            }
        },
        Tree::Object(ps1) => {
            let ps2 = v2->Object_0;
            lemma_converts_object_elim(ps1, h1);
            lemma_converts_object_elim(ps2, h2);
            let q1 = h1->Dict_0;
            let q2 = h2->Dict_0;
            // the two dictionaries carry the same key set
            assert forall|j: int| 0 <= j < q1@.len() implies dict_has_key(
                q2@,
                #[trigger] q1@[j].0@,
            ) by {
                let i1 = choose|i1: int| 0 <= i1 < ps1@.len() && ps1@[i1].0@ == q1@[j].0@;
                let i2 = choose|i2: int| 0 <= i2 < ps2@.len() && ps2@[i2].0@ == ps1@[i1].0@;
                assert(dict_has_key(q2@, ps2@[i2].0@));
            }
            assert forall|j: int| 0 <= j < q2@.len() implies dict_has_key(
                q1@,
                #[trigger] q2@[j].0@,
            ) by {
                let i2 = choose|i2: int| 0 <= i2 < ps2@.len() && ps2@[i2].0@ == q2@[j].0@;
                let i1 = choose|i1: int| 0 <= i1 < ps1@.len() && ps1@[i1].0@ == ps2@[i2].0@;
                assert(dict_has_key(q1@, ps1@[i1].0@));
            }
            lemma_sorted_same_keys(q1@, q2@);
            // entry by entry, the values convert from equivalent trees
            assert forall|j: int| 0 <= j < q1@.len() implies (#[trigger] q1@[j].0@) == q2@[j].0@
                && host_eq(q1@[j].1, q2@[j].1) by {
                let i1 = choose|i1: int| 0 <= i1 < ps1@.len() && ps1@[i1].0@ == q1@[j].0@;
                let i2 = choose|i2: int| 0 <= i2 < ps2@.len() && ps2@[i2].0@ == ps1@[i1].0@;
                assert(converts(ps1@[i1].1, q1@[j].1));
                assert(ps2@[i2].0@ == q2@[j].0@);
                assert(converts(ps2@[i2].1, q2@[j].1));
                assert(tree_equiv(ps1@[i1].1, ps2@[i2].1));
                assert(decreases_to!(v1 => v1->Object_0));
                assert(decreases_to!(ps1 => ps1@));
                assert(decreases_to!(ps1@ => ps1@[i1]));
                assert(decreases_to!(ps1@[i1] => ps1@[i1].1));
                lemma_bridge_deterministic(ps1@[i1].1, ps2@[i2].1, q1@[j].1, q2@[j].1);
            }
            match h1 {
                HostValue::Dict(z1) => {
                    assert(host_eq(h1, h2) == (h2 matches HostValue::Dict(w2) && z1@.len()
                        == w2@.len() && (forall|i: int|
                        0 <= i < z1@.len() ==> (#[trigger] z1@[i].0@) == w2@[i].0@ && host_eq(
                            z1@[i].1,
                            w2@[i].1,
                        ))));
                },
                _ => {},
            }
        },
    }
}

/// A well-formed tree is logically identical to itself.
pub proof fn lemma_tree_equiv_refl(v: Tree)
    requires
        tree_wf(v),
    ensures
        tree_equiv(v, v),
    decreases v,
{
    match v {
        Tree::List(xs) => {
            assert forall|i: int| 0 <= i < xs@.len() implies tree_equiv(
                #[trigger] xs@[i],
                xs@[i],
            ) by {
                crate::value::lemma_list_entry_wf(xs, i);
                assert(decreases_to!(v => v->List_0));
                assert(decreases_to!(xs => xs@));
                assert(decreases_to!(xs@ => xs@[i]));
                lemma_tree_equiv_refl(xs@[i]);
            }
            match v {
                Tree::List(zs) => {
                    assert(tree_equiv(v, v) == (zs@.len() == zs@.len() && (forall|i: int|
                        0 <= i < zs@.len() ==> tree_equiv(#[trigger] zs@[i], zs@[i]))));
                },
                _ => {},
            }
        },
        Tree::Object(ps) => {
            assert forall|i: int, j: int|
                0 <= i < ps@.len() && 0 <= j < ps@.len() && ps@[i].0@ == ps@[j].0@
                    implies tree_equiv(#[trigger] ps@[i].1, #[trigger] ps@[j].1) by {
                crate::value::lemma_object_entry_wf(ps, i);
                if i != j {
                    assert(false);
                }
                assert(decreases_to!(v => v->Object_0));
                assert(decreases_to!(ps => ps@));
                assert(decreases_to!(ps@ => ps@[i]));
                assert(decreases_to!(ps@[i] => ps@[i].1));
                lemma_tree_equiv_refl(ps@[i].1);
            }
            assert forall|i: int| 0 <= i < ps@.len() implies has_key(
                ps@,
                #[trigger] ps@[i].0@,
            ) by {}
            match v {
                Tree::Object(zs) => {
                    assert(tree_equiv(v, v) == ((forall|i: int|
                        0 <= i < zs@.len() ==> has_key(zs@, #[trigger] zs@[i].0@)) && (forall|
                        j: int,
                    | 0 <= j < zs@.len() ==> has_key(zs@, #[trigger] zs@[j].0@)) && (forall|
                        i: int,
                        j: int,
                    |
                        0 <= i < zs@.len() && 0 <= j < zs@.len() && zs@[i].0@ == zs@[j].0@
                            ==> tree_equiv(#[trigger] zs@[i].1, #[trigger] zs@[j].1))));
                },
                _ => {},
            }
        },
        _ => {},
    }
}

/// Determinism on one tree: two conversions of the same well-formed tree
/// agree.
pub proof fn lemma_convert_deterministic(v: Tree, h1: HostValue, h2: HostValue)
    requires
        tree_wf(v),
        converts(v, h1),
        converts(v, h2),
    ensures
        host_eq(h1, h2),
{
    lemma_tree_equiv_refl(v);
    lemma_bridge_deterministic(v, v, h1, h2);
}

/// Numeric fidelity: a number representable in the unsigned 64-bit range
/// converts to the unsigned host integer, one representable only in the
/// signed range to the signed host integer, any other finite number to the
/// host float with the same bit pattern; no width or precision is changed
/// anywhere, and only a malformed number falls back to the host null.
pub proof fn lemma_numeric_fidelity(n: NumKind, h: HostValue)
    requires
        converts(Tree::Num(n), h),
    ensures
        n matches NumKind::Unsigned(u) ==> h == HostValue::UInt(u),
        n matches NumKind::Signed(i) ==> h == HostValue::Int(i),
        n matches NumKind::FloatBits(b) ==> h == HostValue::FloatBits(b),
        n matches NumKind::Malformed ==> h == HostValue::Null,
{
    let v = Tree::Num(n);
    match v {
        Tree::Num(m) => {
            assert(converts(v, h) == num_converts(m, h));
        },
        _ => {},
    }
}

/// Equal host trees serialize to the same canonical text.
pub proof fn lemma_canon_respects_host_eq(a: HostValue, b: HostValue)
    requires
        host_eq(a, b),
    ensures
        canon(a) == canon(b),
    decreases a, 0nat,
{
    match a {
        HostValue::List(xs) => {
            let ys = b->List_0;
            assert(decreases_to!(a => a->List_0));
            assert(decreases_to!(xs => xs@));
            lemma_canon_items_eq(xs@, ys@);
        },
        HostValue::Dict(ps) => {
            let qs = b->Dict_0;
            assert(decreases_to!(a => a->Dict_0));
            assert(decreases_to!(ps => ps@));
            lemma_canon_entries_eq(ps@, qs@);
        },
        _ => {},
    }
}

/// Pointwise equal lists serialize their members to the same text.
pub proof fn lemma_canon_items_eq(xs: Seq<HostValue>, ys: Seq<HostValue>)
    requires
        xs.len() == ys.len(),
        forall|i: int| 0 <= i < xs.len() ==> host_eq(#[trigger] xs[i], ys[i]),
    ensures
        canon_items(xs) == canon_items(ys),
    decreases xs, 1nat,
{
    if xs.len() > 0 {
        assert(decreases_to!(xs => xs[0]));
        lemma_canon_respects_host_eq(xs[0], ys[0]);
        if xs.len() > 1 {
            assert(decreases_to!(xs => xs.subrange(1, xs.len() as int)));
            assert forall|i: int| 0 <= i < xs.skip(1).len() implies host_eq(
                #[trigger] xs.skip(1)[i],
                ys.skip(1)[i],
            ) by {
                assert(xs.skip(1)[i] == xs[i + 1] && ys.skip(1)[i] == ys[i + 1]);
            }
            lemma_canon_items_eq(xs.skip(1), ys.skip(1));
        }
    }
}

/// Pointwise equal dictionaries serialize their entries to the same text.
pub proof fn lemma_canon_entries_eq(ps: Seq<(String, HostValue)>, qs: Seq<(String, HostValue)>)
    requires
        ps.len() == qs.len(),
        forall|i: int|
            0 <= i < ps.len() ==> (#[trigger] ps[i]).0@ == qs[i].0@ && host_eq(ps[i].1, qs[i].1),
    ensures
        canon_entries(ps) == canon_entries(qs),
    decreases ps, 1nat,
{
    if ps.len() > 0 {
        assert(decreases_to!(ps => ps[0]));
        assert(decreases_to!(ps[0] => ps[0].1));
        assert(ps[0].0@ == qs[0].0@ && host_eq(ps[0].1, qs[0].1));
        lemma_canon_respects_host_eq(ps[0].1, qs[0].1);
        assert(canon_entry(ps[0]) == canon_entry(qs[0]));
        if ps.len() > 1 {
            assert(decreases_to!(ps => ps.subrange(1, ps.len() as int)));
            assert forall|i: int| 0 <= i < ps.skip(1).len() implies (#[trigger] ps.skip(1)[i]).0@
                == qs.skip(1)[i].0@ && host_eq(ps.skip(1)[i].1, qs.skip(1)[i].1) by {
                assert(ps.skip(1)[i] == ps[i + 1] && qs.skip(1)[i] == qs[i + 1]);
            }
            lemma_canon_entries_eq(ps.skip(1), qs.skip(1));
        }
    }
}

/// Two conversions of one well-formed tree — for example two pipeline runs
/// over the same buffer, whose results both convert the same named tree —
/// yield host trees with identical canonical text.
pub proof fn lemma_same_tree_same_text(t: Tree, h1: HostValue, h2: HostValue)
    requires
        tree_wf(t),
        converts(t, h1),
        converts(t, h2),
    ensures
        host_eq(h1, h2),
        canon(h1) == canon(h2),
{
    lemma_convert_deterministic(t, h1, h2);
    lemma_canon_respects_host_eq(h1, h2);
}

/// Deterministic serialization: converting two logically identical trees —
/// the same values with object entries listed in any orders — yields host
/// trees with identical canonical text.
pub proof fn lemma_deterministic_serialization(v1: Tree, v2: Tree, h1: HostValue, h2: HostValue)
    requires
        tree_equiv(v1, v2),
        converts(v1, h1),
        converts(v2, h2),
    ensures
        canon(h1) == canon(h2),
{
    lemma_bridge_deterministic(v1, v2, h1, h2);
    lemma_canon_respects_host_eq(h1, h2);
}

} // verus!
