use vstd::prelude::*;

use vstd::relations::injective_on;
use vstd::set_lib::{lemma_map_size, lemma_subset_equality};

use crate::model::{
    attrs_match, comparable, elem_check, first_match, fresh_used, included, is_ignored_name,
    lemma_comparable_push, lemma_visible_attrs_push, ordered_check, pair_check, pair_matches,
    unordered_check, visible_attrs,
};
use crate::node::{comment_free, parsed_shape, NodeV};
use crate::options::OptsV;

verus! {

/// The condition under which a node compares equal to itself: it holds only
/// element, text and comment nodes (a pair of any other kind never compares
/// equal, and a `<template>` element's contents sit below a fragment node),
/// and when siblings are matched greedily while comments are compared, it
/// holds no comment (two comments never match in unordered mode unless
/// comments are ignored).
pub open spec fn self_comparable(n: NodeV, o: OptsV) -> bool {
    parsed_shape(n) && (o.ignore_sibling_order && !o.ignore_comments ==> comment_free(n))
}

proof fn lemma_pair_refl(x: NodeV, pos: int, o: OptsV)
    requires
        self_comparable(x, o),
    ensures
        pair_check(x, x, pos, o) is Ok,
    decreases x, 3int, 0int, 0int,
{
    if x is Element {
        lemma_elem_refl(x, o);
    }
}

proof fn lemma_pair_matches_refl(x: NodeV, o: OptsV)
    requires
        self_comparable(x, o),
        o.ignore_sibling_order,
        included(x, o),
    ensures
        pair_matches(x, x, o),
    decreases x, 3int, 0int, 0int,
{
    if x is Element {
        lemma_elem_refl(x, o);
    }
}

proof fn lemma_ordered_refl(cs: Seq<NodeV>, i: int, j: int, pos: int, o: OptsV)
    requires
        0 <= j <= i,
        forall|m: int| 0 <= m < cs.len() ==> self_comparable(#[trigger] cs[m], o),
        forall|m: int| j <= m < i ==> !included(#[trigger] cs[m], o),
    ensures
        ordered_check(cs, cs, i, j, pos, o) is Ok,
    decreases cs, 1int, 2 * cs.len() - i - j, 0int,
{
    if i >= cs.len() || j >= cs.len() {
    } else if !included(cs[i], o) {
        lemma_ordered_refl(cs, i + 1, j, pos, o);
    } else if j < i {
        lemma_ordered_refl(cs, i, j + 1, pos, o);
    } else {
        lemma_pair_refl(cs[i], pos, o);
        lemma_ordered_refl(cs, i + 1, j + 1, pos + 1, o);
    }
}

proof fn lemma_first_match_refl(cs: Seq<NodeV>, used: Seq<bool>, j: int, k: int, o: OptsV)
    requires
        0 <= j <= k < cs.len(),
        used.len() == cs.len(),
        o.ignore_sibling_order,
        forall|m: int| 0 <= m < cs.len() ==> self_comparable(#[trigger] cs[m], o),
        forall|m: int| #![trigger used[m]] 0 <= m < k ==> (used[m] <==> included(cs[m], o)),
        !used[k],
        included(cs[k], o),
    ensures
        first_match(cs[k], cs, used, j, o) == Some(k),
    decreases cs[k], 4int, cs.len() - j, 0int,
{
    if j == k {
        lemma_pair_matches_refl(cs[k], o);
    } else {
        lemma_first_match_refl(cs, used, j + 1, k, o);
    }
}

proof fn lemma_unordered_refl(cs: Seq<NodeV>, k: int, used: Seq<bool>, o: OptsV)
    requires
        0 <= k,
        used.len() == cs.len(),
        o.ignore_sibling_order,
        forall|m: int| 0 <= m < cs.len() ==> self_comparable(#[trigger] cs[m], o),
        forall|m: int| #![trigger used[m]] 0 <= m < used.len() ==> (used[m] <==> (m < k
            && included(cs[m], o))),
    ensures
        unordered_check(cs, cs, k, used, o) is Ok,
    decreases cs, 1int, cs.len() - k, 0int,
{
    if k >= cs.len() {
    } else if !included(cs[k], o) {
        assert forall|m: int| #![trigger used[m]] 0 <= m < used.len() implies (used[m] <==> (m < k
            + 1 && included(cs[m], o))) by {
            assert(used[m] <==> (m < k && included(cs[m], o)));
        }
        lemma_unordered_refl(cs, k + 1, used, o);
    } else {
        lemma_first_match_refl(cs, used, 0, k, o);
        let next = used.update(k, true);
        assert forall|m: int| #![trigger next[m]] 0 <= m < next.len() implies (next[m] <==> (m < k
            + 1 && included(cs[m], o))) by {
            assert(used[m] <==> (m < k && included(cs[m], o)));
            if m != k {
                assert(next[m] == used[m]);
            } else {
                assert(next[m]);
            }
        }
        lemma_unordered_refl(cs, k + 1, next, o);
    }
}

proof fn lemma_elem_refl(t: NodeV, o: OptsV)
    requires
        self_comparable(t, o),
    ensures
        elem_check(t, t, o) is Ok,
    decreases t, 2int, 0int, 0int,
{
    if t is Element {
        let cs = t->children;
        assert(forall|m: int| 0 <= m < cs.len() ==> parsed_shape(#[trigger] cs[m]));
        assert(forall|m: int|
            0 <= m < cs.len() && (o.ignore_sibling_order && !o.ignore_comments) ==> comment_free(
                #[trigger] cs[m],
            ));
        if o.ignore_sibling_order {
            let used0 = crate::model::fresh_used(cs.len());
            lemma_unordered_refl(cs, 0, used0, o);
        } else {
            lemma_ordered_refl(cs, 0, 0, 0, o);
        }
    }
}

/// Reflexivity: comparing a parsed tree with itself succeeds, under any
/// options that can compare the tree with itself at all. The one family of
/// inputs left out is documented by `self_comparable`: when sibling order is
/// ignored but comments are not, a tree holding a comment never matches
/// itself, because two comments only match in unordered mode when comments
/// are ignored.
pub proof fn lemma_compare_reflexive(t: NodeV, o: OptsV)
    requires
        self_comparable(t, o),
    ensures
        elem_check(t, t, o) is Ok,
{
    lemma_elem_refl(t, o);
}

proof fn lemma_pair_sym(x: NodeV, y: NodeV, pos: int, o: OptsV)
    requires
        !o.ignore_sibling_order,
    ensures
        (pair_check(x, y, pos, o) is Ok) <==> (pair_check(y, x, pos, o) is Ok),
    decreases x, 3int, 0int, 0int,
{
    if x is Element && y is Element {
        lemma_elem_sym(x, y, o);
    }
}

proof fn lemma_ordered_sym(es: Seq<NodeV>, bs: Seq<NodeV>, i: int, j: int, pos: int, o: OptsV)
    requires
        !o.ignore_sibling_order,
    ensures
        (ordered_check(es, bs, i, j, pos, o) is Ok) <==> (ordered_check(bs, es, j, i, pos, o)
            is Ok),
    decreases es, 1int, es.len() - i + bs.len() - j, 0int,
{
    if i < 0 || j < 0 || i >= es.len() || j >= bs.len() {
    } else if !included(es[i], o) && !included(bs[j], o) {
        lemma_ordered_sym(es, bs, i + 1, j, pos, o);
        lemma_ordered_sym(es, bs, i + 1, j + 1, pos, o);
        lemma_ordered_sym(es, bs, i, j + 1, pos, o);
    } else if !included(es[i], o) {
        lemma_ordered_sym(es, bs, i + 1, j, pos, o);
    } else if !included(bs[j], o) {
        lemma_ordered_sym(es, bs, i, j + 1, pos, o);
    } else {
        lemma_pair_sym(es[i], bs[j], pos, o);
        lemma_ordered_sym(es, bs, i + 1, j + 1, pos + 1, o);
    }
}

proof fn lemma_elem_sym(a: NodeV, b: NodeV, o: OptsV)
    requires
        !o.ignore_sibling_order,
    ensures
        (elem_check(a, b, o) is Ok) <==> (elem_check(b, a, o) is Ok),
    decreases a, 2int, 0int, 0int,
{
    if a is Element && b is Element {
        if a->tag == b->tag {
            lemma_ordered_sym(a->children, b->children, 0, 0, 0, o);
        }
    }
}

/// The verdict is symmetric: exchanging the two inputs never changes
/// whether the comparison succeeds, only which side the report calls
/// expected. In unordered mode this holds because a successful greedy
/// matching can be inverted: matching is symmetric and chains across
/// shared partners.
pub proof fn lemma_verdict_symmetric(a: NodeV, b: NodeV, o: OptsV)
    ensures
        (elem_check(a, b, o) is Ok) <==> (elem_check(b, a, o) is Ok),
{
    if o.ignore_sibling_order {
        lemma_elem_sym_unordered(a, b, o);
    } else {
        lemma_elem_sym(a, b, o);
    }
}

proof fn lemma_visible_members(s: Seq<(Seq<char>, Seq<char>)>, ig: Seq<Seq<char>>)
    ensures
        forall|x: (Seq<char>, Seq<char>)| #[trigger] visible_attrs(s, ig).contains(x) <==> (
        s.contains(x) && !is_ignored_name(ig, x.0)),
    decreases s.len(),
{
    if s.len() == 0 {
        assert(s =~= Seq::<(Seq<char>, Seq<char>)>::empty());
        reveal_with_fuel(Seq::filter, 2);
        assert(visible_attrs(s, ig).len() == 0);
    } else {
        let prefix = s.drop_last();
        let x = s.last();
        lemma_visible_members(prefix, ig);
        assert(prefix.push(x) =~= s);
        lemma_visible_attrs_push(prefix, ig, x);
        assert forall|y: (Seq<char>, Seq<char>)| #[trigger] visible_attrs(s, ig).contains(y)
            implies (s.contains(y) && !is_ignored_name(ig, y.0)) by {
            if !is_ignored_name(ig, x.0) && y == x {
                assert(s[s.len() - 1] == x);
            } else {
                assert(visible_attrs(prefix, ig).contains(y) ==> prefix.contains(y));
                if prefix.contains(y) {
                    let i = choose|i: int| 0 <= i < prefix.len() && prefix[i] == y;
                    assert(s[i] == y);
                }
            }
        }
        assert forall|y: (Seq<char>, Seq<char>)| s.contains(y) && !is_ignored_name(ig, y.0)
            implies #[trigger] visible_attrs(s, ig).contains(y) by {
            let i = choose|i: int| 0 <= i < s.len() && s[i] == y;
            if i < s.len() - 1 {
                assert(prefix[i] == y);
                assert(visible_attrs(prefix, ig).contains(y));
                let j = choose|j: int|
                    0 <= j < visible_attrs(prefix, ig).len() && visible_attrs(prefix, ig)[j] == y;
                assert(visible_attrs(s, ig)[j] == y);
            } else {
                assert(y == x);
                assert(visible_attrs(s, ig).last() == y);
            }
        }
    }
}

/// Attribute order independence: two elements that carry the same set of
/// attribute pairs — in any order, with any duplication — and are otherwise
/// identical receive the same verdict against any node.
pub proof fn lemma_attribute_order_irrelevant(a1: NodeV, a2: NodeV, b: NodeV, o: OptsV)
    requires
        a1 is Element,
        a2 is Element,
        a1->tag == a2->tag,
        a1->children == a2->children,
        a1->attrs.to_set() == a2->attrs.to_set(),
    ensures
        (elem_check(a1, b, o) is Ok) <==> (elem_check(a2, b, o) is Ok),
{
    let ig = o.ignored_attributes;
    lemma_visible_members(a1->attrs, ig);
    lemma_visible_members(a2->attrs, ig);
    assert forall|x: (Seq<char>, Seq<char>)|
        #[trigger] visible_attrs(a1->attrs, ig).contains(x) <==> visible_attrs(
            a2->attrs,
            ig,
        ).contains(x) by {
        assert(a1->attrs.to_set().contains(x) == a1->attrs.contains(x));
        assert(a2->attrs.to_set().contains(x) == a2->attrs.contains(x));
    }
    assert(visible_attrs(a1->attrs, ig).to_set() =~= visible_attrs(a2->attrs, ig).to_set());
}

/// The number of nodes in a tree, used as a termination measure.
spec fn size(n: NodeV) -> int
    decreases n, 0int,
{
    match n {
        NodeV::Element { children, .. } => 1 + size_from(children, 0),
        _ => 1,
    }
}

/// The number of nodes in the trees of `s` from index `i` on.
spec fn size_from(s: Seq<NodeV>, i: int) -> int
    decreases s, s.len() - i,
{
    if i < 0 || i >= s.len() {
        0
    } else {
        size(s[i]) + size_from(s, i + 1)
    }
}

proof fn lemma_size_pos(n: NodeV)
    ensures
        size(n) >= 1,
    decreases n, 0int,
{
    if n is Element {
        lemma_size_from_nonneg(n->children, 0);
    }
}

proof fn lemma_size_from_nonneg(s: Seq<NodeV>, i: int)
    ensures
        size_from(s, i) >= 0,
    decreases s, s.len() - i,
{
    if 0 <= i < s.len() {
        lemma_size_pos(s[i]);
        lemma_size_from_nonneg(s, i + 1);
    }
}

proof fn lemma_size_from_elem(s: Seq<NodeV>, j: int, i: int)
    requires
        0 <= j <= i < s.len(),
    ensures
        size(s[i]) <= size_from(s, j),
    decreases i - j,
{
    lemma_size_from_nonneg(s, j);
    if j == i {
        lemma_size_from_nonneg(s, j + 1);
    } else {
        lemma_size_pos(s[j]);
        lemma_size_from_elem(s, j + 1, i);
    }
}

proof fn lemma_size_from_two(s: Seq<NodeV>, i1: int, i2: int)
    requires
        0 <= i1 < i2 < s.len(),
    ensures
        size(s[i1]) + size(s[i2]) <= size_from(s, 0),
    decreases i1,
{
    if i1 == 0 {
        lemma_size_from_elem(s, 1, i2);
    } else {
        lemma_size_from_two(s.drop_first(), i1 - 1, i2 - 1);
        assert(s.drop_first()[i1 - 1] == s[i1]);
        assert(s.drop_first()[i2 - 1] == s[i2]);
        lemma_size_from_shift(s, 1);
        lemma_size_pos(s[0]);
    }
}

/// `size_from(s, i)` of a shifted sequence.
proof fn lemma_size_from_shift(s: Seq<NodeV>, j: int)
    requires
        0 <= j <= s.len(),
    ensures
        size_from(s.drop_first(), j - 1) == size_from(s, j) || j == 0,
    decreases s.len() - j,
{
    if j == 0 {
    } else if j >= s.len() {
        assert(size_from(s.drop_first(), j - 1) == 0);
    } else {
        assert(s.drop_first()[j - 1] == s[j]);
        lemma_size_from_shift(s, j + 1);
    }
}

/// A way of pairing the comparable nodes of `es` from index `k` on with
/// distinct, comparable, not yet matched nodes of `bs` that match them.
spec fn is_matching(
    es: Seq<NodeV>,
    bs: Seq<NodeV>,
    k: int,
    used: Seq<bool>,
    pi: Seq<int>,
    o: OptsV,
) -> bool {
    &&& pi.len() == es.len()
    &&& used.len() == bs.len()
    &&& (forall|i: int| #![trigger pi[i]]
        k <= i < es.len() && included(es[i], o) ==> 0 <= pi[i] < bs.len() && included(
            bs[pi[i]],
            o,
        ) && !used[pi[i]] && pair_matches(es[i], bs[pi[i]], o))
    &&& (forall|i1: int, i2: int| #![trigger pi[i1], pi[i2]]
        k <= i1 < i2 < es.len() && included(es[i1], o) && included(es[i2], o) ==> pi[i1]
            != pi[i2])
}

proof fn lemma_first_match_sound(e: NodeV, bs: Seq<NodeV>, used: Seq<bool>, j: int, o: OptsV)
    requires
        first_match(e, bs, used, j, o) is Some,
    ensures
        ({
            let w = first_match(e, bs, used, j, o)->Some_0;
            &&& j <= w < bs.len()
            &&& included(bs[w], o)
            &&& !used[w]
            &&& pair_matches(e, bs[w], o)
        }),
    decreases bs.len() - j,
{
    if j < 0 || j >= bs.len() {
    } else if included(bs[j], o) && !used[j] && pair_matches(e, bs[j], o) {
    } else {
        lemma_first_match_sound(e, bs, used, j + 1, o);
    }
}

proof fn lemma_first_match_complete(
    e: NodeV,
    bs: Seq<NodeV>,
    used: Seq<bool>,
    j: int,
    w: int,
    o: OptsV,
)
    requires
        0 <= j <= w < bs.len(),
        included(bs[w], o),
        !used[w],
        pair_matches(e, bs[w], o),
    ensures
        first_match(e, bs, used, j, o) is Some,
    decreases w - j,
{
    if j == w {
    } else if included(bs[j], o) && !used[j] && pair_matches(e, bs[j], o) {
    } else {
        lemma_first_match_complete(e, bs, used, j + 1, w, o);
    }
}

/// A successful greedy run yields a matching.
proof fn lemma_greedy_extract(
    es: Seq<NodeV>,
    bs: Seq<NodeV>,
    k: int,
    used: Seq<bool>,
    o: OptsV,
) -> (pi: Seq<int>)
    requires
        0 <= k,
        used.len() == bs.len(),
        unordered_check(es, bs, k, used, o) is Ok,
    ensures
        is_matching(es, bs, k, used, pi, o),
    decreases es.len() - k,
{
    if k >= es.len() {
        Seq::new(es.len(), |i: int| 0)
    } else if !included(es[k], o) {
        lemma_greedy_extract(es, bs, k + 1, used, o)
    } else {
        let fm = first_match(es[k], bs, used, 0, o);
        assert(fm is Some);
        let j = fm->Some_0;
        lemma_first_match_sound(es[k], bs, used, 0, o);
        let next = used.update(j, true);
        let pi1 = lemma_greedy_extract(es, bs, k + 1, next, o);
        let pi = pi1.update(k, j);
        assert forall|i: int| #![trigger pi[i]]
            k <= i < es.len() && included(es[i], o) implies 0 <= pi[i] < bs.len() && included(
            bs[pi[i]],
            o,
        ) && !used[pi[i]] && pair_matches(es[i], bs[pi[i]], o) by {
            if i != k {
                assert(pi[i] == pi1[i]);
                assert(!next[pi1[i]]);
            }
        }
        assert forall|i1: int, i2: int| #![trigger pi[i1], pi[i2]]
            k <= i1 < i2 < es.len() && included(es[i1], o) && included(es[i2], o) implies pi[i1]
            != pi[i2] by {
            if i1 == k {
                assert(pi[i2] == pi1[i2]);
                assert(!next[pi1[i2]]);
                assert(next[j]);
            } else {
                assert(pi[i1] == pi1[i1] && pi[i2] == pi1[i2]);
            }
        }
        pi
    }
}

/// The set of indices of comparable nodes.
spec fn included_indices(s: Seq<NodeV>, o: OptsV) -> Set<int> {
    Set::new(|i: int| 0 <= i < s.len() && included(s[i], o))
}

proof fn lemma_included_indices_count(s: Seq<NodeV>, o: OptsV)
    ensures
        included_indices(s, o).finite(),
        included_indices(s, o).len() == comparable(s, o).len(),
    decreases s.len(),
{
    if s.len() == 0 {
        assert(included_indices(s, o) =~= Set::<int>::empty());
        assert(s =~= Seq::<NodeV>::empty());
        reveal_with_fuel(Seq::filter, 2);
        assert(comparable(s, o).len() == 0);
    } else {
        let prefix = s.drop_last();
        lemma_included_indices_count(prefix, o);
        assert(prefix.push(s.last()) =~= s);
        lemma_comparable_push(prefix, o, s.last());
        if included(s.last(), o) {
            assert(included_indices(s, o) =~= included_indices(prefix, o).insert(s.len() - 1));
            assert(!included_indices(prefix, o).contains(s.len() - 1));
        } else {
            assert(included_indices(s, o) =~= included_indices(prefix, o));
        }
    }
}

/// Matching in unordered mode is symmetric.
proof fn lemma_matches_sym(x: NodeV, y: NodeV, o: OptsV)
    ensures
        pair_matches(x, y, o) == pair_matches(y, x, o),
    decreases size(x) + size(y), 1int, 0int,
{
    if x is Element && y is Element {
        if o.ignore_sibling_order {
            lemma_size_pos(x);
            lemma_size_pos(y);
            lemma_elem_sym_unordered(x, y, o);
        } else {
            lemma_elem_sym(x, y, o);
        }
    }
}

/// Matching in unordered mode chains: a node that matches some `y` also
/// matches everything that any other partner of `y` matches.
proof fn lemma_matches_chain(x1: NodeV, y: NodeV, x2: NodeV, z: NodeV, o: OptsV)
    requires
        o.ignore_sibling_order,
        pair_matches(x1, y, o),
        pair_matches(x2, y, o),
        pair_matches(x2, z, o),
    ensures
        pair_matches(x1, z, o),
    decreases size(x1) + size(y) + size(x2) + size(z), 1int, 0int,
{
    if x1 is Element {
        assert(y is Element && x2 is Element && z is Element);
        lemma_elem_chain_unordered(x1, y, x2, z, o);
    }
}

/// Verdict symmetry for elements in unordered mode.
proof fn lemma_elem_sym_unordered(a: NodeV, b: NodeV, o: OptsV)
    requires
        o.ignore_sibling_order,
    ensures
        (elem_check(a, b, o) is Ok) <==> (elem_check(b, a, o) is Ok),
    decreases size(a) + size(b), 0int, 0int,
{
    if a is Element && b is Element && a->tag == b->tag && (o.ignore_attributes || attrs_match(
        a->attrs,
        b->attrs,
        o.ignored_attributes,
    )) && comparable(a->children, o).len() == comparable(b->children, o).len() {
        let ca = a->children;
        let cb = b->children;
        assert(size(a) == 1 + size_from(ca, 0));
        assert(size(b) == 1 + size_from(cb, 0));
        lemma_size_from_nonneg(ca, 0);
        lemma_size_from_nonneg(cb, 0);
        if unordered_check(ca, cb, 0, fresh_used(cb.len()), o) is Ok {
            lemma_greedy_sym_dir(ca, cb, o);
        }
        if unordered_check(cb, ca, 0, fresh_used(ca.len()), o) is Ok {
            lemma_greedy_sym_dir(cb, ca, o);
        }
    }
}

/// Verdict chaining for elements in unordered mode.
proof fn lemma_elem_chain_unordered(x1: NodeV, y: NodeV, x2: NodeV, z: NodeV, o: OptsV)
    requires
        o.ignore_sibling_order,
        x1 is Element,
        y is Element,
        x2 is Element,
        z is Element,
        elem_check(x1, y, o) is Ok,
        elem_check(x2, y, o) is Ok,
        elem_check(x2, z, o) is Ok,
    ensures
        elem_check(x1, z, o) is Ok,
    decreases size(x1) + size(y) + size(x2) + size(z), 0int, 0int,
{
    let c1 = x1->children;
    let cy = y->children;
    let c2 = x2->children;
    let cz = z->children;
    assert(size(x1) == 1 + size_from(c1, 0));
    assert(size(y) == 1 + size_from(cy, 0));
    assert(size(x2) == 1 + size_from(c2, 0));
    assert(size(z) == 1 + size_from(cz, 0));
    lemma_size_from_nonneg(c1, 0);
    lemma_size_from_nonneg(cy, 0);
    lemma_size_from_nonneg(c2, 0);
    lemma_size_from_nonneg(cz, 0);
    let pia = lemma_greedy_extract(c1, cy, 0, fresh_used(cy.len()), o);
    let pib = lemma_greedy_extract(c2, cy, 0, fresh_used(cy.len()), o);
    let rho = lemma_matching_invert(c2, cy, pib, o);
    let pic = lemma_greedy_extract(c2, cz, 0, fresh_used(cz.len()), o);
    let sigma = lemma_matching_compose(c1, cy, c2, cz, pia, rho, pic, o);
    lemma_matching_rebuild(c1, cz, 0, fresh_used(cz.len()), sigma, o);
}

/// One direction of greedy symmetry: a successful greedy run in one
/// direction, with equal comparable counts, gives one in the other.
proof fn lemma_greedy_sym_dir(es: Seq<NodeV>, bs: Seq<NodeV>, o: OptsV)
    requires
        o.ignore_sibling_order,
        comparable(es, o).len() == comparable(bs, o).len(),
        unordered_check(es, bs, 0, fresh_used(bs.len()), o) is Ok,
    ensures
        unordered_check(bs, es, 0, fresh_used(es.len()), o) is Ok,
    decreases size_from(es, 0) + size_from(bs, 0), 3int, 0int,
{
    let pi = lemma_greedy_extract(es, bs, 0, fresh_used(bs.len()), o);
    let rho = lemma_matching_invert(es, bs, pi, o);
    lemma_matching_rebuild(bs, es, 0, fresh_used(es.len()), rho, o);
}

/// A matching of all comparable nodes of `es` into `bs`, with equal
/// comparable counts, can be turned around.
proof fn lemma_matching_invert(es: Seq<NodeV>, bs: Seq<NodeV>, pi: Seq<int>, o: OptsV) -> (rho:
    Seq<int>)
    requires
        o.ignore_sibling_order,
        is_matching(es, bs, 0, fresh_used(bs.len()), pi, o),
        comparable(es, o).len() == comparable(bs, o).len(),
    ensures
        is_matching(bs, es, 0, fresh_used(es.len()), rho, o),
    decreases size_from(es, 0) + size_from(bs, 0), 2int, 0int,
{
    let ii = included_indices(es, o);
    let jj = included_indices(bs, o);
    lemma_included_indices_count(es, o);
    lemma_included_indices_count(bs, o);
    let f = |i: int| pi[i];
    let img = ii.map(f);
    assert(injective_on(f, ii)) by {
        assert forall|i1: int, i2: int|
            #![trigger ii.contains(i1), ii.contains(i2)]
            ii.contains(i1) && ii.contains(i2) && f(i1) == f(i2) implies i1 == i2 by {
            if i1 < i2 {
                assert(pi[i1] != pi[i2]);
            } else if i2 < i1 {
                assert(pi[i2] != pi[i1]);
            }
        }
    }
    lemma_map_size(ii, img, f);
    assert(img.subset_of(jj)) by {
        assert forall|x: int| img.contains(x) implies jj.contains(x) by {
            let i = choose|i: int| ii.contains(i) && #[trigger] f(i) == x;
            assert(0 <= pi[i] < bs.len() && included(bs[pi[i]], o));
        }
    }
    lemma_subset_equality(img, jj);
    let rho = Seq::new(
        bs.len(),
        |j: int|
            choose|i: int| 0 <= i < es.len() && included(es[i], o) && #[trigger] pi[i] == j,
    );
    assert forall|j: int| #![trigger rho[j]]
        0 <= j < bs.len() && included(bs[j], o) implies 0 <= rho[j] < es.len() && included(
        es[rho[j]],
        o,
    ) && !fresh_used(es.len())[rho[j]] && pair_matches(bs[j], es[rho[j]], o) && pi[rho[j]]
        == j by {
        assert(jj.contains(j));
        assert(img.contains(j));
        let i0 = choose|i: int| ii.contains(i) && #[trigger] f(i) == j;
        assert(0 <= i0 < es.len() && included(es[i0], o) && pi[i0] == j);
        let iw = choose|i: int|
            0 <= i < es.len() && included(es[i], o) && #[trigger] pi[i] == j;
        assert(rho[j] == iw);
        assert(0 <= iw < es.len() && included(es[iw], o) && pi[iw] == j);
        assert(pair_matches(es[iw], bs[j], o));
        lemma_size_from_elem(es, 0, iw);
        lemma_size_from_elem(bs, 0, j);
        lemma_size_pos(es[iw]);
        lemma_size_pos(bs[j]);
        assert(size(es[iw]) + size(bs[j]) <= size_from(es, 0) + size_from(bs, 0));
        lemma_matches_sym(es[iw], bs[j], o);
    }
    assert forall|j1: int, j2: int| #![trigger rho[j1], rho[j2]]
        0 <= j1 < j2 < bs.len() && included(bs[j1], o) && included(bs[j2], o) implies rho[j1]
        != rho[j2] by {
        if rho[j1] == rho[j2] {
            assert(pi[rho[j1]] == j1);
            assert(pi[rho[j2]] == j2);
        }
    }
    rho
}

/// Matchings compose across a middle list, turning one leg around.
proof fn lemma_matching_compose(
    c1: Seq<NodeV>,
    cy: Seq<NodeV>,
    c2: Seq<NodeV>,
    cz: Seq<NodeV>,
    pia: Seq<int>,
    rho: Seq<int>,
    pic: Seq<int>,
    o: OptsV,
) -> (sigma: Seq<int>)
    requires
        o.ignore_sibling_order,
        is_matching(c1, cy, 0, fresh_used(cy.len()), pia, o),
        is_matching(cy, c2, 0, fresh_used(c2.len()), rho, o),
        is_matching(c2, cz, 0, fresh_used(cz.len()), pic, o),
    ensures
        is_matching(c1, cz, 0, fresh_used(cz.len()), sigma, o),
    decreases size_from(c1, 0) + size_from(cy, 0) + size_from(c2, 0) + size_from(cz, 0),
        2int,
        0int,
{
    let sigma = Seq::new(c1.len(), |i: int| pic[rho[pia[i]]]);
    assert forall|i: int| #![trigger sigma[i]]
        0 <= i < c1.len() && included(c1[i], o) implies 0 <= sigma[i] < cz.len() && included(
        cz[sigma[i]],
        o,
    ) && !fresh_used(cz.len())[sigma[i]] && pair_matches(c1[i], cz[sigma[i]], o) by {
        let j = pia[i];
        assert(0 <= j < cy.len() && included(cy[j], o) && pair_matches(c1[i], cy[j], o));
        let i2 = rho[j];
        assert(0 <= i2 < c2.len() && included(c2[i2], o) && pair_matches(cy[j], c2[i2], o));
        let l = pic[i2];
        assert(0 <= l < cz.len() && included(cz[l], o) && pair_matches(c2[i2], cz[l], o));
        assert(sigma[i] == l);
        lemma_size_from_elem(c1, 0, i);
        lemma_size_from_elem(cy, 0, j);
        lemma_size_from_elem(c2, 0, i2);
        lemma_size_from_elem(cz, 0, l);
        lemma_size_pos(c1[i]);
        lemma_size_pos(cy[j]);
        lemma_size_pos(c2[i2]);
        lemma_size_pos(cz[l]);
        lemma_size_from_nonneg(c1, 0);
        lemma_size_from_nonneg(cy, 0);
        lemma_size_from_nonneg(c2, 0);
        lemma_size_from_nonneg(cz, 0);
        assert(size(c1[i]) + size(cy[j]) + size(c2[i2]) + size(cz[l]) <= size_from(c1, 0)
            + size_from(cy, 0) + size_from(c2, 0) + size_from(cz, 0));
        lemma_matches_sym(cy[j], c2[i2], o);
        lemma_matches_chain(c1[i], cy[j], c2[i2], cz[l], o);
    }
    assert forall|i1: int, i2: int| #![trigger sigma[i1], sigma[i2]]
        0 <= i1 < i2 < c1.len() && included(c1[i1], o) && included(c1[i2], o) implies sigma[i1]
        != sigma[i2] by {
        let j1 = pia[i1];
        let j2 = pia[i2];
        assert(j1 != j2);
        assert(0 <= j1 < cy.len() && included(cy[j1], o));
        assert(0 <= j2 < cy.len() && included(cy[j2], o));
        let m1 = rho[j1];
        let m2 = rho[j2];
        if j1 < j2 {
            assert(rho[j1] != rho[j2]);
        } else {
            assert(rho[j2] != rho[j1]);
        }
        assert(0 <= m1 < c2.len() && included(c2[m1], o));
        assert(0 <= m2 < c2.len() && included(c2[m2], o));
        if m1 < m2 {
            assert(pic[m1] != pic[m2]);
        } else {
            assert(pic[m2] != pic[m1]);
        }
    }
    sigma
}

/// A matching makes the greedy search succeed.
proof fn lemma_matching_rebuild(
    es: Seq<NodeV>,
    bs: Seq<NodeV>,
    k: int,
    used: Seq<bool>,
    pi: Seq<int>,
    o: OptsV,
)
    requires
        o.ignore_sibling_order,
        0 <= k,
        is_matching(es, bs, k, used, pi, o),
    ensures
        unordered_check(es, bs, k, used, o) is Ok,
    decreases size_from(es, 0) + size_from(bs, 0), 2int, es.len() - k,
{
    if k >= es.len() {
    } else if !included(es[k], o) {
        lemma_matching_rebuild(es, bs, k + 1, used, pi, o);
    } else {
        assert(0 <= pi[k] < bs.len() && included(bs[pi[k]], o) && !used[pi[k]]
            && pair_matches(es[k], bs[pi[k]], o));
        lemma_first_match_complete(es[k], bs, used, 0, pi[k], o);
        let fm = first_match(es[k], bs, used, 0, o);
        let j = fm->Some_0;
        lemma_first_match_sound(es[k], bs, used, 0, o);
        let next = used.update(j, true);
        let pi2: Seq<int> = if pi[k] == j {
            pi
        } else if exists|i: int|
            k < i < es.len() && included(es[i], o) && #[trigger] pi[i] == j {
            let iprime = choose|i: int|
                k < i < es.len() && included(es[i], o) && #[trigger] pi[i] == j;
            lemma_size_from_two(es, k, iprime);
            if j < pi[k] {
                lemma_size_from_two(bs, j, pi[k]);
            } else {
                lemma_size_from_two(bs, pi[k], j);
            }
            lemma_size_from_nonneg(es, 0);
            lemma_size_from_nonneg(bs, 0);
            lemma_size_pos(es[iprime]);
            lemma_size_pos(bs[j]);
            lemma_size_pos(es[k]);
            lemma_size_pos(bs[pi[k]]);
            assert(size(es[iprime]) + size(bs[j]) + size(es[k]) + size(bs[pi[k]]) <= size_from(
                es,
                0,
            ) + size_from(bs, 0));
            lemma_matches_chain(es[iprime], bs[j], es[k], bs[pi[k]], o);
            pi.update(iprime, pi[k])
        } else {
            pi
        };
        assert forall|i: int| #![trigger pi2[i]]
            k + 1 <= i < es.len() && included(es[i], o) implies 0 <= pi2[i] < bs.len()
            && included(bs[pi2[i]], o) && !next[pi2[i]] && pair_matches(es[i], bs[pi2[i]], o) by {
            if pi[k] == j {
                assert(pi2[i] == pi[i]);
                assert(pi[i] != pi[k]);
            } else if exists|m: int|
                k < m < es.len() && included(es[m], o) && #[trigger] pi[m] == j {
                let iprime = choose|m: int|
                    k < m < es.len() && included(es[m], o) && #[trigger] pi[m] == j;
                if i == iprime {
                    assert(pi2[i] == pi[k]);
                } else {
                    assert(pi2[i] == pi[i]);
                    assert(pi[i] != j);
                }
            } else {
                assert(pi2[i] == pi[i]);
                assert(pi[i] != j);
            }
        }
        assert forall|i1: int, i2: int| #![trigger pi2[i1], pi2[i2]]
            k + 1 <= i1 < i2 < es.len() && included(es[i1], o) && included(es[i2], o) implies
            pi2[i1] != pi2[i2] by {
            if pi[k] == j {
                assert(pi2[i1] == pi[i1] && pi2[i2] == pi[i2]);
                assert(pi[i1] != pi[i2]);
            } else if exists|m: int|
                k < m < es.len() && included(es[m], o) && #[trigger] pi[m] == j {
                let iprime = choose|m: int|
                    k < m < es.len() && included(es[m], o) && #[trigger] pi[m] == j;
                if i1 == iprime {
                    assert(pi2[i1] == pi[k] && pi2[i2] == pi[i2]);
                    assert(pi[i2] != pi[k]);
                } else if i2 == iprime {
                    assert(pi2[i1] == pi[i1] && pi2[i2] == pi[k]);
                    assert(pi[i1] != pi[k]);
                } else {
                    assert(pi2[i1] == pi[i1] && pi2[i2] == pi[i2]);
                    assert(pi[i1] != pi[i2]);
                }
            } else {
                assert(pi2[i1] == pi[i1] && pi2[i2] == pi[i2]);
                assert(pi[i1] != pi[i2]);
            }
        }
        lemma_matching_rebuild(es, bs, k + 1, next, pi2, o);
    }
}

} // verus!
