use vstd::prelude::*;

use crate::node::{kind_of, NodeV};
use crate::options::OptsV;
use crate::parse::trim_of;
use crate::report::ErrV;

verus! {

/// Whether `name` is one of the configured ignored attribute names.
pub open spec fn is_ignored_name(ignored: Seq<Seq<char>>, name: Seq<char>) -> bool {
    exists|i: int| 0 <= i < ignored.len() && ignored[i] == name
}

/// The attribute pairs that take part in comparison: those whose name is not ignored.
pub open spec fn visible_attrs(
    attrs: Seq<(Seq<char>, Seq<char>)>,
    ignored: Seq<Seq<char>>,
) -> Seq<(Seq<char>, Seq<char>)> {
    attrs.filter(|p: (Seq<char>, Seq<char>)| !is_ignored_name(ignored, p.0))
}

/// Attribute lists match when they carry the same set of visible (name, value)
/// pairs: order and duplication are irrelevant.
pub open spec fn attrs_match(
    a: Seq<(Seq<char>, Seq<char>)>,
    b: Seq<(Seq<char>, Seq<char>)>,
    ignored: Seq<Seq<char>>,
) -> bool {
    visible_attrs(a, ignored).to_set() == visible_attrs(b, ignored).to_set()
}

/// How a text node's content reads under the active whitespace rule: trimmed
/// when whitespace is ignored, raw otherwise. Interior whitespace is never
/// collapsed.
pub open spec fn shown_text(t: Seq<char>, o: OptsV) -> Seq<char> {
    if o.ignore_whitespace {
        trim_of(t)
    } else {
        t
    }
}

/// Whether two text contents are equal under the active whitespace rule.
pub open spec fn texts_match(a: Seq<char>, b: Seq<char>, o: OptsV) -> bool {
    shown_text(a, o) == shown_text(b, o)
}

/// The inclusion predicate: whether a node takes part in comparison at all.
/// Text nodes are excluded when text is ignored, or when whitespace is ignored
/// and the node is whitespace-only; comments are excluded when comments are
/// ignored; every other kind is always included.
pub open spec fn included(n: NodeV, o: OptsV) -> bool {
    match n {
        NodeV::Text { text } => !o.ignore_text && (!o.ignore_whitespace || trim_of(text).len()
            != 0),
        NodeV::Comment { .. } => !o.ignore_comments,
        _ => true,
    }
}

/// A marker sequence for greedy matching in which no node is matched yet.
pub open spec fn fresh_used(n: nat) -> Seq<bool> {
    Seq::new(n, |i: int| false)
}

/// The comparable children: those that survive the inclusion predicate, in order.
pub open spec fn comparable(children: Seq<NodeV>, o: OptsV) -> Seq<NodeV> {
    children.filter(|c: NodeV| included(c, o))
}

/// The whole comparison of two element nodes: tag names first, then the
/// visible attribute sets (unless attributes are ignored), then the comparable
/// child counts, then the children, position by position or by greedy
/// matching. The first mismatch found is the result.
pub open spec fn elem_check(a: NodeV, b: NodeV, o: OptsV) -> Result<(), ErrV>
    decreases a, 2int, 0int, 0int,
{
    if !(a is Element && b is Element) {
        Ok(())
    } else if a->tag != b->tag {
        Err(ErrV::TagMismatch { expected: a->tag, actual: b->tag })
    } else if !o.ignore_attributes && !attrs_match(a->attrs, b->attrs, o.ignored_attributes) {
        Err(ErrV::AttributeMismatch {
            expected: visible_attrs(a->attrs, o.ignored_attributes),
            actual: visible_attrs(b->attrs, o.ignored_attributes),
        })
    } else if comparable(a->children, o).len() != comparable(b->children, o).len() {
        Err(ErrV::ChildCountMismatch {
            expected: comparable(a->children, o).len() as int,
            actual: comparable(b->children, o).len() as int,
        })
    } else if o.ignore_sibling_order {
        unordered_check(a->children, b->children, 0, fresh_used(b->children.len()), o)
    } else {
        ordered_check(a->children, b->children, 0, 0, 0, o)
    }
}

/// Position-by-position comparison of comparable children. `i` and `j` walk
/// the raw child lists, skipping excluded nodes; `pos` counts compared pairs.
pub open spec fn ordered_check(
    es: Seq<NodeV>,
    bs: Seq<NodeV>,
    i: int,
    j: int,
    pos: int,
    o: OptsV,
) -> Result<(), ErrV>
    decreases es, 1int, es.len() - i + bs.len() - j, 0int,
{
    if i < 0 || j < 0 || i >= es.len() || j >= bs.len() {
        Ok(())
    } else if !included(es[i], o) {
        ordered_check(es, bs, i + 1, j, pos, o)
    } else if !included(bs[j], o) {
        ordered_check(es, bs, i, j + 1, pos, o)
    } else {
        match pair_check(es[i], bs[j], pos, o) {
            Err(e) => Err(e),
            Ok(()) => ordered_check(es, bs, i + 1, j + 1, pos + 1, o),
        }
    }
}

/// Comparison of one pair of comparable children at position `pos` in ordered
/// mode. Text is compared under the whitespace rule, comments by trimmed
/// content, elements recursively; any other pairing is a kind mismatch.
pub open spec fn pair_check(x: NodeV, y: NodeV, pos: int, o: OptsV) -> Result<(), ErrV>
    decreases x, 3int, 0int, 0int,
{
    if x is Text && y is Text {
        if o.ignore_text || texts_match(x->text, y->text, o) {
            Ok(())
        } else {
            Err(ErrV::TextMismatch {
                position: pos,
                expected: shown_text(x->text, o),
                actual: shown_text(y->text, o),
            })
        }
    } else if x is Comment && y is Comment {
        if o.ignore_comments || trim_of(x->comment) == trim_of(y->comment) {
            Ok(())
        } else {
            Err(ErrV::CommentMismatch {
                position: pos,
                expected: trim_of(x->comment),
                actual: trim_of(y->comment),
            })
        }
    } else if x is Element && y is Element {
        elem_check(x, y, o)
    } else {
        Err(ErrV::NodeKindMismatch { position: pos, expected: kind_of(x), actual: kind_of(y) })
    }
}

/// Greedy multiset matching of comparable children: for each comparable
/// expected child in order, the first unmatched comparable actual child that
/// matches is consumed; an expected child with no match is the mismatch.
pub open spec fn unordered_check(
    es: Seq<NodeV>,
    bs: Seq<NodeV>,
    k: int,
    used: Seq<bool>,
    o: OptsV,
) -> Result<(), ErrV>
    decreases es, 1int, es.len() - k, 0int,
{
    if k < 0 || k >= es.len() {
        Ok(())
    } else if !included(es[k], o) {
        unordered_check(es, bs, k + 1, used, o)
    } else {
        match first_match(es[k], bs, used, 0, o) {
            None => Err(ErrV::NoMatchingNode { expected: es[k] }),
            Some(j) => unordered_check(es, bs, k + 1, used.update(j, true), o),
        }
    }
}

/// The index of the first comparable, not yet matched node of `bs` at or after
/// `j` that matches `e` in unordered mode.
pub open spec fn first_match(
    e: NodeV,
    bs: Seq<NodeV>,
    used: Seq<bool>,
    j: int,
    o: OptsV,
) -> Option<int>
    decreases e, 4int, bs.len() - j, 0int,
{
    if j < 0 || j >= bs.len() {
        None
    } else if included(bs[j], o) && !used[j] && pair_matches(e, bs[j], o) {
        Some(j)
    } else {
        first_match(e, bs, used, j + 1, o)
    }
}

/// Whether two comparable children match in unordered mode: text under the
/// whitespace rule, elements by full recursive comparison, and two comments
/// only when comments are ignored — paired comments are never content-compared
/// in unordered mode, a deliberate difference from ordered mode.
pub open spec fn pair_matches(x: NodeV, y: NodeV, o: OptsV) -> bool
    decreases x, 3int, 0int, 0int,
{
    if x is Text && y is Text {
        o.ignore_text || texts_match(x->text, y->text, o)
    } else if x is Element && y is Element {
        elem_check(x, y, o) is Ok
    } else if x is Comment && y is Comment {
        o.ignore_comments
    } else {
        false
    }
}

/// Extending an attribute list by one pair extends its visible pairs exactly
/// when the pair's name is not ignored.
pub proof fn lemma_visible_attrs_push(
    s: Seq<(Seq<char>, Seq<char>)>,
    ig: Seq<Seq<char>>,
    x: (Seq<char>, Seq<char>),
)
    ensures
        visible_attrs(s.push(x), ig) == (if !is_ignored_name(ig, x.0) {
            visible_attrs(s, ig).push(x)
        } else {
            visible_attrs(s, ig)
        }),
{
    reveal_with_fuel(Seq::filter, 2);
    let t = s.push(x);
    assert(t.drop_last() =~= s);
    assert(t.last() == x);
}

/// Extending a child list by one node extends its comparable children exactly
/// when the node survives the inclusion predicate.
pub proof fn lemma_comparable_push(s: Seq<NodeV>, o: OptsV, x: NodeV)
    ensures
        comparable(s.push(x), o) == (if included(x, o) {
            comparable(s, o).push(x)
        } else {
            comparable(s, o)
        }),
{
    reveal_with_fuel(Seq::filter, 2);
    let t = s.push(x);
    assert(t.drop_last() =~= s);
    assert(t.last() == x);
}

} // verus!
