use vstd::pervasive::VecAdditionalExecFns;
use vstd::prelude::*;

use crate::model::{
    attrs_match, comparable, elem_check, first_match, fresh_used, included, is_ignored_name,
    lemma_comparable_push, lemma_visible_attrs_push, ordered_check, pair_check, pair_matches,
    texts_match, unordered_check, visible_attrs,
};
use crate::node::{attrs_view, children_view, lemma_children_view, HtmlNode};
use crate::options::{default_options, HtmlCompareOptions, OptsV};
use crate::parse::{parse_of, parse_root, str_eq, str_trim};
use crate::report::{result_view, ErrV, HtmlCompareError};

verus! {

/// The comparison engine: holds a configuration snapshot and walks two parsed
/// trees in lock-step, or with a greedy matching search when sibling order is
/// ignored.
#[derive(Debug)]
pub struct HtmlComparer {
    options: HtmlCompareOptions,
}

impl View for HtmlComparer {
    type V = OptsV;

    closed spec fn view(&self) -> OptsV {
        self.options@
    }
}

impl Default for HtmlComparer {
    /// A comparer with the default options.
    fn default() -> (r: Self)
        ensures
            r@ == default_options(),
    {
        Self::new()
    }
}

impl HtmlComparer {
    /// A comparer with the default options.
    pub fn new() -> (r: Self)
        ensures
            r@ == default_options(),
    {
        HtmlComparer { options: HtmlCompareOptions::default() }
    }

    /// A comparer with the given options.
    pub fn with_options(options: HtmlCompareOptions) -> (r: Self)
        ensures
            r@ == options@,
    {
        HtmlComparer { options }
    }

    /// Compare two HTML strings under the held options.
    ///
    /// Both strings are parsed with standard HTML error recovery and the
    /// recovered root elements are compared. The verdict and the report are a
    /// pure function of the two inputs and the options: the result is exactly
    /// what the comparison model states, so repeated calls return identical
    /// reports.
    pub fn compare(&self, expected: &str, actual: &str) -> (r: Result<bool, HtmlCompareError>)
        ensures
            ({
                let verdict = elem_check(parse_of(expected@), parse_of(actual@), self@);
                &&& (r is Ok <==> verdict is Ok)
                &&& (r is Ok ==> r == Ok::<bool, HtmlCompareError>(true))
                &&& (r is Err ==> verdict is Err && r->Err_0@ == verdict->Err_0)
            }),
            expected@ == actual@ && crate::node::parsed_shape(parse_of(expected@)) && (
            self@.ignore_sibling_order && !self@.ignore_comments ==> crate::node::comment_free(
                parse_of(expected@),
            )) ==> r is Ok,
            r is Ok <==> elem_check(parse_of(actual@), parse_of(expected@), self@) is Ok,
    {
        let expected_root = parse_root(expected);
        let actual_root = parse_root(actual);
        proof {
            if expected@ == actual@ && crate::node::parsed_shape(parse_of(expected@)) && (
            self@.ignore_sibling_order && !self@.ignore_comments ==> crate::node::comment_free(
                parse_of(expected@),
            )) {
                crate::laws::lemma_compare_reflexive(expected_root@, self@);
            }
            crate::laws::lemma_verdict_symmetric(expected_root@, actual_root@, self@);
        }
        match self.compare_elements(&expected_root, &actual_root) {
            Ok(()) => Ok(true),
            Err(e) => Err(e),
        }
    }

    /// Compare two parsed element nodes under the held options.
    pub fn compare_elements(&self, a: &HtmlNode, b: &HtmlNode) -> (r: Result<
        (),
        HtmlCompareError,
    >)
        requires
            a@ is Element,
            b@ is Element,
        ensures
            result_view(r) == elem_check(a@, b@, self@),
        decreases a@, 2int, 0int, 0int,
    {
        match (a, b) {
            (
                HtmlNode::Element { tag: ta, attributes: aa, children: ca },
                HtmlNode::Element { tag: tb, attributes: ab, children: cb },
            ) => {
                if !(*ta == *tb) {
                    return Err(HtmlCompareError::TagMismatch {
                        expected: ta.clone(),
                        actual: tb.clone(),
                    });
                }
                if !self.options.ignore_attributes {
                    match self.compare_attributes(aa, ab) {
                        Err(e) => {
                            return Err(e);
                        },
                        Ok(()) => {},
                    }
                }
                let count_a = self.count_comparable(ca);
                let count_b = self.count_comparable(cb);
                if count_a != count_b {
                    return Err(HtmlCompareError::ChildCountMismatch {
                        expected: count_a,
                        actual: count_b,
                    });
                }
                proof {
                    assert(decreases_to!(a@ => a@->children));
                }
                if self.options.ignore_sibling_order {
                    self.compare_unordered_nodes(Ghost(a@), ca, cb)
                } else {
                    self.compare_ordered_nodes(Ghost(a@), ca, cb)
                }
            },
            _ => {
                proof {
                    assert(false);
                }
                Err(HtmlCompareError::ChildCountMismatch { expected: 0, actual: 0 })
            },
        }
    }

    /// Compare two attribute lists as sets of visible (name, value) pairs.
    pub fn compare_attributes(
        &self,
        a_attrs: &Vec<(String, String)>,
        b_attrs: &Vec<(String, String)>,
    ) -> (r: Result<(), HtmlCompareError>)
        ensures
            r is Ok <==> attrs_match(
                attrs_view(a_attrs@),
                attrs_view(b_attrs@),
                self@.ignored_attributes,
            ),
            r is Err ==> r->Err_0@ == (ErrV::AttributeMismatch {
                expected: visible_attrs(attrs_view(a_attrs@), self@.ignored_attributes),
                actual: visible_attrs(attrs_view(b_attrs@), self@.ignored_attributes),
            }),
    {
        let fa = self.visible_attribute_list(a_attrs);
        let fb = self.visible_attribute_list(b_attrs);
        let ghost va = attrs_view(fa@);
        let ghost vb = attrs_view(fb@);
        let a_in_b = attrs_subset(&fa, &fb);
        let b_in_a = attrs_subset(&fb, &fa);
        if a_in_b && b_in_a {
            proof {
                assert forall|x: (Seq<char>, Seq<char>)| va.to_set().contains(x)
                    implies vb.to_set().contains(x) by {
                    let m = choose|m: int| 0 <= m < va.len() && va[m] == x;
                    assert(vb.contains(#[trigger] va[m]));
                    assert(vb.contains(x));
                }
                assert forall|x: (Seq<char>, Seq<char>)| vb.to_set().contains(x)
                    implies va.to_set().contains(x) by {
                    let m = choose|m: int| 0 <= m < vb.len() && vb[m] == x;
                    assert(va.contains(#[trigger] vb[m]));
                    assert(va.contains(x));
                }
                assert(va.to_set() =~= vb.to_set());
            }
            Ok(())
        } else {
            proof {
                if !a_in_b {
                    let m = choose|m: int| 0 <= m < va.len() && !vb.contains(#[trigger] va[m]);
                    assert(va.contains(va[m]));
                    assert(va.to_set().contains(va[m]));
                    assert(!vb.to_set().contains(va[m]));
                } else {
                    let m = choose|m: int| 0 <= m < vb.len() && !va.contains(#[trigger] vb[m]);
                    assert(vb.contains(vb[m]));
                    assert(vb.to_set().contains(vb[m]));
                    assert(!va.to_set().contains(vb[m]));
                }
            }
            Err(HtmlCompareError::AttributeMismatch { expected: fa, actual: fb })
        }
    }

    /// The attribute pairs of `attrs` whose names are not ignored, in order.
    fn visible_attribute_list(&self, attrs: &Vec<(String, String)>) -> (r: Vec<(String, String)>)
        ensures
            attrs_view(r@) == visible_attrs(attrs_view(attrs@), self@.ignored_attributes),
    {
        let ghost s = attrs_view(attrs@);
        let ghost ig = self@.ignored_attributes;
        let mut out: Vec<(String, String)> = Vec::new();
        let mut i: usize = 0;
        proof {
            assert(s.subrange(0, 0) =~= Seq::<(Seq<char>, Seq<char>)>::empty());
            assert(visible_attrs(s.subrange(0, 0), ig) =~= attrs_view(out@));
        }
        while i < attrs.len()
            invariant
                i <= attrs.len(),
                s == attrs_view(attrs@),
                ig == self@.ignored_attributes,
                attrs_view(out@) == visible_attrs(s.subrange(0, i as int), ig),
            decreases attrs.len() - i,
        {
            let ghost old_out = out@;
            let keep = !self.is_ignored(&attrs[i].0);
            if keep {
                let pair = (attrs[i].0.clone(), attrs[i].1.clone());
                out.push(pair);
            }
            proof {
                assert(s.subrange(0, i + 1 as int) =~= s.subrange(0, i as int).push(s[i as int]));
                lemma_visible_attrs_push(s.subrange(0, i as int), ig, s[i as int]);
                assert(s[i as int] == (attrs@[i as int].0@, attrs@[i as int].1@));
                assert(!is_ignored_name(ig, s[i as int].0) == keep);
                if keep {
                    assert(attrs_view(out@) =~= attrs_view(old_out).push(s[i as int]));
                } else {
                    assert(attrs_view(out@) =~= attrs_view(old_out));
                }
            }
            i = i + 1;
        }
        proof {
            assert(s.subrange(0, attrs@.len() as int) =~= s);
        }
        out
    }

    /// Whether an attribute name is in the configured ignored collection.
    fn is_ignored(&self, name: &String) -> (r: bool)
        ensures
            r == is_ignored_name(self@.ignored_attributes, name@),
    {
        let ghost ig = self@.ignored_attributes;
        let list = &self.options.ignored_attributes;
        let mut i: usize = 0;
        while i < list.len()
            invariant
                i <= list.len(),
                ig == self@.ignored_attributes,
                ig.len() == list@.len(),
                forall|m: int| 0 <= m < list@.len() ==> ig[m] == list@[m]@,
                forall|m: int| 0 <= m < i ==> ig[m] != name@,
            decreases list.len() - i,
        {
            if list[i] == *name {
                proof {
                    assert(ig[i as int] == name@);
                }
                return true;
            }
            i = i + 1;
        }
        false
    }

    /// The number of comparable children in `children`.
    fn count_comparable(&self, children: &Vec<HtmlNode>) -> (n: usize)
        ensures
            n as int == comparable(children_view(children@), self@).len(),
    {
        let ghost s = children_view(children@);
        let mut n: usize = 0;
        let mut i: usize = 0;
        proof {
            lemma_children_view(children@);
            assert(s.subrange(0, 0) =~= Seq::<crate::node::NodeV>::empty());
        }
        while i < children.len()
            invariant
                i <= children.len(),
                n <= i,
                s == children_view(children@),
                s.len() == children@.len(),
                forall|m: int| 0 <= m < children@.len() ==> s[m] == children@[m]@,
                n as int == comparable(s.subrange(0, i as int), self@).len(),
            decreases children.len() - i,
        {
            let keep = self.should_include_node(&children[i]);
            proof {
                assert(s.subrange(0, i + 1 as int) =~= s.subrange(0, i as int).push(s[i as int]));
                lemma_comparable_push(s.subrange(0, i as int), self@, s[i as int]);
                assert(included(s[i as int], self@) == keep);
            }
            if keep {
                n = n + 1;
            }
            i = i + 1;
        }
        proof {
            assert(s.subrange(0, children@.len() as int) =~= s);
        }
        n
    }

    /// Whether a node takes part in comparison under the held options.
    pub fn should_include_node(&self, node: &HtmlNode) -> (r: bool)
        ensures
            r == included(node@, self@),
    {
        match node {
            HtmlNode::Text { text } => {
                if self.options.ignore_text {
                    false
                } else if self.options.ignore_whitespace {
                    let trimmed = str_trim(text.as_str());
                    !trimmed.is_empty()
                } else {
                    true
                }
            },
            HtmlNode::Comment { .. } => !self.options.ignore_comments,
            _ => true,
        }
    }

    /// Whether two text contents are equal under the active whitespace rule.
    fn texts_equal(&self, a: &String, b: &String) -> (r: bool)
        ensures
            r == texts_match(a@, b@, self@),
    {
        if self.options.ignore_whitespace {
            str_eq(str_trim(a.as_str()), str_trim(b.as_str()))
        } else {
            *a == *b
        }
    }

    /// A text content as it reads under the active whitespace rule.
    fn shown_string(&self, t: &String) -> (r: String)
        ensures
            r@ == crate::model::shown_text(t@, self@),
    {
        if self.options.ignore_whitespace {
            str_trim(t.as_str()).to_owned()
        } else {
            t.clone()
        }
    }

    /// Compare one pair of comparable children at position `pos` in ordered mode.
    fn compare_pair(&self, x: &HtmlNode, y: &HtmlNode, pos: usize) -> (r: Result<
        (),
        HtmlCompareError,
    >)
        ensures
            result_view(r) == pair_check(x@, y@, pos as int, self@),
        decreases x@, 3int, 0int, 0int,
    {
        match (x, y) {
            (HtmlNode::Text { text: tx }, HtmlNode::Text { text: ty }) => {
                if self.options.ignore_text || self.texts_equal(tx, ty) {
                    Ok(())
                } else {
                    Err(HtmlCompareError::TextMismatch {
                        position: pos,
                        expected: self.shown_string(tx),
                        actual: self.shown_string(ty),
                    })
                }
            },
            (HtmlNode::Comment { comment: cx }, HtmlNode::Comment { comment: cy }) => {
                if self.options.ignore_comments {
                    Ok(())
                } else {
                    let trimmed_x = str_trim(cx.as_str());
                    let trimmed_y = str_trim(cy.as_str());
                    if str_eq(trimmed_x, trimmed_y) {
                        Ok(())
                    } else {
                        Err(HtmlCompareError::CommentMismatch {
                            position: pos,
                            expected: trimmed_x.to_owned(),
                            actual: trimmed_y.to_owned(),
                        })
                    }
                }
            },
            (HtmlNode::Element { .. }, HtmlNode::Element { .. }) => self.compare_elements(x, y),
            _ => Err(HtmlCompareError::NodeKindMismatch {
                position: pos,
                expected: x.kind(),
                actual: y.kind(),
            }),
        }
    }

    /// Whether two comparable children match in unordered mode.
    fn node_matches(&self, x: &HtmlNode, y: &HtmlNode) -> (r: bool)
        ensures
            r == pair_matches(x@, y@, self@),
        decreases x@, 3int, 0int, 0int,
    {
        match (x, y) {
            (HtmlNode::Text { text: tx }, HtmlNode::Text { text: ty }) => {
                self.options.ignore_text || self.texts_equal(tx, ty)
            },
            (HtmlNode::Element { .. }, HtmlNode::Element { .. }) => {
                self.compare_elements(x, y).is_ok()
            },
            (HtmlNode::Comment { .. }, HtmlNode::Comment { .. }) => self.options.ignore_comments,
            _ => false,
        }
    }

    /// Compare comparable children position by position.
    fn compare_ordered_nodes(
        &self,
        Ghost(parent): Ghost<crate::node::NodeV>,
        ca: &Vec<HtmlNode>,
        cb: &Vec<HtmlNode>,
    ) -> (r: Result<(), HtmlCompareError>)
        requires
            decreases_to!(parent => children_view(ca@)),
        ensures
            result_view(r) == ordered_check(
                children_view(ca@),
                children_view(cb@),
                0,
                0,
                0,
                self@,
            ),
        decreases parent, 1int, 0int, 0int,
    {
        let ghost esv = children_view(ca@);
        let ghost bsv = children_view(cb@);
        proof {
            lemma_children_view(ca@);
            lemma_children_view(cb@);
        }
        let mut i: usize = 0;
        let mut j: usize = 0;
        let mut pos: usize = 0;
        while i < ca.len() && j < cb.len()
            invariant
                i <= ca.len(),
                j <= cb.len(),
                pos <= i,
                esv == children_view(ca@),
                bsv == children_view(cb@),
                esv.len() == ca@.len(),
                bsv.len() == cb@.len(),
                forall|m: int| 0 <= m < ca@.len() ==> esv[m] == ca@[m]@,
                forall|m: int| 0 <= m < cb@.len() ==> bsv[m] == cb@[m]@,
                decreases_to!(parent => esv),
                ordered_check(esv, bsv, 0, 0, 0, self@) == ordered_check(
                    esv,
                    bsv,
                    i as int,
                    j as int,
                    pos as int,
                    self@,
                ),
            decreases ca.len() - i + cb.len() - j,
        {
            if !self.should_include_node(&ca[i]) {
                i = i + 1;
            } else if !self.should_include_node(&cb[j]) {
                j = j + 1;
            } else {
                proof {
                    assert(decreases_to!(esv => esv[i as int]));
                }
                match self.compare_pair(&ca[i], &cb[j], pos) {
                    Err(e) => {
                        return Err(e);
                    },
                    Ok(()) => {
                        i = i + 1;
                        j = j + 1;
                        pos = pos + 1;
                    },
                }
            }
        }
        Ok(())
    }

    /// Compare comparable children by greedy multiset matching.
    fn compare_unordered_nodes(
        &self,
        Ghost(parent): Ghost<crate::node::NodeV>,
        ca: &Vec<HtmlNode>,
        cb: &Vec<HtmlNode>,
    ) -> (r: Result<(), HtmlCompareError>)
        requires
            decreases_to!(parent => children_view(ca@)),
        ensures
            result_view(r) == unordered_check(
                children_view(ca@),
                children_view(cb@),
                0,
                fresh_used(children_view(cb@).len()),
                self@,
            ),
        decreases parent, 1int, 0int, 0int,
    {
        let ghost esv = children_view(ca@);
        let ghost bsv = children_view(cb@);
        let ghost used0 = fresh_used(bsv.len());
        proof {
            lemma_children_view(ca@);
            lemma_children_view(cb@);
        }
        let mut matched: Vec<bool> = Vec::new();
        let mut m: usize = 0;
        while m < cb.len()
            invariant
                m <= cb.len(),
                matched@.len() == m,
                forall|q: int| 0 <= q < m ==> matched@[q] == false,
            decreases cb.len() - m,
        {
            matched.push(false);
            m = m + 1;
        }
        proof {
            assert(matched@ =~= used0);
        }
        let mut k: usize = 0;
        while k < ca.len()
            invariant
                k <= ca.len(),
                matched@.len() == cb@.len(),
                esv == children_view(ca@),
                bsv == children_view(cb@),
                used0 == fresh_used(bsv.len()),
                esv.len() == ca@.len(),
                bsv.len() == cb@.len(),
                forall|q: int| 0 <= q < ca@.len() ==> esv[q] == ca@[q]@,
                forall|q: int| 0 <= q < cb@.len() ==> bsv[q] == cb@[q]@,
                decreases_to!(parent => esv),
                unordered_check(esv, bsv, 0, used0, self@) == unordered_check(
                    esv,
                    bsv,
                    k as int,
                    matched@,
                    self@,
                ),
            decreases ca.len() - k,
        {
            if self.should_include_node(&ca[k]) {
                proof {
                    assert(decreases_to!(esv => esv[k as int]));
                }
                match self.find_match(Ghost(esv[k as int]), &ca[k], cb, &matched) {
                    Some(j) => {
                        matched.set(j, true);
                    },
                    None => {
                        return Err(HtmlCompareError::NoMatchingNode {
                            expected: ca[k].duplicate(),
                        });
                    },
                }
            }
            k = k + 1;
        }
        Ok(())
    }

    /// The first comparable, not yet matched child of `cb` that matches `e`.
    fn find_match(
        &self,
        Ghost(ev): Ghost<crate::node::NodeV>,
        e: &HtmlNode,
        cb: &Vec<HtmlNode>,
        matched: &Vec<bool>,
    ) -> (r: Option<usize>)
        requires
            ev == e@,
            matched@.len() == cb@.len(),
        ensures
            match r {
                Some(j) => j < cb@.len() && first_match(
                    e@,
                    children_view(cb@),
                    matched@,
                    0,
                    self@,
                ) == Some(j as int),
                None => first_match(e@, children_view(cb@), matched@, 0, self@) is None,
            },
        decreases ev, 4int, 0int, 0int,
    {
        let ghost bsv = children_view(cb@);
        proof {
            lemma_children_view(cb@);
        }
        let mut j: usize = 0;
        while j < cb.len()
            invariant
                j <= cb.len(),
                ev == e@,
                matched@.len() == cb@.len(),
                bsv == children_view(cb@),
                bsv.len() == cb@.len(),
                forall|q: int| 0 <= q < cb@.len() ==> bsv[q] == cb@[q]@,
                first_match(e@, bsv, matched@, 0, self@) == first_match(
                    e@,
                    bsv,
                    matched@,
                    j as int,
                    self@,
                ),
            decreases cb.len() - j,
        {
            if !matched[j] && self.should_include_node(&cb[j]) {
                if self.node_matches(e, &cb[j]) {
                    return Some(j);
                }
            }
            j = j + 1;
        }
        None
    }
}

/// Whether every pair of `xs` occurs in `ys`, by (name, value) equality.
fn attrs_subset(xs: &Vec<(String, String)>, ys: &Vec<(String, String)>) -> (r: bool)
    ensures
        r == (forall|m: int|
            0 <= m < xs@.len() ==> attrs_view(ys@).contains(#[trigger] attrs_view(xs@)[m])),
{
    let mut i: usize = 0;
    while i < xs.len()
        invariant
            i <= xs.len(),
            forall|m: int| 0 <= m < i ==> attrs_view(ys@).contains(#[trigger] attrs_view(xs@)[m]),
        decreases xs.len() - i,
    {
        if !pair_in(ys, &xs[i]) {
            proof {
                assert(attrs_view(xs@)[i as int] == (xs@[i as int].0@, xs@[i as int].1@));
            }
            return false;
        }
        proof {
            assert(attrs_view(xs@)[i as int] == (xs@[i as int].0@, xs@[i as int].1@));
        }
        i = i + 1;
    }
    true
}

/// Whether the pair `p` occurs in `ys`, by (name, value) equality.
fn pair_in(ys: &Vec<(String, String)>, p: &(String, String)) -> (r: bool)
    ensures
        r == attrs_view(ys@).contains((p.0@, p.1@)),
{
    let mut j: usize = 0;
    while j < ys.len()
        invariant
            j <= ys.len(),
            forall|m: int| 0 <= m < j ==> #[trigger] attrs_view(ys@)[m] != (p.0@, p.1@),
        decreases ys.len() - j,
    {
        if ys[j].0 == p.0 && ys[j].1 == p.1 {
            proof {
                assert(attrs_view(ys@)[j as int] == (p.0@, p.1@));
            }
            return true;
        }
        proof {
            assert(attrs_view(ys@)[j as int] == (ys@[j as int].0@, ys@[j as int].1@));
        }
        j = j + 1;
    }
    proof {
        if attrs_view(ys@).contains((p.0@, p.1@)) {
            let m = choose|m: int|
                0 <= m < attrs_view(ys@).len() && attrs_view(ys@)[m] == (p.0@, p.1@);
            assert(false);
        }
    }
    false
}

} // verus!
