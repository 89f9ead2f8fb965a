use vstd::prelude::*;

verus! {

/// The kind of a parsed node, used when reporting kind mismatches.
#[derive(Clone, Copy, Debug, PartialEq, Eq, Structural)]
pub enum NodeKind {
    Element,
    Text,
    Comment,
    ProcessingInstruction,
    Doctype,
    Document,
    Fragment,
}

/// A parsed HTML node: a tagged node in a rooted, ordered tree.
///
/// Elements carry their tag name, their attributes in source order and their
/// children in document order. Node kinds other than elements, text and
/// comments take part in comparison only through their kind.
#[derive(Debug, PartialEq)]
pub enum HtmlNode {
    Element { tag: String, attributes: Vec<(String, String)>, children: Vec<HtmlNode> },
    Text { text: String },
    Comment { comment: String },
    Other { kind: NodeKind },
}

/// The mathematical model of a parsed HTML node.
pub enum NodeV {
    Element { tag: Seq<char>, attrs: Seq<(Seq<char>, Seq<char>)>, children: Seq<NodeV> },
    Text { text: Seq<char> },
    Comment { comment: Seq<char> },
    Other { kind: NodeKind },
}

/// The model of an attribute list: each (name, value) pair as character sequences.
pub open spec fn attrs_view(attrs: Seq<(String, String)>) -> Seq<(Seq<char>, Seq<char>)> {
    Seq::new(attrs.len(), |i: int| (attrs[i].0@, attrs[i].1@))
}

/// The models of a sequence of child nodes, in order.
pub open spec fn children_view(cs: Seq<HtmlNode>) -> Seq<NodeV>
    decreases cs,
{
    if cs.len() == 0 {
        Seq::empty()
    } else {
        children_view(cs.drop_last()).push(cs.last().view())
    }
}

impl View for HtmlNode {
    type V = NodeV;

    open spec fn view(&self) -> NodeV
        decreases self,
    {
        match self {
            HtmlNode::Element { tag, attributes, children } => NodeV::Element {
                tag: tag@,
                attrs: attrs_view(attributes@),
                children: children_view(children@),
            },
            HtmlNode::Text { text } => NodeV::Text { text: text@ },
            HtmlNode::Comment { comment } => NodeV::Comment { comment: comment@ },
            HtmlNode::Other { kind } => NodeV::Other { kind: *kind },
        }
    }
}

/// Each child's model is the model of the child at the same index.
pub broadcast proof fn lemma_children_view(cs: Seq<HtmlNode>)
    ensures
        #[trigger] children_view(cs).len() == cs.len(),
        forall|i: int| 0 <= i < cs.len() ==> children_view(cs)[i] == cs[i]@,
    decreases cs,
{
    if cs.len() > 0 {
        lemma_children_view(cs.drop_last());
        assert(children_view(cs) == children_view(cs.drop_last()).push(cs.last()@));
        assert forall|i: int| 0 <= i < cs.len() implies children_view(cs)[i] == cs[i]@ by {
            if i < cs.len() - 1 {
                assert(children_view(cs)[i] == children_view(cs.drop_last())[i]);
                assert(cs.drop_last()[i] == cs[i]);
            } else {
                assert(cs.last() == cs[i]);
            }
        }
    }
}

/// The kind of a node's model.
pub open spec fn kind_of(n: NodeV) -> NodeKind {
    match n {
        NodeV::Element { .. } => NodeKind::Element,
        NodeV::Text { .. } => NodeKind::Text,
        NodeV::Comment { .. } => NodeKind::Comment,
        NodeV::Other { kind } => kind,
    }
}

/// A tree of only element, text and comment nodes, at every depth. Parsed
/// documents usually have this shape below the root element, but not always:
/// the contents of a `<template>` element sit below a fragment node.
pub open spec fn parsed_shape(n: NodeV) -> bool
    decreases n,
{
    match n {
        NodeV::Element { children, .. } => forall|i: int|
            0 <= i < children.len() ==> parsed_shape(#[trigger] children[i]),
        NodeV::Text { .. } => true,
        NodeV::Comment { .. } => true,
        NodeV::Other { .. } => false,
    }
}

/// A tree without comment nodes at any depth.
pub open spec fn comment_free(n: NodeV) -> bool
    decreases n,
{
    match n {
        NodeV::Element { children, .. } => forall|i: int|
            0 <= i < children.len() ==> comment_free(#[trigger] children[i]),
        NodeV::Comment { .. } => false,
        _ => true,
    }
}

impl HtmlNode {
    /// The kind of this node.
    pub fn kind(&self) -> (k: NodeKind)
        ensures
            k == kind_of(self@),
    {
        match self {
            HtmlNode::Element { .. } => NodeKind::Element,
            HtmlNode::Text { .. } => NodeKind::Text,
            HtmlNode::Comment { .. } => NodeKind::Comment,
            HtmlNode::Other { kind } => *kind,
        }
    }

    /// A structurally equal copy of this node.
    pub fn duplicate(&self) -> (r: HtmlNode)
        ensures
            r@ == self@,
        decreases self@,
    {
        match self {
            HtmlNode::Element { tag, attributes, children } => {
                let mut new_attrs: Vec<(String, String)> = Vec::new();
                let mut i: usize = 0;
                while i < attributes.len()
                    invariant
                        i <= attributes.len(),
                        new_attrs@.len() == i,
                        forall|m: int| 0 <= m < i ==> (#[trigger] new_attrs@[m]).0@ == attributes@[m].0@
                            && new_attrs@[m].1@ == attributes@[m].1@,
                    decreases attributes.len() - i,
                {
                    let pair = (attributes[i].0.clone(), attributes[i].1.clone());
                    new_attrs.push(pair);
                    i = i + 1;
                }
                let mut new_children: Vec<HtmlNode> = Vec::new();
                let mut j: usize = 0;
                while j < children.len()
                    invariant
                        j <= children.len(),
                        new_children@.len() == j,
                        forall|m: int| 0 <= m < j ==> (#[trigger] new_children@[m])@ == children@[m]@,
                        self@ == (NodeV::Element {
                            tag: tag@,
                            attrs: attrs_view(attributes@),
                            children: children_view(children@),
                        }),
                    decreases children.len() - j,
                {
                    proof {
                        lemma_children_view(children@);
                        assert(decreases_to!(self@ => self@->children));
                        assert(self@->children[j as int] == children@[j as int]@);
                        assert(decreases_to!(self@->children => self@->children[j as int]));
                    }
                    let c = children[j].duplicate();
                    new_children.push(c);
                    j = j + 1;
                }
                let r = HtmlNode::Element { tag: tag.clone(), attributes: new_attrs, children: new_children };
                proof {
                    lemma_children_view(new_children@);
                    lemma_children_view(children@);
                    assert(attrs_view(new_attrs@) =~= attrs_view(attributes@));
                    assert(children_view(new_children@) =~= children_view(children@));
                }
                r
            },
            HtmlNode::Text { text } => HtmlNode::Text { text: text.clone() },
            HtmlNode::Comment { comment } => HtmlNode::Comment { comment: comment.clone() },
            HtmlNode::Other { kind } => HtmlNode::Other { kind: *kind },
        }
    }
}

} // verus!
