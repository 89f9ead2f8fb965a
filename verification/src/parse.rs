use vstd::prelude::*;

use scraper::Node as PNode;

use crate::node::{HtmlNode, NodeKind, NodeV};

verus! {

#[verifier::external_type_specification]
#[verifier::external_body]
#[verifier::reject_recursive_types(T)]
pub struct ExNodeRef<'a, T: 'a>(ego_tree::NodeRef<'a, T>);

#[verifier::external_type_specification]
#[verifier::external_body]
pub struct ExNode(scraper::Node);

/// Named result of `str::trim`: the content without leading and trailing
/// Unicode whitespace. Trimming never touches interior characters.
pub uninterp spec fn trim_of(s: Seq<char>) -> Seq<char>;

/// Relies on `str::trim`: removes leading and trailing whitespace only, a
/// function of the characters alone.
#[verifier::external_body]
pub fn str_trim(s: &str) -> (r: &str)
    ensures
        r@ == trim_of(s@),
        s@.len() == 0 ==> r@.len() == 0,
{
    s.trim()
}

/// Relies on `str::eq`: string slices are equal exactly when their characters are.
#[verifier::external_body]
pub fn str_eq(a: &str, b: &str) -> (r: bool)
    ensures
        r == (a@ == b@),
{
    a == b
}

/// Named result of parsing an HTML document: the root `<html>` element of the
/// recovered tree, a function of the input text alone.
pub uninterp spec fn parse_of(s: Seq<char>) -> NodeV;

/// Relies on `scraper::Html::parse_document` and `Html::root_element`:
/// parsing recovers from malformed markup with standard HTML error-recovery
/// rules and always produces a root `<html>` element. With a fixed parser
/// version the recovered tree is a function of the input text alone.
#[verifier::external_body]
pub fn parse_root(html: &str) -> (r: HtmlNode)
    ensures
        r@ == parse_of(html@),
        r@ is Element,
{
    let document = scraper::Html::parse_document(html);
    convert_node(*document.root_element())
}

/// Relies on `ego_tree::NodeRef::{value, children}` and the `scraper::Node`
/// accessors: rebuilds the parsed tree as plain values, kind by kind, with
/// attributes in the parser's deterministic order.
#[verifier::external_body]
fn convert_node(n: ego_tree::NodeRef<'_, scraper::Node>) -> HtmlNode {
    match n.value() {
        PNode::Element(e) => HtmlNode::Element {
            tag: e.name().to_string(),
            attributes: e.attrs().map(|(k, v)| (k.to_string(), v.to_string())).collect(),
            children: n.children().map(convert_node).collect(),
        },
        PNode::Text(t) => HtmlNode::Text { text: t.to_string() },
        PNode::Comment(c) => HtmlNode::Comment { comment: c.to_string() },
        PNode::Doctype(_) => HtmlNode::Other { kind: NodeKind::Doctype },
        PNode::ProcessingInstruction(_) => HtmlNode::Other { kind: NodeKind::ProcessingInstruction },
        PNode::Document => HtmlNode::Other { kind: NodeKind::Document },
        PNode::Fragment => HtmlNode::Other { kind: NodeKind::Fragment },
    }
}

} // verus!
