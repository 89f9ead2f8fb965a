use vstd::prelude::*;

use crate::options::{HtmlCompareOptions, OptsV};

verus! {

/// Options that ignore all formatting differences: whitespace, attributes,
/// comments and sibling order.
pub fn relaxed() -> (r: HtmlCompareOptions)
    ensures
        r@ == (OptsV {
            ignore_whitespace: true,
            ignore_attributes: true,
            ignored_attributes: Seq::empty(),
            ignore_text: false,
            ignore_comments: true,
            ignore_sibling_order: true,
        }),
{
    let r = HtmlCompareOptions {
        ignore_whitespace: true,
        ignore_attributes: true,
        ignored_attributes: Vec::new(),
        ignore_text: false,
        ignore_comments: true,
        ignore_sibling_order: true,
    };
    proof {
        assert(r.ignored_attributes.deep_view() =~= Seq::<Seq<char>>::empty());
    }
    r
}

/// Options that are strict about everything except whitespace: comments and
/// sibling order are compared.
pub fn strict() -> (r: HtmlCompareOptions)
    ensures
        r@ == (OptsV {
            ignore_whitespace: true,
            ignore_attributes: false,
            ignored_attributes: Seq::empty(),
            ignore_text: false,
            ignore_comments: false,
            ignore_sibling_order: false,
        }),
{
    let r = HtmlCompareOptions {
        ignore_whitespace: true,
        ignore_attributes: false,
        ignored_attributes: Vec::new(),
        ignore_text: false,
        ignore_comments: false,
        ignore_sibling_order: false,
    };
    proof {
        assert(r.ignored_attributes.deep_view() =~= Seq::<Seq<char>>::empty());
    }
    r
}

/// Options suited to comparing rendered markdown: whitespace and comments are
/// ignored, and so is the `id` attribute, while order is preserved.
pub fn markdown() -> (r: HtmlCompareOptions)
    ensures
        r@ == (OptsV {
            ignore_whitespace: true,
            ignore_attributes: false,
            ignored_attributes: seq!["id"@],
            ignore_text: false,
            ignore_comments: true,
            ignore_sibling_order: false,
        }),
{
    let mut ignored: Vec<String> = Vec::new();
    ignored.push("id".to_string());
    let r = HtmlCompareOptions {
        ignore_whitespace: true,
        ignore_attributes: false,
        ignored_attributes: ignored,
        ignore_text: false,
        ignore_comments: true,
        ignore_sibling_order: false,
    };
    proof {
        assert(r.ignored_attributes.deep_view() =~= seq!["id"@]);
    }
    r
}

} // verus!
