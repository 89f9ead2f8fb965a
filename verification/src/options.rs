use vstd::prelude::*;

verus! {

/// The model of a set of comparison options.
pub struct OptsV {
    pub ignore_whitespace: bool,
    pub ignore_attributes: bool,
    pub ignored_attributes: Seq<Seq<char>>,
    pub ignore_text: bool,
    pub ignore_comments: bool,
    pub ignore_sibling_order: bool,
}

/// Configuration for HTML comparison.
///
/// A plain immutable value, copied into the comparer that runs with it.
#[derive(Debug, Clone)]
pub struct HtmlCompareOptions {
    /// Trim text nodes before comparison and exclude whitespace-only text nodes.
    pub ignore_whitespace: bool,
    /// Skip attribute comparison entirely.
    pub ignore_attributes: bool,
    /// Attribute names excluded from comparison when `ignore_attributes` is false.
    pub ignored_attributes: Vec<String>,
    /// Exclude text nodes from comparison entirely.
    pub ignore_text: bool,
    /// Exclude comment nodes from comparison entirely.
    pub ignore_comments: bool,
    /// Compare children as a multiset instead of position by position.
    pub ignore_sibling_order: bool,
}

impl View for HtmlCompareOptions {
    type V = OptsV;

    open spec fn view(&self) -> OptsV {
        OptsV {
            ignore_whitespace: self.ignore_whitespace,
            ignore_attributes: self.ignore_attributes,
            ignored_attributes: self.ignored_attributes.deep_view(),
            ignore_text: self.ignore_text,
            ignore_comments: self.ignore_comments,
            ignore_sibling_order: self.ignore_sibling_order,
        }
    }
}

/// The options every comparison starts from: whitespace between elements and
/// comments are ignored, everything else is compared.
pub open spec fn default_options() -> OptsV {
    OptsV {
        ignore_whitespace: true,
        ignore_attributes: false,
        ignored_attributes: Seq::empty(),
        ignore_text: false,
        ignore_comments: true,
        ignore_sibling_order: false,
    }
}

impl Default for HtmlCompareOptions {
    /// The default options.
    fn default() -> (r: Self)
        ensures
            r@ == default_options(),
    {
        let r = HtmlCompareOptions {
            ignore_whitespace: true,
            ignore_attributes: false,
            ignored_attributes: Vec::new(),
            ignore_text: false,
            ignore_comments: true,
            ignore_sibling_order: false,
        };
        proof {
            assert(r.ignored_attributes.deep_view() =~= Seq::<Seq<char>>::empty());
        }
        r
    }
}

} // verus!
