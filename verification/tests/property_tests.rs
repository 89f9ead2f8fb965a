use html_compare::{HtmlCompareError, HtmlCompareOptions, HtmlComparer, NodeKind};

#[test]
fn reflexivity_under_varied_options() {
    let doc = "<div class='a' id='x'><p>Hello <b>World</b></p><!--note--><ul><li>1</li></ul></div>";
    let option_sets = vec![
        HtmlCompareOptions::default(),
        html_compare::presets::relaxed(),
        html_compare::presets::strict(),
        html_compare::presets::markdown(),
        HtmlCompareOptions {
            ignore_whitespace: false,
            ignore_comments: false,
            ..Default::default()
        },
        HtmlCompareOptions {
            ignore_text: true,
            ignore_attributes: true,
            ..Default::default()
        },
        HtmlCompareOptions {
            ignore_sibling_order: true,
            ..Default::default()
        },
    ];
    for options in option_sets {
        let comparer = HtmlComparer::with_options(options);
        assert!(comparer.compare(doc, doc).is_ok());
    }
}

#[test]
fn symmetry_of_verdict() {
    let pairs = vec![
        ("<div><p>Hello</p></div>", "<div>\n  <p>Hello</p>\n</div>"),
        ("<div><p>a</p></div>", "<div><p>b</p></div>"),
        ("<div a='1'>x</div>", "<div a='2'>x</div>"),
        ("<div><p>x</p></div>", "<span><p>x</p></span>"),
        ("<div><p>x</p><p>y</p></div>", "<div><p>x</p></div>"),
    ];
    for (a, b) in pairs {
        let comparer = HtmlComparer::new();
        assert_eq!(
            comparer.compare(a, b).is_ok(),
            comparer.compare(b, a).is_ok(),
            "verdict differed when sides were swapped: {} vs {}",
            a,
            b
        );
    }
}

#[test]
fn symmetry_of_verdict_unordered() {
    let pairs = vec![
        ("<div><p>a</p><p>b</p></div>", "<div><p>b</p><p>a</p></div>"),
        ("<div><p>a</p><p>b</p></div>", "<div><p>b</p><p>c</p></div>"),
        ("<div><p>a</p></div>", "<div><span>a</span></div>"),
        ("<div><ul><li>1</li><li>2</li></ul><p>t</p></div>", "<div><p>t</p><ul><li>2</li><li>1</li></ul></div>"),
    ];
    for (a, b) in pairs {
        let comparer = HtmlComparer::with_options(HtmlCompareOptions {
            ignore_sibling_order: true,
            ..Default::default()
        });
        assert_eq!(
            comparer.compare(a, b).is_ok(),
            comparer.compare(b, a).is_ok(),
            "unordered verdict differed when sides were swapped: {} vs {}",
            a,
            b
        );
    }
}

#[test]
fn comments_break_unordered_self_comparison() {
    // Two comments never match in unordered mode unless comments are
    // ignored, so even an identical document with a comment fails against
    // itself under these options.
    let comparer = HtmlComparer::with_options(HtmlCompareOptions {
        ignore_sibling_order: true,
        ignore_comments: false,
        ..Default::default()
    });
    let doc = "<div><!--c--><p>x</p></div>";
    assert!(comparer.compare(doc, doc).is_err());
}

#[test]
fn template_contents_break_self_comparison() {
    // The parser places a template element's contents below a fragment node,
    // and a pair of fragment nodes is reported as a kind mismatch, so a
    // document with a template fails even against itself.
    let comparer = HtmlComparer::new();
    let doc = "<template><p>x</p></template>";
    match comparer.compare(doc, doc).unwrap_err() {
        HtmlCompareError::NodeKindMismatch { expected, actual, .. } => {
            assert_eq!(expected, NodeKind::Fragment);
            assert_eq!(actual, NodeKind::Fragment);
        }
        other => panic!("unexpected report: {:?}", other),
    }
}

#[test]
fn attribute_order_independence() {
    let comparer = HtmlComparer::new();
    assert!(comparer
        .compare("<div a='1' b='2'>x</div>", "<div b='2' a='1'>x</div>")
        .is_ok());
}

#[test]
fn whitespace_between_elements_independence() {
    let comparer = HtmlComparer::new();
    assert!(comparer
        .compare("<div><p>Hello</p></div>", "<div>\n  <p>Hello</p>\n</div>")
        .is_ok());
}

#[test]
fn internal_text_whitespace_is_significant() {
    let comparer = HtmlComparer::new();
    let result = comparer.compare("<p>Hello   World</p>", "<p>Hello World</p>");
    match result.unwrap_err() {
        HtmlCompareError::TextMismatch { expected, actual, .. } => {
            assert_eq!(expected, "Hello   World");
            assert_eq!(actual, "Hello World");
        }
        other => panic!("unexpected report: {:?}", other),
    }
}

#[test]
fn sibling_order_sensitivity_flips_with_flag() {
    let a = "<div><p>First</p><p>Second</p></div>";
    let b = "<div><p>Second</p><p>First</p></div>";
    let result = HtmlComparer::new().compare(a, b);
    match result.unwrap_err() {
        HtmlCompareError::TextMismatch { position, expected, actual } => {
            assert_eq!(position, 0);
            assert_eq!(expected, "First");
            assert_eq!(actual, "Second");
        }
        other => panic!("unexpected report: {:?}", other),
    }
    let unordered = HtmlComparer::with_options(HtmlCompareOptions {
        ignore_sibling_order: true,
        ..Default::default()
    });
    assert!(unordered.compare(a, b).is_ok());
}

#[test]
fn comment_exclusion_default() {
    let a = "<div><!--c--><p>x</p></div>";
    let b = "<div><p>x</p></div>";
    assert!(HtmlComparer::new().compare(a, b).is_ok());

    let keep_comments = HtmlComparer::with_options(HtmlCompareOptions {
        ignore_comments: false,
        ..Default::default()
    });
    match keep_comments.compare(a, b).unwrap_err() {
        HtmlCompareError::ChildCountMismatch { expected, actual } => {
            assert_eq!(expected, 2);
            assert_eq!(actual, 1);
        }
        other => panic!("unexpected report: {:?}", other),
    }
}

#[test]
fn attribute_exclusion_set() {
    let comparer = HtmlComparer::with_options(HtmlCompareOptions {
        ignored_attributes: vec!["id".to_string()],
        ..Default::default()
    });
    assert!(comparer
        .compare("<div id='a'>x</div>", "<div id='b'>x</div>")
        .is_ok());
}

#[test]
fn malformed_input_tolerance() {
    let comparer = HtmlComparer::new();
    assert!(comparer.compare("<p>Text", "<p>Text</p>").is_ok());
    match comparer.compare("<p>Text</p></p>", "<p>Text</p>").unwrap_err() {
        HtmlCompareError::ChildCountMismatch { expected, actual } => {
            assert_eq!(expected, 2);
            assert_eq!(actual, 1);
        }
        other => panic!("unexpected report: {:?}", other),
    }
}

#[test]
fn repeated_calls_give_identical_reports() {
    let comparer = HtmlComparer::with_options(HtmlCompareOptions {
        ignore_comments: false,
        ..Default::default()
    });
    let a = "<div class='x'><p>one</p><!-- left --></div>";
    let b = "<div class='x'><p>two</p><!-- right --></div>";
    let first = comparer.compare(a, b);
    let second = comparer.compare(a, b);
    assert_eq!(first, second);

    let ok_first = comparer.compare(a, a);
    let ok_second = comparer.compare(a, a);
    assert_eq!(ok_first, ok_second);
}

#[test]
fn comment_content_mismatch_report() {
    let comparer = HtmlComparer::with_options(HtmlCompareOptions {
        ignore_comments: false,
        ..Default::default()
    });
    let result = comparer.compare(
        "<div><!-- left --><p>x</p></div>",
        "<div><!-- right --><p>x</p></div>",
    );
    match result.unwrap_err() {
        HtmlCompareError::CommentMismatch { position, expected, actual } => {
            assert_eq!(position, 0);
            assert_eq!(expected, "left");
            assert_eq!(actual, "right");
        }
        other => panic!("unexpected report: {:?}", other),
    }
}

#[test]
fn no_matching_node_report() {
    let comparer = HtmlComparer::with_options(HtmlCompareOptions {
        ignore_sibling_order: true,
        ..Default::default()
    });
    let result = comparer.compare("<div><p>a</p></div>", "<div><p>b</p></div>");
    match result.unwrap_err() {
        // The greedy search fails at the outermost level that cannot be
        // matched: the whole document body.
        HtmlCompareError::NoMatchingNode { expected } => match expected {
            html_compare::HtmlNode::Element { tag, .. } => assert_eq!(tag, "body"),
            other => panic!("unexpected unmatched node: {:?}", other),
        },
        other => panic!("unexpected report: {:?}", other),
    }
}

#[test]
fn node_kind_mismatch_report() {
    let result = HtmlComparer::new().compare("<div>just text</div>", "<div><p>x</p></div>");
    match result.unwrap_err() {
        HtmlCompareError::NodeKindMismatch { position, expected, actual } => {
            assert_eq!(position, 0);
            assert_eq!(expected, NodeKind::Text);
            assert_eq!(actual, NodeKind::Element);
        }
        other => panic!("unexpected report: {:?}", other),
    }
}

#[test]
fn trimming_reaches_the_verdict() {
    // Leading and trailing whitespace in a text node is trimmed away under the
    // default options, but interior whitespace is kept.
    let comparer = HtmlComparer::new();
    assert!(comparer.compare("<p>  x  </p>", "<p>x</p>").is_ok());
    assert!(comparer.compare("<p>x y</p>", "<p>xy</p>").is_err());
    // Without the whitespace rule the same pair is unequal.
    let raw = HtmlComparer::with_options(HtmlCompareOptions {
        ignore_whitespace: false,
        ..Default::default()
    });
    assert!(raw.compare("<p>  x  </p>", "<p>x</p>").is_err());
}

#[test]
fn parsing_reaches_the_verdict() {
    // Distinct inputs give distinct parsed trees and a precise report.
    let comparer = HtmlComparer::new();
    match comparer.compare("<div>a</div>", "<div>b</div>").unwrap_err() {
        HtmlCompareError::TextMismatch { expected, actual, .. } => {
            assert_eq!(expected, "a");
            assert_eq!(actual, "b");
        }
        other => panic!("unexpected report: {:?}", other),
    }
    // Equivalent markup for the same document compares equal.
    assert!(comparer.compare("<br>", "<br/>").is_ok());
}
