use html_compare::{HtmlCompareError, HtmlCompareOptions, HtmlComparer, NodeKind};

fn assert_html_equal(left: &str, right: &str, options: HtmlCompareOptions) {
    let comparer = HtmlComparer::with_options(options);
    if let Err(err) = comparer.compare(left, right) {
        panic!(
            "HTML comparison failed: {:?}\nleft HTML:\n{}\nright HTML:\n{}",
            err, left, right
        );
    }
}

fn assert_html_not_equal(left: &str, right: &str, options: HtmlCompareOptions) {
    let comparer = HtmlComparer::with_options(options);
    if comparer.compare(left, right).is_ok() {
        panic!(
            "HTML strings were equal but expected to be different:\n{}\nvs\n{}",
            left, right
        );
    }
}

#[test]
fn test_basic_comparison() {
    assert_html_equal(
        "<div><p>Hello</p></div>",
        "<div><p>Hello</p></div>",
        HtmlCompareOptions::default(),
    );
}

#[test]
fn test_empty_elements() {
    assert_html_equal("<div></div>", "<div></div>", HtmlCompareOptions::default());
    assert_html_equal("<div></div>", "<div/>", HtmlCompareOptions::default());
    assert_html_equal("<br>", "<br/>", HtmlCompareOptions::default());
    assert_html_equal(
        "<img src='test.jpg'>",
        "<img src='test.jpg'/>",
        HtmlCompareOptions::default(),
    );

    // Empty elements with whitespace
    assert_html_equal("<div></div>", "<div>   </div>", HtmlCompareOptions::default());
    assert_html_equal("<p></p>", "<p>\n</p>", HtmlCompareOptions::default());
}

#[test]
fn test_whitespace_handling() {
    // ignore_whitespace only affects whitespace between elements, not within text content
    assert_html_not_equal(
        "<p>Hello   World</p>",
        "<p>Hello World</p>",
        HtmlCompareOptions::default(),
    );

    // Whitespace between elements is ignored by default
    assert_html_equal(
        "<div><p>Hello</p></div>",
        "<div>\n  <p>\n    Hello\n  </p>\n</div>",
        HtmlCompareOptions::default(),
    );

    // Whitespace at start/end of text content
    assert_html_equal(
        "<p>   Hello   </p>",
        "<p>Hello</p>",
        HtmlCompareOptions {
            ignore_whitespace: true,
            ..Default::default()
        },
    );

    // With whitespace preservation, element whitespace matters
    let strict_options = HtmlCompareOptions {
        ignore_whitespace: false,
        ..Default::default()
    };

    assert_html_not_equal(
        "<div><p>Hello</p></div>",
        "<div>\n  <p>\n    Hello\n  </p>\n</div>",
        strict_options.clone(),
    );

    // Multiple consecutive spaces in text
    assert_html_not_equal(
        "<p>Hello    World</p>",
        "<p>Hello World</p>",
        HtmlCompareOptions::default(),
    );
}

#[test]
fn test_text_content_whitespace() {
    // Text with various whitespace patterns
    assert_html_not_equal(
        "<p>Hello   World</p>",
        "<p>Hello World</p>",
        HtmlCompareOptions::default(),
    );

    assert_html_not_equal(
        "<p>Hello \t World</p>",
        "<p>Hello World</p>",
        HtmlCompareOptions::default(),
    );

    assert_html_not_equal(
        "<p>Hello\nWorld</p>",
        "<p>Hello World</p>",
        HtmlCompareOptions::default(),
    );

    // Exact whitespace matches
    assert_html_equal(
        "<p>Hello   World</p>",
        "<p>Hello   World</p>",
        HtmlCompareOptions::default(),
    );

    // Mixed whitespace and elements
    assert_html_equal(
        "<div>\n    <p>Hello   World</p>\n</div>",
        "<div><p>Hello   World</p></div>",
        HtmlCompareOptions {
            ignore_whitespace: true,
            ..Default::default()
        },
    );
}

#[test]
fn test_whitespace_with_multiple_text_nodes() {
    // Text nodes with elements between
    assert_html_equal(
        "<p>Hello <strong>beautiful</strong> World</p>",
        "<p>Hello <strong>beautiful</strong> World</p>",
        HtmlCompareOptions::default(),
    );

    // Different whitespace around elements should be ignored
    assert_html_equal(
        "<p>Hello<strong>beautiful</strong>World</p>",
        "<p>Hello <strong>beautiful</strong> World</p>",
        HtmlCompareOptions::default(),
    );
}

#[test]
fn test_attribute_handling() {
    // Different attribute order
    assert_html_equal(
        "<div class='test' id='1'>Test</div>",
        "<div id='1' class='test'>Test</div>",
        HtmlCompareOptions::default(),
    );

    // Different attribute values
    assert_html_not_equal(
        "<div class='test'>Test</div>",
        "<div class='different'>Test</div>",
        HtmlCompareOptions::default(),
    );

    // Multiple attributes
    assert_html_equal(
        "<div class='a b' id='1' data-test='value'>Content</div>",
        "<div data-test='value' class='a b' id='1'>Content</div>",
        HtmlCompareOptions::default(),
    );

    // Boolean attributes
    assert_html_equal(
        "<input type='checkbox' checked>",
        "<input checked type='checkbox'>",
        HtmlCompareOptions::default(),
    );

    // Ignored attributes
    let ignored_attrs = vec!["class".to_string(), "id".to_string()];

    assert_html_equal(
        "<div class='test' id='1'>Test</div>",
        "<div class='different' id='2'>Test</div>",
        HtmlCompareOptions {
            ignored_attributes: ignored_attrs,
            ..Default::default()
        },
    );

    // All attributes ignored
    assert_html_equal(
        "<div class='test' id='1' data-custom='value'>Test</div>",
        "<div class='different' id='2' data-custom='other'>Test</div>",
        HtmlCompareOptions {
            ignore_attributes: true,
            ..Default::default()
        },
    );
}

#[test]
fn test_text_handling() {
    // Basic text comparison
    assert_html_equal("<p>Hello World</p>", "<p>Hello World</p>", HtmlCompareOptions::default());

    // Different text content
    assert_html_not_equal(
        "<p>Hello World</p>",
        "<p>Goodbye World</p>",
        HtmlCompareOptions::default(),
    );

    // Text with special characters
    assert_html_equal(
        "<p>Hello &amp; World</p>",
        "<p>Hello &amp; World</p>",
        HtmlCompareOptions::default(),
    );

    // Mixed text and elements
    assert_html_equal(
        "<div>Hello <strong>World</strong>!</div>",
        "<div>Hello <strong>World</strong>!</div>",
        HtmlCompareOptions::default(),
    );

    // Text ignored
    assert_html_equal(
        "<p>Hello World</p>",
        "<p>Goodbye World</p>",
        HtmlCompareOptions {
            ignore_text: true,
            ..Default::default()
        },
    );
}

#[test]
fn test_nested_structure() {
    // Basic nesting
    assert_html_equal(
        "<div><section><h1>Title</h1><p>Text</p></section></div>",
        "<div><section><h1>Title</h1><p>Text</p></section></div>",
        HtmlCompareOptions::default(),
    );

    // Different nesting
    assert_html_not_equal(
        "<div><section><h1>Title</h1><p>Text</p></section></div>",
        "<div><h1>Title</h1><section><p>Text</p></section></div>",
        HtmlCompareOptions::default(),
    );

    // Deep nesting
    assert_html_equal(
        "<div><article><section><header><h1>Title</h1></header><p>Text</p></section></article></div>",
        "<div><article><section><header><h1>Title</h1></header><p>Text</p></section></article></div>",
        HtmlCompareOptions::default(),
    );

    // Multiple nested elements
    assert_html_equal(
        "<div><section><h1>Title</h1><p>Text</p></section><section><h2>Another</h2><p>More</p></section></div>",
        "<div><section><h1>Title</h1><p>Text</p></section><section><h2>Another</h2><p>More</p></section></div>",
        HtmlCompareOptions::default(),
    );
}

#[test]
fn test_comment_handling() {
    // Comments ignored by default
    assert_html_equal(
        "<div><!-- Comment --><p>Test</p></div>",
        "<div><p>Test</p></div>",
        HtmlCompareOptions::default(),
    );

    assert_html_equal(
        "<div><!-- Multiple --><!-- Comments --><p>Test</p></div>",
        "<div><p>Test</p></div>",
        HtmlCompareOptions::default(),
    );

    // Comments preserved
    let preserve_comments = HtmlCompareOptions {
        ignore_comments: false,
        ..Default::default()
    };

    // Same comments
    assert_html_equal(
        "<div><!-- Comment --><p>Test</p></div>",
        "<div><!-- Comment --><p>Test</p></div>",
        preserve_comments.clone(),
    );

    // Different comments
    assert_html_not_equal(
        "<div><!-- Comment 1 --><p>Test</p></div>",
        "<div><!-- Comment 2 --><p>Test</p></div>",
        preserve_comments.clone(),
    );

    // Missing comment
    assert_html_not_equal(
        "<div><!-- Comment --><p>Test</p></div>",
        "<div><p>Test</p></div>",
        preserve_comments,
    );
}

#[test]
fn test_sibling_order() {
    // Order matters by default
    assert_html_not_equal(
        "<div><p>First</p><p>Second</p></div>",
        "<div><p>Second</p><p>First</p></div>",
        HtmlCompareOptions::default(),
    );

    // Order ignored
    let ignore_order = HtmlCompareOptions {
        ignore_sibling_order: true,
        ..Default::default()
    };

    // Simple sibling swap
    assert_html_equal(
        "<div><p>First</p><p>Second</p></div>",
        "<div><p>Second</p><p>First</p></div>",
        ignore_order.clone(),
    );

    // Multiple siblings
    assert_html_equal(
        "<div><p>1</p><p>2</p><p>3</p></div>",
        "<div><p>3</p><p>1</p><p>2</p></div>",
        ignore_order.clone(),
    );

    // Nested siblings
    assert_html_equal(
        "<div><section><p>A</p><p>B</p></section><section><p>C</p><p>D</p></section></div>",
        "<div><section><p>B</p><p>A</p></section><section><p>D</p><p>C</p></section></div>",
        ignore_order,
    );
}

#[test]
fn test_special_characters() {
    // HTML entities
    assert_html_equal(
        "<p>&lt;div&gt; &amp; &quot;quotes&quot;</p>",
        "<p>&lt;div&gt; &amp; &quot;quotes&quot;</p>",
        HtmlCompareOptions::default(),
    );

    // Unicode characters
    assert_html_equal(
        "<p>Hello ‰∏ñÁïå üåç</p>",
        "<p>Hello ‰∏ñÁïå üåç</p>",
        HtmlCompareOptions::default(),
    );

    // Mixed entities and Unicode
    assert_html_equal(
        "<p>&copy; 2024 ‚Ä¢ Hello ‰∏ñÁïå</p>",
        "<p>&copy; 2024 ‚Ä¢ Hello ‰∏ñÁïå</p>",
        HtmlCompareOptions::default(),
    );

    // Different entities representing same character
    assert_html_equal(
        "<p>&quot;quoted&quot;</p>",
        "<p>&#34;quoted&#34;</p>",
        HtmlCompareOptions::default(),
    );
}

#[test]
fn test_error_messages() {
    // Tag mismatch report
    let result = HtmlComparer::new().compare("<div>Test</div>", "<span>Test</span>");
    assert!(result.is_err());
    match result.unwrap_err() {
        HtmlCompareError::TagMismatch { expected, actual } => {
            assert_eq!(expected, "div");
            assert_eq!(actual, "span");
        }
        other => panic!("unexpected report: {:?}", other),
    }

    // Attribute mismatch report
    let result = HtmlComparer::new().compare(
        "<div class='test'>Content</div>",
        "<div class='different'>Content</div>",
    );
    assert!(result.is_err());
    match result.unwrap_err() {
        HtmlCompareError::AttributeMismatch { expected, actual } => {
            assert_eq!(expected, vec![("class".to_string(), "test".to_string())]);
            assert_eq!(actual, vec![("class".to_string(), "different".to_string())]);
        }
        other => panic!("unexpected report: {:?}", other),
    }

    // Text content mismatch report
    let result = HtmlComparer::new().compare("<div>Hello</div>", "<div>World</div>");
    assert!(result.is_err());
    match result.unwrap_err() {
        HtmlCompareError::TextMismatch { position, expected, actual } => {
            assert_eq!(position, 0);
            assert_eq!(expected, "Hello");
            assert_eq!(actual, "World");
        }
        other => panic!("unexpected report: {:?}", other),
    }

    // Structure mismatch report
    let result = HtmlComparer::new().compare("<div><p>Text</p></div>", "<div>Text</div>");
    assert!(result.is_err());
    match result.unwrap_err() {
        HtmlCompareError::NodeKindMismatch { position, expected, actual } => {
            assert_eq!(position, 0);
            assert_eq!(expected, NodeKind::Element);
            assert_eq!(actual, NodeKind::Text);
        }
        other => panic!("unexpected report: {:?}", other),
    }
}

#[test]
fn test_preset_configurations() {
    // Test relaxed preset
    let _relaxed = HtmlComparer::with_options(html_compare::presets::relaxed());
    assert_html_equal(
        "<div class='a'><p>First</p><p>Second</p></div>",
        "<div class='b'><p>Second</p><p>First</p></div>",
        html_compare::presets::relaxed(),
    );

    // Test strict preset
    assert_html_equal(
        "<div class='test'><!--comment--><p>Content</p></div>",
        "<div class='test'><!--comment--><p>Content</p></div>",
        html_compare::presets::strict(),
    );

    assert_html_not_equal(
        "<div class='test'>Content</div>",
        "<div class='different'>Content</div>",
        html_compare::presets::strict(),
    );

    // Test markdown preset
    assert_html_equal(
        "<h1 id='heading-1'>Title</h1><p>Content</p>",
        "<h1 id='different-id'>Title</h1><p>Content</p>",
        html_compare::presets::markdown(),
    );
}

#[test]
fn test_mixed_scenarios() {
    // Combine multiple options
    let custom_options = HtmlCompareOptions {
        ignore_whitespace: true,
        ignore_comments: true,
        ignore_sibling_order: true,
        ignored_attributes: vec!["class".to_string()],
        ..Default::default()
    };

    assert_html_equal(
        "<div class='a'><!-- comment -->\n  <p>First</p>\n  <p>Second</p>\n</div>",
        "<div class='b'><p>Second</p><p>First</p></div>",
        custom_options,
    );

    // Mix text and structural comparison
    let mixed_content = HtmlCompareOptions {
        ignore_whitespace: true,
        ignore_sibling_order: true,
        ..Default::default()
    };

    assert_html_equal(
        "<div>\n  <p>Text</p>\n  <ul><li>A</li><li>B</li></ul>\n</div>",
        "<div><ul><li>B</li><li>A</li></ul><p>Text</p></div>",
        mixed_content,
    );
}

#[test]
fn test_edge_cases() {
    // Empty HTML
    assert_html_equal("", "", HtmlCompareOptions::default());

    // Just whitespace
    assert_html_equal("   ", "", HtmlCompareOptions::default());
    assert_html_equal("\n\t  \n", "", HtmlCompareOptions::default());

    // Single text node
    assert_html_equal("Hello", "Hello", HtmlCompareOptions::default());

    // Deeply nested single element
    assert_html_equal(
        "<div><div><div><div><div>Text</div></div></div></div></div>",
        "<div><div><div><div><div>Text</div></div></div></div></div>",
        HtmlCompareOptions::default(),
    );

    // Many siblings
    let mut many_siblings1 = String::with_capacity(1000);
    let mut many_siblings2 = String::with_capacity(1000);
    for i in 0..100 {
        many_siblings1.push_str("<p>");
        many_siblings1.push_str(&i.to_string());
        many_siblings1.push_str("</p>");

        many_siblings2.push_str("<p>");
        many_siblings2.push_str(&i.to_string());
        many_siblings2.push_str("</p>");
    }
    assert_html_equal(
        &format!("<div>{}</div>", many_siblings1),
        &format!("<div>{}</div>", many_siblings2),
        HtmlCompareOptions::default(),
    );

    // HTML with all sorts of content
    assert_html_equal(
        r#"<div class="wrapper" id="main">
                <!-- Header section -->
                <header class="header">
                    <h1>Title &amp; Subtitle</h1>
                </header>
                <main>
                    <p>Hello ‰∏ñÁïå!</p>
                    <ul>
                        <li>Item 1</li>
                        <li>Item 2</li>
                    </ul>
                    <img src="test.jpg" alt="Test Image"/>
                </main>
                <!-- Footer section -->
                <footer>
                    <p>&copy; 2024</p>
                </footer>
            </div>"#,
        r#"<div class="wrapper" id="main"><header class="header"><h1>Title &amp; Subtitle</h1></header><main><p>Hello ‰∏ñÁïå!</p><ul><li>Item 1</li><li>Item 2</li></ul><img src="test.jpg" alt="Test Image"/></main><footer><p>&copy; 2024</p></footer></div>"#,
        HtmlCompareOptions::default(),
    );
}

#[test]
fn test_malformed_html() {
    // Unclosed tags (should be handled by HTML parser)
    assert_html_equal("<p>Text", "<p>Text</p>", HtmlCompareOptions::default());

    // Extra closing tags - parser treats them as additional elements
    assert_html_not_equal("<p>Text</p></p>", "<p>Text</p>", HtmlCompareOptions::default());

    // The specific report produced with extra closing tags
    let result = HtmlComparer::new().compare("<p>Text</p></p>", "<p>Text</p>");
    assert!(result.is_err());
    match result.unwrap_err() {
        HtmlCompareError::ChildCountMismatch { expected, actual } => {
            assert_eq!(expected, 2);
            assert_eq!(actual, 1);
        }
        other => panic!("unexpected report: {:?}", other),
    }

    // Mismatched tags are typically corrected by the parser; observe the
    // actual behavior rather than assuming one
    let result = HtmlComparer::new().compare(
        "<p><strong>Text</p></strong>",
        "<p><strong>Text</strong></p>",
    );
    if let Err(e) = result {
        println!("Actual parser behavior for mismatched tags: {:?}", e);
    }
}
