//! Tests of the renderer and of the whole transform.

use rule72::build_document;
use rule72::classify_with_context;
use rule72::display_width;
use rule72::lex_lines;
use rule72::pretty_print;
use rule72::reflow;
use rule72::wrap_text;
use rule72::Document;
use rule72::Options;

#[test]
fn test_wrap_simple() {
    let text = "This is a long line that should be wrapped at some reasonable point to fit within the specified width limit";
    let wrapped = wrap_text(text, 20);

    assert!(wrapped.len() > 1);
    for line in wrapped {
        assert!(display_width(&line) <= 20);
    }
}

#[test]
fn test_pretty_print_integration() {
    let lines = vec![
        "Short subject",
        "",
        "- A very long list item that should definitely be wrapped when it exceeds the specified width limit for the document",
        "- Short item",
    ];

    let opts = Options {
        width: 50,
        headline_width: 50,
        debug_svg: None,
        debug_trace: false,
    };

    let lexed = lex_lines(&lines, &opts);
    let classified = classify_with_context(lexed);
    let document = build_document(classified);
    let output = pretty_print(&document, &opts);

    assert!(output.contains("Short subject"));
    assert!(output.contains("- A very long list item"));
}

#[test]
fn test_pretty_print_code_blocks() {
    let lines = vec![
        "Subject line",
        "",
        "Example:",
        "    function test() {",
        "        return true;",
        "    }",
    ];

    let opts = Options::default();
    let lexed = lex_lines(&lines, &opts);
    let classified = classify_with_context(lexed);
    let document = build_document(classified);
    let output = pretty_print(&document, &opts);

    // Code should be preserved as-is
    assert!(output.contains("    function test() {"));
    assert!(output.contains("        return true;"));
    assert!(output.contains("    }"));
}

#[test]
fn test_pretty_print_tables() {
    let lines = vec![
        "Subject line",
        "",
        "Data:",
        "| Name | Value |",
        "| foo  | bar   |",
    ];

    let opts = Options::default();
    let lexed = lex_lines(&lines, &opts);
    let classified = classify_with_context(lexed);
    let document = build_document(classified);
    let output = pretty_print(&document, &opts);

    // Tables should be preserved as-is
    assert!(output.contains("| Name | Value |"));
    assert!(output.contains("| foo  | bar   |"));
}

#[test]
fn test_pretty_print_comments() {
    let lines = vec![
        "Subject line",
        "",
        "# This is a comment",
        "// Another comment",
    ];

    let opts = Options::default();
    let lexed = lex_lines(&lines, &opts);
    let classified = classify_with_context(lexed);
    let document = build_document(classified);
    let output = pretty_print(&document, &opts);

    // Comments should be preserved as-is
    assert!(output.contains("# This is a comment"));
    assert!(output.contains("// Another comment"));
}

#[test]
fn test_pretty_print_footers() {
    let lines = vec![
        "Subject line",
        "",
        "Body text",
        "",
        "Signed-off-by: Author <email>",
        "Co-authored-by: Contributor <contrib@example.com>",
    ];

    let opts = Options::default();
    let lexed = lex_lines(&lines, &opts);
    let classified = classify_with_context(lexed);
    let document = build_document(classified);
    let output = pretty_print(&document, &opts);

    // Footers should be separated by blank line
    assert!(output.contains("Signed-off-by: Author <email>"));
    assert!(output.contains("Co-authored-by: Contributor <contrib@example.com>"));

    // Should have blank line before footers
    let lines: Vec<&str> = output.trim().split('\n').collect();
    let signed_off_idx = lines
        .iter()
        .position(|&l| l.contains("Signed-off-by"))
        .unwrap();
    assert!(signed_off_idx > 0);
    assert_eq!(lines[signed_off_idx - 1], "");
}

#[test]
fn test_pretty_print_empty_lines() {
    let lines = vec!["Subject line", "", "", "Body text"];

    let opts = Options::default();
    let lexed = lex_lines(&lines, &opts);
    let classified = classify_with_context(lexed);
    let document = build_document(classified);
    let output = pretty_print(&document, &opts);

    // Empty lines should be preserved
    assert!(output.contains("Subject line"));
    assert!(output.contains("Body text"));

    // Should have empty lines in output
    let output_lines: Vec<&str> = output.trim().split('\n').collect();
    assert!(output_lines.iter().any(|&l| l.is_empty()));
}

#[test]
fn test_pretty_print_paragraph_wrapping() {
    let lines = vec![
        "Subject line",
        "",
        "This is a very long paragraph that should definitely be wrapped when it exceeds the specified width limit for the document formatting",
    ];

    let opts = Options {
        width: 50,
        headline_width: 50,
        debug_svg: None,
        debug_trace: false,
    };

    let lexed = lex_lines(&lines, &opts);
    let classified = classify_with_context(lexed);
    let document = build_document(classified);
    let output = pretty_print(&document, &opts);

    // Paragraph should be wrapped
    let output_lines: Vec<&str> = output.trim().split('\n').collect();
    let body_lines: Vec<&str> = output_lines
        .iter()
        .filter(|&&l| !l.is_empty() && l != "Subject line")
        .cloned()
        .collect();

    // Should have multiple lines from wrapping
    assert!(body_lines.len() > 1);

    // Each line should be within width limit
    for line in body_lines {
        assert!(display_width(line) <= 50);
    }
}

#[test]
fn test_pretty_print_mixed_content() {
    let lines = vec![
        "Subject line",
        "",
        "Introduction paragraph",
        "",
        "- List item one",
        "- List item two",
        "",
        "    code block",
        "",
        "Final paragraph",
        "",
        "Signed-off-by: Author <email>",
    ];

    let opts = Options::default();
    let lexed = lex_lines(&lines, &opts);
    let classified = classify_with_context(lexed);
    let document = build_document(classified);
    let output = pretty_print(&document, &opts);

    // All content types should be present
    assert!(output.contains("Subject line"));
    assert!(output.contains("Introduction paragraph"));
    assert!(output.contains("- List item one"));
    assert!(output.contains("    code block"));
    assert!(output.contains("Final paragraph"));
    assert!(output.contains("Signed-off-by: Author <email>"));
}

#[test]
fn test_pretty_print_empty_document() {
    let document = Document {
        headline: None,
        body_chunks: Vec::new(),
        footers: Vec::new(),
    };

    let opts = Options::default();
    let output = pretty_print(&document, &opts);

    // Should just be a newline
    assert_eq!(output, "\n");
}

#[test]
fn test_integration() {
    let input =
        "Subject line\n\n- First item\n- Second item\n\nSigned-off-by: Test <test@example.com>";
    let opts = Options {
        width: 72,
        headline_width: 50,
        debug_svg: None,
        debug_trace: false,
    };

    let output = reflow(input, &opts);
    assert!(output.contains("Subject line"));
    assert!(output.contains("- First item"));
    assert!(output.contains("Signed-off-by:"));
}

#[test]
fn test_reflow_list_and_footer_spacing() {
    // exactly one blank line between the list and the footer
    let input = "Subject\n\n- First item\n- Second item\n\nSigned-off-by: Test <test@example.com>";
    let opts = Options::default();
    let output = reflow(input, &opts);
    assert!(output.contains("Subject"));
    assert!(output.contains("- First item"));
    assert!(output.contains("- Second item"));
    assert!(output.contains("Signed-off-by:"));
    assert!(output.contains("- Second item\n\nSigned-off-by:"));
    assert!(!output.contains("\n\n\nSigned-off-by:"));
}

#[test]
fn test_reflow_exact_paragraph_wrap() {
    let input =
        "Subject line\n\nThis is a very long paragraph that should wrap nicely at twenty cols.";
    let opts = Options {
        width: 20,
        headline_width: 50,
        debug_svg: None,
        debug_trace: false,
    };
    let output = reflow(input, &opts);
    assert_eq!(
        output,
        "Subject line\n\nThis is a very long\nparagraph that\nshould wrap nicely\nat twenty cols.\n"
    );
}

#[test]
fn test_reflow_single_line() {
    // a single non-blank line with no trailing newline: that line plus one newline
    let input = "Only a subject";
    let opts = Options::default();
    let output = reflow(input, &opts);
    assert_eq!(output, "Only a subject\n");

    let classified = classify_with_context(lex_lines(&vec![input], &opts));
    let document = build_document(classified);
    assert!(document.body_chunks.is_empty());
    assert!(document.footers.is_empty());
}

#[test]
fn test_reflow_empty_input() {
    let opts = Options::default();
    assert_eq!(reflow("", &opts), "\n");
}

#[test]
fn test_reflow_second_run_keeps_widths() {
    // re-running the transform at the same width never pushes a
    // reflow-eligible line beyond the body width
    let input = "Subject\n\nA long paragraph of prose that needs rewrapping at a narrow width to check stability of the result.\n\n- a long list item that also needs to be rewrapped at the same narrow width";
    let opts = Options {
        width: 24,
        headline_width: 50,
        debug_svg: None,
        debug_trace: false,
    };
    let once = reflow(input, &opts);
    let twice = reflow(&once, &opts);
    for line in twice.lines().skip(1) {
        // every rewrapped line holds at most 24 columns (no single word
        // in the input is wider)
        assert!(display_width(line) <= 24, "line too wide: {:?}", line);
    }
}

#[test]
fn test_reflow_bullet_wider_than_width() {
    // a bullet prefix at least as wide as the body width clamps the
    // continuation wrap width to one column instead of faulting
    let input = "Subject\n\n        - this item is indented so deep that nothing fits after the bullet";
    let opts = Options {
        width: 8,
        headline_width: 50,
        debug_svg: None,
        debug_trace: false,
    };
    let output = reflow(input, &opts);
    assert!(output.contains("this"));
    assert!(output.contains("bullet"));
}

#[test]
fn test_reflow_preserves_code_table_comment_order() {
    let input = "Subject\n\n# one\n\n| a | b |\n\n    code();\n\nSigned-off-by: A <a@b.c>";
    let opts = Options::default();
    let output = reflow(input, &opts);
    let p_comment = output.find("# one").unwrap();
    let p_table = output.find("| a | b |").unwrap();
    let p_code = output.find("    code();").unwrap();
    let p_footer = output.find("Signed-off-by:").unwrap();
    assert!(p_comment < p_table && p_table < p_code && p_code < p_footer);
}

#[test]
fn test_reflow_crlf_lines() {
    let input = "Subject\r\n\r\nBody text here.\r\n";
    let opts = Options::default();
    let output = reflow(input, &opts);
    assert_eq!(output, "Subject\n\nBody text here.\n");
}
