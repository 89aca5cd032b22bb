//! Tests of the lexer, the context refiner and the document assembler.

use rule72::build_document;
use rule72::classify_with_context;
use rule72::lex_lines;
use rule72::Category;
use rule72::ContChunk;
use rule72::Options;

#[test]
fn test_lexer_basic() {
    let lines = vec![
        "# Comment",
        "Subject line",
        "",
        "Body paragraph",
        "- List item",
        "  continuation",
        "    code block",
        "| table | row |",
        "Signed-off-by: Author <email>",
    ];

    let opts = Options {
        width: 72,
        headline_width: 50,
        debug_svg: None,
        debug_trace: false,
    };
    let cat_lines = lex_lines(&lines, &opts);

    assert_eq!(cat_lines.len(), 9);
    assert_eq!(cat_lines[0].final_category, Category::Comment);
    assert_eq!(cat_lines[1].final_category, Category::ProseGeneral);
    assert_eq!(cat_lines[2].final_category, Category::Empty);
    assert_eq!(cat_lines[4].final_category, Category::List);
    assert_eq!(cat_lines[6].final_category, Category::Code);
    assert_eq!(cat_lines[7].final_category, Category::Table);
    assert_eq!(cat_lines[8].final_category, Category::Footer);
}

#[test]
fn test_lexer_urls() {
    let lines = vec![
        "Subject line",
        "Check out https://example.com",
        "See http://github.com/user/repo",
        "Visit ftp://files.example.org",
    ];

    let opts = Options::default();
    let cat_lines = lex_lines(&lines, &opts);

    // First line is subject, others should be URL
    assert_eq!(cat_lines[0].final_category, Category::ProseGeneral);
    assert_eq!(cat_lines[1].final_category, Category::URL);
    assert_eq!(cat_lines[2].final_category, Category::URL);
    assert_eq!(cat_lines[3].final_category, Category::URL);
}

#[test]
fn test_lexer_comments() {
    let lines = vec![
        "Subject line",
        "# Hash comment",
        "// Double slash comment",
        "/* Block comment start",
    ];

    let opts = Options::default();
    let cat_lines = lex_lines(&lines, &opts);

    assert_eq!(cat_lines[0].final_category, Category::ProseGeneral);
    assert_eq!(cat_lines[1].final_category, Category::Comment);
    assert_eq!(cat_lines[2].final_category, Category::Comment);
    // Block comment should be prose or code, not comment (our pattern is specific)
    assert_ne!(cat_lines[3].final_category, Category::Comment);
}

#[test]
fn test_lexer_code_detection() {
    let lines = vec![
        "Subject line",
        "        heavily indented",
        "    function() {",
        "lots!@#$%^&*()of{}special[]chars",
        "normal text with some punctuation.",
    ];

    let opts = Options::default();
    let cat_lines = lex_lines(&lines, &opts);

    assert_eq!(cat_lines[0].final_category, Category::ProseGeneral);
    assert_eq!(cat_lines[1].final_category, Category::Code); // 8 spaces
    assert_eq!(cat_lines[2].final_category, Category::Code); // 4 spaces
    assert_eq!(cat_lines[3].final_category, Category::Code); // high special char ratio
    assert_eq!(cat_lines[4].final_category, Category::ProseGeneral); // normal text
}

#[test]
fn test_lexer_list_items() {
    let lines = vec![
        "Subject line",
        "* Bullet item",
        "- Dash item",
        "  * Indented bullet",
        "1. Numbered item",
        "2) Paren numbered",
        "10. Double digit",
        "🔥 Emoji bullet",
        "✅ Check emoji",
    ];

    let opts = Options::default();
    let cat_lines = lex_lines(&lines, &opts);

    assert_eq!(cat_lines[0].final_category, Category::ProseGeneral);
    for i in 1..cat_lines.len() {
        assert_eq!(cat_lines[i].final_category, Category::List);
    }
}

#[test]
fn test_lexer_tables() {
    let lines = vec![
        "Subject line",
        "| Name | Value |",
        "| foo  | bar   |",
        "|left|right|",
        "| with | spaces |",
    ];

    let opts = Options::default();
    let cat_lines = lex_lines(&lines, &opts);

    assert_eq!(cat_lines[0].final_category, Category::ProseGeneral);
    for i in 1..cat_lines.len() {
        assert_eq!(cat_lines[i].final_category, Category::Table);
    }
}

#[test]
fn test_lexer_footers() {
    let lines = vec![
        "Subject line",
        "Signed-off-by: Author <email>",
        "Co-authored-by: Contributor <contrib@example.com>",
        "Reviewed-by: Bob <bob@example.com>",
        "Fixes: #123",
        "Closes: #456",
        "Resolves: #789",
    ];

    let opts = Options::default();
    let cat_lines = lex_lines(&lines, &opts);

    assert_eq!(cat_lines[0].final_category, Category::ProseGeneral);
    for i in 1..cat_lines.len() {
        assert_eq!(cat_lines[i].final_category, Category::Footer);
    }
}

#[test]
fn test_lexer_empty_lines() {
    let lines = vec!["Subject line", "", "   ", "\t", "Body text"];

    let opts = Options::default();
    let cat_lines = lex_lines(&lines, &opts);

    assert_eq!(cat_lines[0].final_category, Category::ProseGeneral);
    assert_eq!(cat_lines[1].final_category, Category::Empty);
    assert_eq!(cat_lines[2].final_category, Category::Empty);
    assert_eq!(cat_lines[3].final_category, Category::Empty);
    assert_eq!(cat_lines[4].final_category, Category::ProseGeneral);
}

#[test]
fn test_lexer_indentation_tracking() {
    let lines = vec![
        "Subject line",
        "  two spaces",
        "    four spaces",
        "\tone tab",
        "\t\ttwo tabs",
        "  \tmixed",
    ];

    let opts = Options::default();
    let cat_lines = lex_lines(&lines, &opts);

    assert_eq!(cat_lines[0].indent, 0);
    assert_eq!(cat_lines[1].indent, 2);
    assert_eq!(cat_lines[2].indent, 4);
    assert_eq!(cat_lines[3].indent, 4); // tab = 4 spaces
    assert_eq!(cat_lines[4].indent, 8); // 2 tabs = 8 spaces
    assert_eq!(cat_lines[5].indent, 6); // 2 spaces + 1 tab = 6
}

#[test]
fn test_lexer_line_numbers() {
    let lines = vec!["First line", "Second line", "Third line"];

    let opts = Options::default();
    let cat_lines = lex_lines(&lines, &opts);

    assert_eq!(cat_lines[0].line_number, 0);
    assert_eq!(cat_lines[1].line_number, 1);
    assert_eq!(cat_lines[2].line_number, 2);
}

#[test]
fn test_lexer_empty_input() {
    let lines: Vec<&str> = vec![];
    let opts = Options::default();
    let cat_lines = lex_lines(&lines, &opts);

    assert!(cat_lines.is_empty());
}

#[test]
fn test_lexer_probabilities() {
    let lines = vec!["Subject line"];
    let opts = Options::default();
    let cat_lines = lex_lines(&lines, &opts);

    assert_eq!(cat_lines.len(), 1);
    let scores = &cat_lines[0].scores;

    // Should have a positive score for the classified category
    assert!(scores.get(Category::ProseGeneral) > 0);
}

#[test]
fn test_context_classification() {
    let lines = vec![
        "Subject line",
        "",
        "This is an introduction:",
        "- First item",
        "- Second item",
        "  continuation",
    ];

    let opts = Options {
        width: 72,
        headline_width: 50,
        debug_svg: None,
        debug_trace: false,
    };
    let lexed = lex_lines(&lines, &opts);
    let classified = classify_with_context(lexed);

    // Introduction line should be detected (may be ProseGeneral or ProseIntroduction)
    assert!(matches!(
        classified[2].final_category,
        Category::ProseIntroduction | Category::ProseGeneral
    ));

    // List items should be properly classified
    assert_eq!(classified[3].final_category, Category::List);
    assert_eq!(classified[4].final_category, Category::List);
}

#[test]
fn test_refiner_preserves_count() {
    let lines = vec!["a", "", "- x", "    code();"];
    let opts = Options::default();
    let lexed = lex_lines(&lines, &opts);
    let n = lexed.len();
    let classified = classify_with_context(lexed);
    assert_eq!(classified.len(), n);
    let empty: Vec<&str> = vec![];
    assert_eq!(classify_with_context(lex_lines(&empty, &opts)).len(), 0);
}

#[test]
fn test_fixes_footer_regardless_of_neighbors() {
    // surrounded by code-looking neighbors, the literal tag still wins
    let lines = vec![
        "    code();",
        "    more();",
        "Fixes: #123",
        "    tail();",
        "    end();",
    ];
    let opts = Options::default();
    let classified = classify_with_context(lex_lines(&lines, &opts));
    assert_eq!(classified[2].final_category, Category::Footer);

    // the lowercase conventional-commit form is never a footer
    let lines = vec!["fix: handle empty input"];
    let classified = classify_with_context(lex_lines(&lines, &opts));
    assert_ne!(classified[0].final_category, Category::Footer);
}

#[test]
fn test_document_building() {
    let lines = vec![
        "Subject line",
        "",
        "Introduction:",
        "- First item",
        "- Second item",
        "",
        "Final paragraph",
    ];

    let opts = Options {
        width: 72,
        headline_width: 50,
        debug_svg: None,
        debug_trace: false,
    };
    let lexed = lex_lines(&lines, &opts);
    let classified = classify_with_context(lexed);
    let document = build_document(classified);

    assert!(document.headline.is_some());
    assert!(document.body_chunks.len() >= 3); // At least empty, list, paragraph

    // Find the list chunk (it may not be at index 1 due to different parsing)
    let has_list = document
        .body_chunks
        .iter()
        .any(|chunk| matches!(chunk, ContChunk::List(_)));
    assert!(has_list, "Document should contain a list chunk");
}

#[test]
fn test_document_with_footers() {
    let lines = vec![
        "Subject line",
        "",
        "Body paragraph",
        "",
        "Signed-off-by: Author <email>",
        "Co-authored-by: Contributor <contrib@example.com>",
    ];

    let opts = Options::default();
    let lexed = lex_lines(&lines, &opts);
    let classified = classify_with_context(lexed);
    let document = build_document(classified);

    assert!(document.headline.is_some());
    assert_eq!(document.footers.len(), 2);
    assert!(document.footers[0].text.contains("Signed-off-by"));
    assert!(document.footers[1].text.contains("Co-authored-by"));
}

#[test]
fn test_document_with_code_blocks() {
    let lines = vec![
        "Subject line",
        "",
        "Example code:",
        "    function test() {",
        "        return true;",
        "    }",
    ];

    let opts = Options::default();
    let lexed = lex_lines(&lines, &opts);
    let classified = classify_with_context(lexed);
    let document = build_document(classified);

    assert!(document.headline.is_some());

    // Should have code chunk
    let has_code = document
        .body_chunks
        .iter()
        .any(|chunk| matches!(chunk, ContChunk::Code(_)));
    assert!(has_code, "Document should contain a code chunk");
}

#[test]
fn test_document_with_tables() {
    let lines = vec![
        "Subject line",
        "",
        "Data table:",
        "| Name | Value |",
        "| foo  | bar   |",
        "| baz  | qux   |",
    ];

    let opts = Options::default();
    let lexed = lex_lines(&lines, &opts);
    let classified = classify_with_context(lexed);
    let document = build_document(classified);

    assert!(document.headline.is_some());

    // Should have table chunk
    let has_table = document
        .body_chunks
        .iter()
        .any(|chunk| matches!(chunk, ContChunk::Table(_)));
    assert!(has_table, "Document should contain a table chunk");
}

#[test]
fn test_document_with_comments() {
    let lines = vec![
        "Subject line",
        "",
        "# This is a comment",
        "// Another comment",
        "Regular text",
    ];

    let opts = Options::default();
    let lexed = lex_lines(&lines, &opts);
    let classified = classify_with_context(lexed);
    let document = build_document(classified);

    assert!(document.headline.is_some());

    // Should have comment chunk
    let has_comment = document
        .body_chunks
        .iter()
        .any(|chunk| matches!(chunk, ContChunk::Comment(_)));
    assert!(has_comment, "Document should contain a comment chunk");
}

#[test]
fn test_document_empty_body() {
    let lines = vec!["Subject line"];

    let opts = Options::default();
    let lexed = lex_lines(&lines, &opts);
    let classified = classify_with_context(lexed);
    let document = build_document(classified);

    assert!(document.headline.is_some());
    assert!(document.body_chunks.is_empty());
    assert!(document.footers.is_empty());
}

#[test]
fn test_document_nested_lists() {
    let lines = vec![
        "Subject line",
        "",
        "- First item",
        "  - Nested item 1",
        "  - Nested item 2",
        "- Second item",
    ];

    let opts = Options::default();
    let lexed = lex_lines(&lines, &opts);
    let classified = classify_with_context(lexed);
    let document = build_document(classified);

    assert!(document.headline.is_some());

    // Should have list chunk
    let has_list = document
        .body_chunks
        .iter()
        .any(|chunk| matches!(chunk, ContChunk::List(_)));
    assert!(has_list, "Document should contain a list chunk");
}

#[test]
fn test_document_only_footers() {
    let lines = vec!["Subject line", "", "Signed-off-by: Author <email>"];

    let opts = Options::default();
    let lexed = lex_lines(&lines, &opts);
    let classified = classify_with_context(lexed);
    let document = build_document(classified);

    assert!(document.headline.is_some());
    assert_eq!(document.footers.len(), 1);
    assert!(document.footers[0].text.contains("Signed-off-by"));
}

#[test]
fn test_nested_list_structure_exact() {
    // one top-level list of two items; the first carries a nested list of two
    let lines = vec![
        "- First item",
        "  - Nested item 1",
        "  - Nested item 2",
        "- Second item",
    ];
    let opts = Options::default();
    let classified = classify_with_context(lex_lines(&lines, &opts));
    let document = build_document(classified);

    let lists: Vec<&rule72::ListNode> = document
        .body_chunks
        .iter()
        .filter_map(|c| match c {
            ContChunk::List(n) => Some(n),
            _ => None,
        })
        .collect();
    assert_eq!(lists.len(), 1);
    let top = lists[0];
    assert_eq!(top.items.len(), 2);
    assert_eq!(top.items[0].bullet_line.text, "- First item");
    assert_eq!(top.items[1].bullet_line.text, "- Second item");
    let nested = top.items[0].nested.as_ref().expect("first item nests");
    assert_eq!(nested.items.len(), 2);
    assert!(top.items[1].nested.is_none());
    assert!(document.headline.is_none());
    assert!(document.footers.is_empty());
}
