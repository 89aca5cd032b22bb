//! Tests of the core data structures.

use std::collections::HashMap;

use rule72::CatLine;
use rule72::Category;
use rule72::ContChunk;
use rule72::Document;
use rule72::ListItem;
use rule72::ListNode;
use rule72::Options;
use rule72::Scores;

#[test]
fn test_options_default() {
    let opts = Options::default();
    assert_eq!(opts.width, 72);
    assert_eq!(opts.headline_width, 50);
    assert_eq!(opts.debug_svg, None);
    assert_eq!(opts.debug_trace, false);
}

#[test]
fn test_options_clone() {
    let opts1 = Options {
        width: 80,
        headline_width: 60,
        debug_svg: Some("test.svg".to_string()),
        debug_trace: true,
    };
    let opts2 = opts1.clone();

    assert_eq!(opts1.width, opts2.width);
    assert_eq!(opts1.headline_width, opts2.headline_width);
    assert_eq!(opts1.debug_svg, opts2.debug_svg);
    assert_eq!(opts1.debug_trace, opts2.debug_trace);
}

#[test]
fn test_category_equality() {
    assert_eq!(Category::ProseGeneral, Category::ProseGeneral);
    assert_ne!(Category::ProseGeneral, Category::List);
    assert_ne!(Category::Code, Category::Comment);
}

#[test]
fn test_category_hash() {
    let mut map = HashMap::new();
    map.insert(Category::ProseGeneral, 1.0);
    map.insert(Category::List, 0.8);
    map.insert(Category::Code, 0.6);

    assert_eq!(map.get(&Category::ProseGeneral), Some(&1.0));
    assert_eq!(map.get(&Category::List), Some(&0.8));
    assert_eq!(map.get(&Category::Code), Some(&0.6));
    assert_eq!(map.get(&Category::Footer), None);
}

#[test]
fn test_catline_creation() {
    let scores = Scores {
        prose: 80,
        list: 20,
        ..Scores::zero()
    };

    let cat_line = CatLine {
        text: "Test line".to_string(),
        line_number: 0,
        indent: 2,
        scores,
        final_category: Category::ProseGeneral,
    };

    assert_eq!(cat_line.text, "Test line");
    assert_eq!(cat_line.line_number, 0);
    assert_eq!(cat_line.indent, 2);
    assert_eq!(cat_line.final_category, Category::ProseGeneral);
    assert_eq!(cat_line.scores.get(Category::ProseGeneral), 80);
}

#[test]
fn test_catline_clone() {
    let scores = Scores {
        prose: 80,
        ..Scores::zero()
    };

    let cat_line1 = CatLine {
        text: "Test line".to_string(),
        line_number: 0,
        indent: 2,
        scores,
        final_category: Category::ProseGeneral,
    };

    let cat_line2 = cat_line1.clone();

    assert_eq!(cat_line1.text, cat_line2.text);
    assert_eq!(cat_line1.line_number, cat_line2.line_number);
    assert_eq!(cat_line1.indent, cat_line2.indent);
    assert_eq!(cat_line1.final_category, cat_line2.final_category);
}

fn prose_line(text: &str, line_number: usize) -> CatLine {
    CatLine {
        text: text.to_string(),
        line_number,
        indent: 0,
        scores: Scores {
            prose: 100,
            ..Scores::zero()
        },
        final_category: Category::ProseGeneral,
    }
}

#[test]
fn test_document_creation() {
    let headline = prose_line("Test subject", 0);
    let body_line = prose_line("Body text", 1);

    let document = Document {
        headline: Some(headline),
        body_chunks: vec![ContChunk::Paragraph(vec![body_line])],
        footers: vec![],
    };

    assert!(document.headline.is_some());
    assert_eq!(document.body_chunks.len(), 1);
    assert_eq!(document.footers.len(), 0);

    if let Some(ref headline) = document.headline {
        assert_eq!(headline.text, "Test subject");
    }
}

fn list_line(text: &str, line_number: usize, indent: usize) -> CatLine {
    CatLine {
        text: text.to_string(),
        line_number,
        indent,
        scores: Scores {
            list: 100,
            ..Scores::zero()
        },
        final_category: Category::List,
    }
}

#[test]
fn test_list_node_creation() {
    let bullet_line = list_line("- First item", 0, 0);

    let item = ListItem {
        bullet_line,
        continuation: vec![],
        nested: None,
    };

    let list_node = ListNode {
        introduction: vec![],
        items: vec![item],
    };

    assert_eq!(list_node.introduction.len(), 0);
    assert_eq!(list_node.items.len(), 1);
    assert_eq!(list_node.items[0].bullet_line.text, "- First item");
    assert_eq!(list_node.items[0].continuation.len(), 0);
    assert!(list_node.items[0].nested.is_none());
}

#[test]
fn test_nested_list_item() {
    let bullet_line = list_line("- Parent item", 0, 0);
    let nested_bullet = list_line("  - Nested item", 1, 2);

    let nested_item = ListItem {
        bullet_line: nested_bullet,
        continuation: vec![],
        nested: None,
    };

    let nested_node = ListNode {
        introduction: vec![],
        items: vec![nested_item],
    };

    let parent_item = ListItem {
        bullet_line,
        continuation: vec![],
        nested: Some(Box::new(nested_node)),
    };

    assert!(parent_item.nested.is_some());

    if let Some(ref nested) = parent_item.nested {
        assert_eq!(nested.items.len(), 1);
        assert_eq!(nested.items[0].bullet_line.text, "  - Nested item");
    }
}

#[test]
fn test_cont_chunk_variants() {
    let line = prose_line("Test line", 0);

    let paragraph = ContChunk::Paragraph(vec![line.clone()]);
    let code = ContChunk::Code(vec![line.clone()]);
    let comment = ContChunk::Comment(vec![line.clone()]);
    let table = ContChunk::Table(vec![line]);

    match paragraph {
        ContChunk::Paragraph(lines) => assert_eq!(lines.len(), 1),
        _ => panic!("Expected Paragraph chunk"),
    }

    match code {
        ContChunk::Code(lines) => assert_eq!(lines.len(), 1),
        _ => panic!("Expected Code chunk"),
    }

    match comment {
        ContChunk::Comment(lines) => assert_eq!(lines.len(), 1),
        _ => panic!("Expected Comment chunk"),
    }

    match table {
        ContChunk::Table(lines) => assert_eq!(lines.len(), 1),
        _ => panic!("Expected Table chunk"),
    }
}

#[test]
fn test_scores_arg_max() {
    let s = Scores {
        footer: 90,
        prose: 10,
        ..Scores::zero()
    };
    assert_eq!(s.arg_max(), Category::Footer);
    assert_eq!(Scores::zero().arg_max(), Category::Empty);
}
