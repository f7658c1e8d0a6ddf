use pdfclean::handlers::{HeadingHandler, ImageHandler, TableHandler, WhitespaceHandler};
use pdfclean::node::Node;
use pdfclean::processor::{MarkdownProcessor, RegisteredHandler};

/// Helper function to create a processor with all handlers
fn create_processor() -> MarkdownProcessor {
    let mut processor = MarkdownProcessor::new();

    // Add ImageHandler first to protect images from whitespace processing
    let image_handler = ImageHandler::new();
    processor.add_handler(RegisteredHandler::Image(image_handler));

    // Add TableHandler to protect tables from whitespace processing
    let table_handler = TableHandler::new();
    processor.add_handler(RegisteredHandler::Table(table_handler));

    let whitespace_handler = WhitespaceHandler::new();
    processor.add_handler(RegisteredHandler::Whitespace(whitespace_handler));

    processor
}

/// Count the number of image references in markdown content
fn count_images(content: &str) -> usize {
    content.matches("![").count()
}

fn text(value: &str) -> Node {
    Node::Text {
        value: value.to_string(),
    }
}

fn paragraph(children: Vec<Node>) -> Node {
    Node::Paragraph { children }
}

fn heading(depth: u8, children: Vec<Node>) -> Node {
    Node::Heading { depth, children }
}

fn root(children: Vec<Node>) -> Node {
    Node::Root { children }
}

#[test]
fn test_whitespace_only_cleaning() {
    let processor = create_processor();

    // Test with content that has only whitespace changes, no images or tables
    let input = root(vec![
        heading(1, vec![text("テスト　　　見出し")]),
        paragraph(vec![text("段落　　　テスト　　　です。")]),
        paragraph(vec![text("最終　　　段落。")]),
    ]);
    let expected = "# テスト見出し\n\n段落テストです。\n\n最終段落。";

    let result = processor.process(&input).expect("Processing should succeed");

    assert_eq!(result.trim(), expected.trim(), "Whitespace-only cleaning failed");
}

#[test]
fn test_edge_cases() {
    let processor = create_processor();

    // Test empty content
    let result = processor
        .process(&root(vec![]))
        .expect("Processing empty content should succeed");
    assert_eq!(result.trim(), "", "Empty content should remain empty");

    // Test only images
    let image_only = root(vec![
        paragraph(vec![Node::Image {
            alt: "test".to_string(),
            url: "test.jpg".to_string(),
        }]),
        paragraph(vec![Node::Image {
            alt: "test2".to_string(),
            url: "test2.png".to_string(),
        }]),
    ]);
    let result = processor
        .process(&image_only)
        .expect("Processing image-only content should succeed");
    assert_eq!(count_images(&result), 2, "Image-only content should preserve both images");

    // Test only tables
    let table_only = root(vec![paragraph(vec![text("| A | B |\n|---|---|\n| 1 | 2 |")])]);
    let result = processor
        .process(&table_only)
        .expect("Processing table-only content should succeed");
    assert!(result.contains("| A | B |"), "Table-only content should preserve table structure");
}

#[test]
fn test_heading_rule_scenario() {
    let mut processor = MarkdownProcessor::new();
    let handler = HeadingHandler::new("Hello", "Hi".to_string()).expect("pattern compiles");
    processor.add_handler(RegisteredHandler::Heading(handler));

    let input = root(vec![heading(1, vec![text("Hello World")])]);
    let result = processor.process(&input).expect("Processing should succeed");
    assert_eq!(result, "# Hi World");
}

#[test]
fn test_heading_filter_skips_paragraphs() {
    let mut processor = MarkdownProcessor::new();
    let handler = HeadingHandler::new("Hello", "Hi".to_string()).expect("pattern compiles");
    processor.add_handler(RegisteredHandler::Heading(handler));

    let input = root(vec![paragraph(vec![text("Hello World")])]);
    let result = processor.process(&input).expect("Processing should succeed");
    assert_eq!(result, "Hello World");
}

#[test]
fn test_table_only_scenario() {
    let processor = create_processor();
    let input = root(vec![paragraph(vec![text("| A | B |\n|---|---|\n| 1 | 2 |")])]);
    let result = processor.process(&input).expect("Processing should succeed");
    assert!(result.contains("| A | B |"));
    assert_eq!(result, "| A | B |\n|---|---|\n| 1 | 2 |");
}

#[test]
fn test_empty_input_scenario() {
    let processor = create_processor();
    let result = processor.process(&root(vec![])).expect("Processing should succeed");
    assert_eq!(result, "");
}

#[test]
fn test_idempotence_on_cleaned_text() {
    // A second run over already-cleaned prose yields the same text.
    let processor = create_processor();
    let input = root(vec![
        heading(1, vec![text("見出し　　です")]),
        paragraph(vec![text("本文　　　その一。")]),
    ]);
    let once = processor.process(&input).expect("first run succeeds");

    // Feed the cleaned text back in as the parser would deliver it.
    let mut blocks: Vec<Node> = Vec::new();
    for block in once.split("\n\n") {
        if let Some(rest) = block.strip_prefix("# ") {
            blocks.push(heading(1, vec![text(rest)]));
        } else {
            blocks.push(paragraph(vec![text(block)]));
        }
    }
    let twice = processor.process(&root(blocks)).expect("second run succeeds");
    assert_eq!(twice, once);
}

#[test]
fn test_image_count_preserved() {
    let processor = create_processor();
    let input = root(vec![
        paragraph(vec![text("説明　　文")]),
        paragraph(vec![Node::Image {
            alt: "図1".to_string(),
            url: "fig1.png".to_string(),
        }]),
        Node::Image {
            alt: "図2".to_string(),
            url: "fig2.png".to_string(),
        },
    ]);
    let result = processor.process(&input).expect("Processing should succeed");
    assert_eq!(count_images(&result), 2);
    assert!(result.contains("![図1](fig1.png)"));
    assert!(result.contains("![図2](fig2.png)"));
}

#[test]
fn test_table_rows_preserved() {
    let processor = create_processor();
    let table_text = "| 列1　　　 | 列2　　　　　 |\n|---|---|\n| あいうえお | かきくけこ　　　 |";
    let input = root(vec![paragraph(vec![text(table_text)])]);
    let result = processor.process(&input).expect("Processing should succeed");
    let row_count = |s: &str| {
        s.lines()
            .filter(|line| line.contains('|') && !line.trim().is_empty())
            .count()
    };
    assert_eq!(row_count(table_text), row_count(&result));
    assert!(result.contains("| 列1　　　 | 列2　　　　　 |"));
}

#[test]
fn test_guard_order_does_not_matter() {
    // Whitespace normalizer registered before the guards: images and tables
    // must still be preserved, by the normalizer's own exclusion rule.
    let mut processor = MarkdownProcessor::new();
    processor.add_handler(RegisteredHandler::Whitespace(WhitespaceHandler::new()));
    processor.add_handler(RegisteredHandler::Image(ImageHandler::new()));
    processor.add_handler(RegisteredHandler::Table(TableHandler::new()));

    let input = root(vec![
        Node::Image {
            alt: "logo mark".to_string(),
            url: "logo.png".to_string(),
        },
        paragraph(vec![text("| a | b |\n| 1 | 2 |")]),
    ]);
    let result = processor.process(&input).expect("Processing should succeed");
    assert!(result.contains("![logo mark](logo.png)"));
    assert!(result.contains("| a | b |"));
    assert!(result.contains("| 1 | 2 |"));
}

#[test]
fn test_aggressive_policy_removes_ascii_spaces() {
    let processor = create_processor();
    let input = root(vec![paragraph(vec![text("hello   world")])]);
    let result = processor.process(&input).expect("Processing should succeed");
    assert_eq!(result, "helloworld");
}

#[test]
fn test_code_block_serialization() {
    let processor = MarkdownProcessor::new();
    let input = root(vec![Node::Code {
        lang: Some("rust".to_string()),
        value: "fn main() {}".to_string(),
    }]);
    let result = processor.process(&input).expect("Processing should succeed");
    assert_eq!(result, "```rust\nfn main() {}\n```");

    let input = root(vec![Node::Code {
        lang: None,
        value: "plain".to_string(),
    }]);
    let result = processor.process(&input).expect("Processing should succeed");
    assert_eq!(result, "```\nplain\n```");
}

#[test]
fn test_list_and_blockquote_serialization() {
    let processor = MarkdownProcessor::new();
    let input = root(vec![Node::List {
        children: vec![
            Node::ListItem {
                children: vec![text("first")],
            },
            Node::ListItem {
                children: vec![text("second")],
            },
        ],
    }]);
    let result = processor.process(&input).expect("Processing should succeed");
    assert_eq!(result, "- first\n- second");

    let input = root(vec![Node::Blockquote {
        children: vec![text("line one\nline two")],
    }]);
    let result = processor.process(&input).expect("Processing should succeed");
    assert_eq!(result, "> line one\n> line two");
}

#[test]
fn test_real_table_node_flattens_to_rows() {
    let processor = MarkdownProcessor::new();
    let cell = |s: &str| Node::TableCell {
        children: vec![text(s)],
    };
    let row = |a: &str, b: &str| Node::TableRow {
        children: vec![cell(a), cell(b)],
    };
    let input = root(vec![Node::Table {
        children: vec![row("A", "B"), row("1", "2")],
    }]);
    let result = processor.process(&input).expect("Processing should succeed");
    assert_eq!(result, "| A | B |\n| 1 | 2 |");
}

#[test]
fn test_paragraph_with_image_prefix_is_not_a_table() {
    // A paragraph that opens with an image marker keeps its kind even with
    // two pipes in it, so the normalizer applies.
    let processor = create_processor();
    let input = root(vec![paragraph(vec![text("![a](u) | x | y")])]);
    let result = processor.process(&input).expect("Processing should succeed");
    assert_eq!(result, "![a](u)|x|y");
}

#[test]
fn test_blank_raw_block_is_dropped() {
    let processor = MarkdownProcessor::new();
    let input = root(vec![
        Node::Strong {
            children: vec![text("   ")],
        },
        paragraph(vec![text("kept")]),
    ]);
    let result = processor.process(&input).expect("Processing should succeed");
    assert_eq!(result, "kept");
}
