use pdfclean::cleaner::{MarkdownCleaner, RegisteredProcessor};
use pdfclean::error::Error;
use pdfclean::handlers::{MarkdownUnit, RegexHandler};
use pdfclean::node::Node;
use pdfclean::processor::{MarkdownProcessor, RegisteredHandler};
use pdfclean::processors::{ImageProcessor, TableProcessor, WhitespaceProcessor};

fn create_cleaner() -> MarkdownCleaner {
    let mut cleaner = MarkdownCleaner::new();

    // Add processors in priority order
    // Images and tables are preserved, whitespace is cleaned
    cleaner.add_processor(RegisteredProcessor::Image(ImageProcessor::new()));
    cleaner.add_processor(RegisteredProcessor::Table(TableProcessor::new()));
    cleaner.add_processor(RegisteredProcessor::Whitespace(WhitespaceProcessor::new()));

    cleaner
}

fn text(value: &str) -> Node {
    Node::Text {
        value: value.to_string(),
    }
}

#[test]
fn test_fullwidth_collapse_values() {
    let processor = WhitespaceProcessor::new();
    assert_eq!(processor.clean_whitespace("あ　　い"), "あい");
    assert_eq!(processor.clean_whitespace("あ  い"), "あい");
    assert_eq!(processor.clean_whitespace("hello   world"), "hello world");
}

#[test]
fn test_fullwidth_classification() {
    let processor = WhitespaceProcessor::new();
    assert!(processor.is_fullwidth_char('あ'));
    assert!(processor.is_fullwidth_char('ア'));
    assert!(processor.is_fullwidth_char('漢'));
    assert!(processor.is_fullwidth_char('５'));
    assert!(processor.is_fullwidth_char('7'));
    assert!(!processor.is_fullwidth_char('a'));
    assert!(!processor.is_fullwidth_char(' '));
    assert!(!processor.is_fullwidth_char('|'));
}

#[test]
fn test_width_aware_trims_and_collapses() {
    let processor = WhitespaceProcessor::new();
    assert_eq!(processor.clean_whitespace("  padded  "), "padded");
    assert_eq!(processor.clean_whitespace("a \t b"), "a b");
    assert_eq!(processor.clean_whitespace("数字12　　34も全角扱い"), "数字1234も全角扱い");
    assert_eq!(processor.clean_whitespace(""), "");
}

#[test]
fn test_width_aware_mixed_run_between_fullwidth() {
    let processor = WhitespaceProcessor::new();
    // A run of mixed whitespace between two CJK characters disappears whole.
    assert_eq!(processor.clean_whitespace("あ \tい"), "あい");
    // Cleaning is idempotent: a second pass changes nothing.
    let once = processor.clean_whitespace("あ \tい　x　y");
    assert_eq!(once, "あい x y");
    assert_eq!(processor.clean_whitespace(&once), once);
}

#[test]
fn test_tree_pipeline_idempotent() {
    let cleaner = create_cleaner();
    let input = Node::Root {
        children: vec![
            Node::Heading {
                depth: 1,
                children: vec![text("テスト　　　見出し")],
            },
            Node::Paragraph {
                children: vec![text("hello   world　あ \tい")],
            },
        ],
    };
    let once = cleaner.clean(input).expect("first run succeeds");
    assert_eq!(once, "# テスト見出し\n\nhello world あい");

    // The cleaned text re-enters as the parser would deliver it.
    let again = Node::Root {
        children: vec![
            Node::Heading {
                depth: 1,
                children: vec![text("テスト見出し")],
            },
            Node::Paragraph {
                children: vec![text("hello world あい")],
            },
        ],
    };
    let twice = cleaner.clean(again).expect("second run succeeds");
    assert_eq!(twice, once);
}

#[test]
fn test_tree_whitespace_cleaning() {
    let cleaner = create_cleaner();
    let input = Node::Root {
        children: vec![
            Node::Heading {
                depth: 1,
                children: vec![text("テスト　　　見出し")],
            },
            Node::Paragraph {
                children: vec![text("段落　　　テスト")],
            },
        ],
    };
    let result = cleaner.clean(input).expect("cleaning should succeed");
    assert_eq!(result, "# テスト見出し\n\n段落テスト");
}

#[test]
fn test_tree_code_block_untouched() {
    let cleaner = create_cleaner();
    let input = Node::Root {
        children: vec![Node::Code {
            lang: Some("py".to_string()),
            value: "x  =  1".to_string(),
        }],
    };
    let result = cleaner.clean(input).expect("cleaning should succeed");
    assert_eq!(result, "```py\nx  =  1\n```");
}

#[test]
fn test_tree_table_text_untouched() {
    let cleaner = create_cleaner();
    let input = Node::Root {
        children: vec![Node::Paragraph {
            children: vec![text("| 列1　　　 | 列2 |\n| あ | い |")],
        }],
    };
    let result = cleaner.clean(input).expect("cleaning should succeed");
    assert_eq!(result, "| 列1　　　 | 列2 |\n| あ | い |");
}

#[test]
fn test_tree_image_untouched() {
    let cleaner = create_cleaner();
    let input = Node::Root {
        children: vec![Node::Paragraph {
            children: vec![
                Node::Image {
                    alt: "テスト画像1".to_string(),
                    url: "path/to/image1.jpg".to_string(),
                },
                text("　説明　　です"),
            ],
        }],
    };
    let result = cleaner.clean(input).expect("cleaning should succeed");
    assert_eq!(result, "![テスト画像1](path/to/image1.jpg)説明です");
}

#[test]
fn test_tree_empty_document() {
    let cleaner = create_cleaner();
    let result = cleaner
        .clean(Node::Root { children: vec![] })
        .expect("cleaning should succeed");
    assert_eq!(result, "");
}

#[test]
fn test_invalid_pattern_fails_at_construction() {
    let result = RegexHandler::new("broken".to_string(), "[", "x".to_string());
    match result {
        Err(Error::PatternCompile { message }) => {
            assert!(!message.is_empty());
        }
        _ => panic!("an unclosed character class must be rejected"),
    }
}

#[test]
fn test_error_messages() {
    let parse = Error::Parse {
        message: "unexpected end of input".to_string(),
    };
    assert_eq!(parse.message(), "unexpected end of input");
    let compile = Error::PatternCompile {
        message: "unclosed class".to_string(),
    };
    assert_eq!(compile.message(), "unclosed class");
}

#[test]
fn test_unfiltered_pattern_rewrites_all_kinds() {
    let mut processor = MarkdownProcessor::new();
    let handler =
        RegexHandler::new("rule".to_string(), "foo", "bar".to_string()).expect("pattern compiles");
    processor.add_handler(RegisteredHandler::Pattern(handler));

    let input = Node::Root {
        children: vec![
            Node::Heading {
                depth: 2,
                children: vec![text("foo title")],
            },
            Node::Paragraph {
                children: vec![text("some foo here")],
            },
        ],
    };
    let result = processor.process(&input).expect("Processing should succeed");
    assert_eq!(result, "## bar title\n\nsome bar here");
}

#[test]
fn test_backreference_replacement() {
    let mut processor = MarkdownProcessor::new();
    let handler = RegexHandler::new("swap".to_string(), "(\\w+)-(\\w+)", "$2-$1".to_string())
        .expect("pattern compiles");
    processor.add_handler(RegisteredHandler::Pattern(handler));

    let input = Node::Root {
        children: vec![Node::Paragraph {
            children: vec![text("left-right")],
        }],
    };
    let result = processor.process(&input).expect("Processing should succeed");
    assert_eq!(result, "right-left");
}

#[test]
fn test_unit_accessors() {
    let mut unit = MarkdownUnit::Heading {
        level: 2,
        content: "題名".to_string(),
    };
    assert_eq!(unit.unit_type(), "heading");
    assert_eq!(unit.content(), "題名");
    unit.set_content("改題".to_string());
    assert_eq!(unit.content(), "改題");

    let list = MarkdownUnit::List {
        items: vec!["a".to_string()],
    };
    assert_eq!(list.unit_type(), "list");
    assert_eq!(list.content(), "");

    let image = MarkdownUnit::Image {
        alt: "a".to_string(),
        url: "u".to_string(),
    };
    assert_eq!(image.unit_type(), "image");
    assert_eq!(image.content(), "");

    let table = MarkdownUnit::Table {
        content: "| a |".to_string(),
    };
    assert_eq!(table.unit_type(), "table");
    assert_eq!(table.content(), "| a |");
}

#[test]
fn test_strip_and_count_utilities() {
    assert_eq!(pdfclean::text::remove_all_spaces("a b\tc\nd"), "abcd");
    assert_eq!(pdfclean::text::remove_all_spaces("　全　角　"), "全角");
    assert_eq!(pdfclean::text::count_char_in("| a | b |", '|'), 3);
    assert!(pdfclean::text::table_like_text("a | b | c"));
    assert!(!pdfclean::text::table_like_text("a | b"));
    assert!(!pdfclean::text::table_like_text("![x](y) | a | b"));
}

#[test]
fn test_split_lines_behaviour() {
    let lines = pdfclean::text::split_lines("a\nb\r\nc\n");
    let expect: Vec<String> = vec!["a".to_string(), "b".to_string(), "c".to_string()];
    assert_eq!(lines, expect);
    let none: Vec<String> = pdfclean::text::split_lines("");
    assert!(none.is_empty());
    let lone = pdfclean::text::split_lines("x");
    assert_eq!(lone, vec!["x".to_string()]);
}
