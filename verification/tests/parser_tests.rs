use mdsite::document::Document;
use mdsite::document::Element;
use mdsite::document::InlineElement;
use mdsite::document::Line;
use mdsite::parser::parse;
use mdsite::parser::parse_header;
use mdsite::parser::parse_line;
use mdsite::parser::parse_raw_line;

#[test]
fn test_parse_header() {
    let gen_header_prefix = |level: u32| String::from("#").repeat(level as usize);
    assert_eq!(gen_header_prefix(1), "#");
    assert_eq!(gen_header_prefix(2), "##");
    assert_eq!(gen_header_prefix(3), "###");

    let assert_header = |s: &str| {
        for level in 1..10 {
            let raw_text = format!("{} {}", gen_header_prefix(level), s);
            assert_eq!(
                parse_header(&raw_text),
                Some(Element::Header(level, Line::from_str(s)))
            );
        }
    };

    assert_eq!(parse_header(""), None);
    assert_eq!(parse_header("A test sentence"), None);

    assert_header("");
    assert_header("A test sentence");
}

#[test]
fn test_parse_line() {
    let assert_line = |s: &str| {
        assert_eq!(parse_line(s), Line::from_str(s));
    };

    assert_line("");
    assert_line("A test sentence");
}

#[test]
fn test_parse_headings_and_paragraphs() {
    let raw_text = "# Test of my markdown parser\n\
                    \n\
                    This is a test file for my markdown parser.\n\
                    This file only contains headings and paragraphs.\n\
                    \n\
                    # This is a second header\n\
                    \n\
                    And more text under the header.\n\
                    \n\
                    ## Here is a sub-header\n\
                    \n\
                    Random text here.\n\
                    A second line of random text.\n\
                    A third line of random text.\n";
    let parsed_doc = parse(raw_text);

    assert_eq!(
        parsed_doc,
        Document {
            elements: vec![
                Element::Header(1, Line::from_str("Test of my markdown parser")),
                Element::Paragraph(vec![
                    Line::from_str("This is a test file for my markdown parser."),
                    Line::from_str("This file only contains headings and paragraphs.")
                ]),
                Element::Header(1, Line::from_str("This is a second header")),
                Element::Paragraph(vec![Line::from_str("And more text under the header."),]),
                Element::Header(2, Line::from_str("Here is a sub-header")),
                Element::Paragraph(vec![
                    Line::from_str("Random text here."),
                    Line::from_str("A second line of random text."),
                    Line::from_str("A third line of random text."),
                ]),
            ]
        }
    );
}

#[test]
fn test_blank_line_terminates_paragraph() {
    let parsed = parse("one\ntwo\n\nthree\n");
    assert_eq!(
        parsed,
        Document {
            elements: vec![
                Element::Paragraph(vec![Line::from_str("one"), Line::from_str("two")]),
                Element::Paragraph(vec![Line::from_str("three")]),
            ]
        }
    );
}

#[test]
fn test_parse_empty_input() {
    assert_eq!(parse(""), Document { elements: vec![] });
    assert_eq!(parse("\n\n  \n\t\n"), Document { elements: vec![] });
}

#[test]
fn test_hash_run_without_space_is_not_header() {
    assert_eq!(parse_header("#"), None);
    assert_eq!(parse_header("##x"), None);
    assert_eq!(
        parse_raw_line("##x"),
        Some(Element::Paragraph(vec![Line::from_str("##x")]))
    );
}

#[test]
fn test_parse_raw_line_blank() {
    assert_eq!(parse_raw_line(""), None);
    assert_eq!(parse_raw_line("   \t"), None);
}

#[test]
fn test_parse_line_emphasis_structure() {
    let parsed = parse_line("*italic* and **bold**");
    assert_eq!(
        parsed,
        Line {
            elements: vec![
                InlineElement::Emphasis(1, Line::from_str("italic")),
                InlineElement::Text(" and ".to_string()),
                InlineElement::Emphasis(2, Line::from_str("bold")),
            ]
        }
    );
}

#[test]
fn test_parse_line_underscore_markers() {
    let parsed = parse_line("_one_ and __two__");
    assert_eq!(
        parsed,
        Line {
            elements: vec![
                InlineElement::Emphasis(1, Line::from_str("one")),
                InlineElement::Text(" and ".to_string()),
                InlineElement::Emphasis(2, Line::from_str("two")),
            ]
        }
    );
}

#[test]
fn test_parse_line_nested_emphasis() {
    let parsed = parse_line("**a *b* c**");
    assert_eq!(
        parsed,
        Line {
            elements: vec![InlineElement::Emphasis(
                2,
                Line {
                    elements: vec![
                        InlineElement::Text("a ".to_string()),
                        InlineElement::Emphasis(1, Line::from_str("b")),
                        InlineElement::Text(" c".to_string()),
                    ]
                }
            )]
        }
    );
}

#[test]
fn test_parse_line_unbalanced_markers_stay_literal() {
    assert_eq!(parse_line("*alone"), Line::from_str("*alone"));
    assert_eq!(parse_line("a * b"), Line::from_str("a * b"));
    assert_eq!(parse_line("**"), Line::from_str("**"));
}

#[test]
fn test_header_line_inside_document() {
    let parsed = parse("### Deep header\n");
    assert_eq!(
        parsed,
        Document {
            elements: vec![Element::Header(3, Line::from_str("Deep header"))]
        }
    );
}

#[test]
fn test_crlf_lines() {
    let parsed = parse("one\r\ntwo\r\n");
    assert_eq!(
        parsed,
        Document {
            elements: vec![Element::Paragraph(vec![
                Line::from_str("one"),
                Line::from_str("two")
            ])]
        }
    );
}
