use mdsite::document::Document;
use mdsite::document::Element;
use mdsite::document::InlineElement;
use mdsite::document::Line;

#[test]
fn line_fmt() {
    let assert_line = |strings: Vec<&str>| {
        let expected_line = strings
            .iter()
            .map(|s| s.to_string())
            .collect::<Vec<String>>()
            .join("");

        let line = Line {
            elements: strings
                .iter()
                .map(|s| InlineElement::Text(s.to_string()))
                .collect(),
        };

        assert_eq!(line.to_string(), expected_line);
        assert_eq!(line.to_string(), expected_line);
    };

    assert_line(vec![""]);
    assert_line(vec!["Test", " string ", "12", "3"]);
    assert_line(vec!["🍩🍔", "🎸", "💆🎵🌼 🌄"]);
    assert_line(vec!["満", "クぜひ", "参時"]);
}

#[test]
fn inline_element_text_fmt() {
    let assert_text = |s: &str| {
        let text_elem = InlineElement::Text(s.to_string());
        assert_eq!(text_elem.to_string(), s);
        assert_eq!(text_elem.to_string(), s);
    };

    assert_text("");
    assert_text("Test string 123");
    assert_text("🍩🍔🎸💆🎵🌼 🌄");
    assert_text("満クぜひ参時");
}

#[test]
fn inline_element_emphasis_fmt() {
    let emph = InlineElement::Emphasis(2, Line::from_str("loud"));
    assert_eq!(emph.to_string(), "Emphasis[2](loud)");
}

#[test]
fn element_fmt() {
    let header = Element::Header(3, Line::from_str("A title"));
    assert_eq!(header.to_string(), "Header[3] A title\n");

    let paragraph = Element::Paragraph(vec![
        Line::from_str("first line"),
        Line::from_str("second line"),
    ]);
    assert_eq!(paragraph.to_string(), "first line second line\n");
}

#[test]
fn document_fmt() {
    let document = Document {
        elements: vec![
            Element::Header(1, Line::from_str("Title")),
            Element::Paragraph(vec![Line::from_str("body")]),
        ],
    };
    assert_eq!(document.to_string(), "Header[1] Title\nbody\n");
}
