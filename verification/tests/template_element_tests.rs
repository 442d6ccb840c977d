use mdsite::template_element::render_element_list;
use mdsite::template_element::TemplateElement;
use mdsite::template_element::TemplateElementTemplates;
use mdsite::template_element::TemplateElementType;
use mdsite::template_errors::TemplateError;
use mdsite::template_string::TemplateString;

#[test]
fn test_template_element_to_type() {
    assert_eq!(
        TemplateElement::Header(0, vec![]).to_type(),
        TemplateElementType::Header
    );
    assert_eq!(
        TemplateElement::Paragraph(vec![]).to_type(),
        TemplateElementType::Paragraph
    );
    assert_eq!(
        TemplateElement::Line(vec![]).to_type(),
        TemplateElementType::Line
    );
    assert_eq!(
        TemplateElement::Text(String::new()).to_type(),
        TemplateElementType::Text
    );
    assert_eq!(
        TemplateElement::Italic(vec![]).to_type(),
        TemplateElementType::Italic
    );
    assert_eq!(
        TemplateElement::Bold(vec![]).to_type(),
        TemplateElementType::Bold
    );
}

#[test]
fn test_template_element_type_display() {
    assert_eq!(TemplateElementType::Header.to_string(), "Header");
    assert_eq!(TemplateElementType::Paragraph.to_string(), "Paragraph");
    assert_eq!(TemplateElementType::Line.to_string(), "Line");
    assert_eq!(TemplateElementType::Text.to_string(), "Text");
    assert_eq!(TemplateElementType::Italic.to_string(), "Italic");
    assert_eq!(TemplateElementType::Bold.to_string(), "Bold");
}

#[test]
fn test_template_element_type_from_str() {
    assert_eq!(
        TemplateElementType::from_str("header"),
        Some(TemplateElementType::Header)
    );
    assert_eq!(
        TemplateElementType::from_str("paragraph"),
        Some(TemplateElementType::Paragraph)
    );
    assert_eq!(
        TemplateElementType::from_str("line"),
        Some(TemplateElementType::Line)
    );
    assert_eq!(
        TemplateElementType::from_str("text"),
        Some(TemplateElementType::Text)
    );
    assert_eq!(
        TemplateElementType::from_str("italic"),
        Some(TemplateElementType::Italic)
    );
    assert_eq!(
        TemplateElementType::from_str("bold"),
        Some(TemplateElementType::Bold)
    );
    assert_eq!(TemplateElementType::from_str("Header"), None);
    assert_eq!(TemplateElementType::from_str("other"), None);
}

#[test]
fn test_render_text_line_round_trip() {
    let line = TemplateElement::Line(vec![
        TemplateElement::Text("alpha".to_string()),
        TemplateElement::Text(" and ".to_string()),
        TemplateElement::Text("omega".to_string()),
    ]);
    let templates = TemplateElementTemplates::default();
    assert_eq!(line.render(&templates).unwrap(), "alpha and omega");
}

#[test]
fn test_render_header() {
    let header = TemplateElement::Header(2, vec![TemplateElement::Text("Title".to_string())]);
    let templates = TemplateElementTemplates::default();
    assert_eq!(header.render(&templates).unwrap(), "<h2>Title</h2>");
}

#[test]
fn test_render_paragraph_trims_and_joins() {
    let paragraph = TemplateElement::Paragraph(vec![
        TemplateElement::Line(vec![TemplateElement::Text("  one  ".to_string())]),
        TemplateElement::Line(vec![TemplateElement::Text("two".to_string())]),
    ]);
    let templates = TemplateElementTemplates::default();
    assert_eq!(paragraph.render(&templates).unwrap(), "<p>one two</p>");
}

#[test]
fn test_render_italic_and_bold() {
    let templates = TemplateElementTemplates::default();
    let italic = TemplateElement::Italic(vec![TemplateElement::Text("soft".to_string())]);
    assert_eq!(italic.render(&templates).unwrap(), "<i>soft</i>");
    let bold = TemplateElement::Bold(vec![TemplateElement::Text("loud".to_string())]);
    assert_eq!(bold.render(&templates).unwrap(), "<b>loud</b>");
}

#[test]
fn test_render_missing_template() {
    let templates = TemplateElementTemplates {
        header: None,
        paragraph: None,
        line: None,
        text: None,
        italic: None,
        bold: None,
    };
    let text = TemplateElement::Text("anything".to_string());
    assert_eq!(
        text.render(&templates),
        Err(TemplateError::MissingTemplate("Text".to_string()))
    );
    let header = TemplateElement::Header(1, vec![]);
    assert_eq!(
        header.render(&templates),
        Err(TemplateError::MissingTemplate("Header".to_string()))
    );
}

#[test]
fn test_render_with_overridden_skeleton() {
    let mut templates = TemplateElementTemplates::default();
    templates.add(
        TemplateElementType::Bold,
        TemplateString::parse_string("<strong>{content}</strong>"),
    );
    let bold = TemplateElement::Bold(vec![TemplateElement::Text("loud".to_string())]);
    assert_eq!(bold.render(&templates).unwrap(), "<strong>loud</strong>");
}

#[test]
fn test_render_element_list_with_delimiter() {
    let templates = TemplateElementTemplates::default();
    let elements = vec![
        TemplateElement::Text("a".to_string()),
        TemplateElement::Text("b".to_string()),
        TemplateElement::Text("c".to_string()),
    ];
    assert_eq!(
        render_element_list(&elements, &templates, "-", false).unwrap(),
        "a-b-c"
    );
    assert_eq!(
        render_element_list(&vec![], &templates, "-", false).unwrap(),
        ""
    );
}

#[test]
fn test_templates_get_returns_registered_skeleton() {
    let mut templates = TemplateElementTemplates::default();
    assert!(templates.get(TemplateElementType::Line).is_some());
    templates.add(
        TemplateElementType::Line,
        TemplateString::parse_string("[{content}]"),
    );
    let got = templates.get(TemplateElementType::Line).unwrap();
    assert_eq!(
        got.sections,
        TemplateString::parse_string("[{content}]").sections
    );
}
