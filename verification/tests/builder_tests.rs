use mdsite::builder::ParagraphBuilder;
use mdsite::document::Element;
use mdsite::document::Line;

#[test]
fn test_paragraph_builder() {
    let mut out_vec = vec![];

    let mut builder = ParagraphBuilder::default();
    builder.add_line(Line::from_str("A test line"));
    builder.finish(&mut out_vec);
    assert_eq!(
        out_vec,
        vec![Element::Paragraph(vec![Line::from_str("A test line")])]
    );
    out_vec.clear();

    let mut builder = ParagraphBuilder::default();
    builder.add_line(Line::from_str("line one"));
    builder.add_line(Line::from_str("second line"));
    builder.finish(&mut out_vec);
    assert_eq!(
        out_vec,
        vec![Element::Paragraph(vec![
            Line::from_str("line one"),
            Line::from_str("second line")
        ])]
    );
    out_vec.clear();

    let mut builder = ParagraphBuilder::default();
    builder.add_lines(vec![
        Line::from_str("line one"),
        Line::from_str("second line"),
    ]);
    builder.finish(&mut out_vec);
    assert_eq!(
        out_vec,
        vec![Element::Paragraph(vec![
            Line::from_str("line one"),
            Line::from_str("second line")
        ])]
    );
    out_vec.clear();

    let mut builder = ParagraphBuilder::default();
    builder.add_str("line one");
    builder.add_str("second line");
    builder.finish(&mut out_vec);
    assert_eq!(
        out_vec,
        vec![Element::Paragraph(vec![
            Line::from_str("line one"),
            Line::from_str("second line")
        ])]
    );
    out_vec.clear();
}

#[test]
fn test_paragraph_builder_empty_finish() {
    let mut out_vec = vec![];
    let mut builder = ParagraphBuilder::default();
    builder.finish(&mut out_vec);
    assert_eq!(out_vec, vec![]);
}
