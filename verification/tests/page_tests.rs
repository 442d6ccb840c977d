use mdsite::pages::markdown_element_to_template_element;
use mdsite::pages::markdown_line_to_template_elements;
use mdsite::pages::Page;
use mdsite::pages::Pages;
use mdsite::parser::parse;
use mdsite::parser::parse_line;
use mdsite::template::Template;
use mdsite::template_element::render_element_list;
use mdsite::template_element::TemplateElement;
use mdsite::template_element::TemplateElementTemplates;
use mdsite::template_errors::TemplateError;
use mdsite::template_page::TemplatePage;

#[test]
fn test_end_to_end_content_fragment() {
    let document = parse("# Title\n\nBody one.\nBody two.\n");
    let templates = TemplateElementTemplates::default();
    let elements: Vec<TemplateElement> = document
        .elements
        .iter()
        .map(markdown_element_to_template_element)
        .collect();
    assert_eq!(
        render_element_list(&elements, &templates, "", false).unwrap(),
        "<h1>Title</h1><p>Body one. Body two.</p>"
    );
}

#[test]
fn test_end_to_end_emphasis() {
    let line = parse_line("*italic* and **bold**");
    let templates = TemplateElementTemplates::default();
    let elements = markdown_line_to_template_elements(&line);
    assert_eq!(
        render_element_list(&elements, &templates, "", false).unwrap(),
        "<i>italic</i> and <b>bold</b>"
    );
}

#[test]
fn test_page_slot_add() {
    let mut page = TemplatePage::new("post".to_string());
    page.parse_sections_string("<body>{content}</body>");
    page.add(
        "content",
        TemplateElement::Text("hello".to_string()),
    );
    page.add(
        "content",
        TemplateElement::Bold(vec![TemplateElement::Text("world".to_string())]),
    );
    assert_eq!(
        page.render().unwrap(),
        "<body>hello<b>world</b></body>"
    );
}

#[test]
fn test_page_slot_no_op() {
    let mut page = TemplatePage::new("post".to_string());
    page.parse_sections_string("<body>{content}</body>");
    page.add("content", TemplateElement::Text("hello".to_string()));
    let rendered_before = page.render().unwrap();

    page.add(
        "nonexistent_slot",
        TemplateElement::Text("lost".to_string()),
    );
    assert_eq!(page.render().unwrap(), rendered_before);
}

#[test]
fn test_page_render_fails_fast_on_first_unset_variable() {
    let mut page = TemplatePage::new("post".to_string());
    page.parse_sections_string("{x}{y}");
    assert_eq!(
        page.render(),
        Err(TemplateError::MissingVariables(vec!["x".to_string()]))
    );
}

#[test]
fn test_page_clone_renders_alike() {
    let mut page = TemplatePage::new("post".to_string());
    page.parse_sections_string("<ul>{content}</ul>");
    page.add("content", TemplateElement::Text("item".to_string()));
    let copy = page.clone();
    assert_eq!(page.render().unwrap(), copy.render().unwrap());
}

#[test]
fn test_pages_render_end_to_end() {
    let mut page = TemplatePage::new("post".to_string());
    page.parse_sections_string("<html><t>{title}</t>{content}</html>");

    let mut template = Template::new("test");
    template.add_page("post", page);

    let pages = Pages::from_pages(vec![Page::new(
        "p1".to_string(),
        "post".to_string(),
        "# T\n\nbody\n",
    )]);
    let rendered = pages.render(&template);
    assert_eq!(rendered.len(), 1);
    assert_eq!(rendered[0].0, "p1");
    assert_eq!(
        rendered[0].1,
        Ok("<html><t>Article</t><h1>T</h1><p>body</p></html>".to_string())
    );
}

#[test]
fn test_pages_render_failure_leaves_siblings_untouched() {
    let mut broken = TemplatePage::new("post".to_string());
    broken.parse_sections_string("{never_set}{content}");
    let mut fine = TemplatePage::new("note".to_string());
    fine.parse_sections_string("{content}");

    let mut template = Template::new("test");
    template.add_page("post", broken);
    template.add_page("note", fine);

    let pages = Pages::from_pages(vec![
        Page::new("a".to_string(), "post".to_string(), "text\n"),
        Page::new("b".to_string(), "note".to_string(), "text\n"),
    ]);
    let rendered = pages.render(&template);
    assert_eq!(rendered.len(), 2);
    assert_eq!(
        rendered[0].1,
        Err(TemplateError::MissingVariables(vec![
            "never_set".to_string()
        ]))
    );
    assert_eq!(rendered[1].1, Ok("<p>text</p>".to_string()));
}

#[test]
fn test_template_get_page() {
    let mut page = TemplatePage::new("post".to_string());
    page.parse_sections_string("{content}");
    let mut template = Template::new("test");
    template.add_page("post", page);

    assert!(template.get_page(&"post".to_string()).is_some());
    assert!(template.get_page(&"missing".to_string()).is_none());
}

#[test]
fn test_add_page_replaces_same_tag() {
    let mut first = TemplatePage::new("post".to_string());
    first.parse_sections_string("one:{content}");
    let mut second = TemplatePage::new("post".to_string());
    second.parse_sections_string("two:{content}");

    let mut template = Template::new("test");
    template.add_page("post", first);
    template.add_page("post", second);

    let pages = Pages::from_pages(vec![Page::new(
        "p".to_string(),
        "post".to_string(),
        "x\n",
    )]);
    let rendered = pages.render(&template);
    assert_eq!(rendered[0].1, Ok("two:<p>x</p>".to_string()));
}
