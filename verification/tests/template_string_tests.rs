use mdsite::template_errors::TemplateError;
use mdsite::template_string::TemplateString;
use mdsite::template_string::TemplateStringSection;

fn text(s: &str) -> TemplateStringSection {
    TemplateStringSection::Text(s.to_string())
}

fn var(s: &str) -> TemplateStringSection {
    TemplateStringSection::Variable(s.to_string())
}

const TEST_STR_1: &str = "<h{level}>{content} + some other text {extra}\\{nomatch\\}</h{level}>";
const TEST_STR_2: &str = "{prefix}{suffix}";
const TEST_STR_3: &str = "No variables in this template string";

fn get_test_str_1_sections() -> Vec<TemplateStringSection> {
    vec![
        text("<h"),
        var("level"),
        text(">"),
        var("content"),
        text(" + some other text "),
        var("extra"),
        text("\\{nomatch\\}</h"),
        var("level"),
        text(">"),
    ]
}

fn get_test_str_2_sections() -> Vec<TemplateStringSection> {
    vec![var("prefix"), var("suffix")]
}

fn get_test_str_3_sections() -> Vec<TemplateStringSection> {
    vec![text(TEST_STR_3)]
}

#[test]
fn test_parse_string() {
    let template_1 = TemplateString::parse_string(TEST_STR_1);
    assert_eq!(template_1.sections, get_test_str_1_sections());

    let template_2 = TemplateString::parse_string(TEST_STR_2);
    assert_eq!(template_2.sections, get_test_str_2_sections());

    let template_3 = TemplateString::parse_string(TEST_STR_3);
    assert_eq!(template_3.sections, get_test_str_3_sections());
}

#[test]
fn test_set() {
    // Test String 1
    let mut template_1 = TemplateString::parse_string(TEST_STR_1);

    let mut template_1_sections = get_test_str_1_sections();
    assert_eq!(template_1.sections, template_1_sections);

    template_1.set("content", "some value");
    assert_ne!(template_1.sections, template_1_sections);
    template_1_sections[3] = text("some value");
    assert_eq!(template_1.sections, template_1_sections);

    template_1.set("missing", "this variable does not exist");
    assert_eq!(template_1.sections, template_1_sections);

    template_1.set("level", "42");
    assert_ne!(template_1.sections, template_1_sections);
    template_1_sections[1] = text("42");
    assert_ne!(template_1.sections, template_1_sections);
    template_1_sections[7] = text("42");
    assert_eq!(template_1.sections, template_1_sections);

    template_1.set("extra", "sample");
    assert_ne!(template_1.sections, template_1_sections);
    template_1_sections[5] = text("sample");
    assert_eq!(template_1.sections, template_1_sections);

    // Test String 2
    let mut template_2 = TemplateString::parse_string(TEST_STR_2);

    let mut template_2_sections = get_test_str_2_sections();
    assert_eq!(template_2.sections, template_2_sections);

    template_2.set("prefix", "first");
    assert_ne!(template_2.sections, template_2_sections);
    template_2_sections[0] = text("first");
    assert_eq!(template_2.sections, template_2_sections);

    template_2.set("suffix", "last");
    assert_ne!(template_2.sections, template_2_sections);
    template_2_sections[1] = text("last");
    assert_eq!(template_2.sections, template_2_sections);

    // Test String 3
    let mut template_3 = TemplateString::parse_string(TEST_STR_3);

    let template_3_sections = get_test_str_3_sections();
    assert_eq!(template_3.sections, template_3_sections);

    template_3.set("missing", "this variable does not exist");
    assert_eq!(template_3.sections, template_3_sections);
}

#[test]
fn test_render() {
    let mut template_1 = TemplateString::parse_string(TEST_STR_1);
    template_1.set("level", "2");
    template_1.set("content", "variable text");
    template_1.set("extra", "for testing");
    assert_eq!(
        template_1.render().unwrap(),
        "<h2>variable text + some other text for testing\\{nomatch\\}</h2>".to_string()
    );

    let mut template_2 = TemplateString::parse_string(TEST_STR_2);
    template_2.set("suffix", ")");
    template_2.set("prefix", ":");
    assert_eq!(template_2.render().unwrap(), ":)".to_string());

    let template_3 = TemplateString::parse_string(TEST_STR_3);
    assert_eq!(template_3.render().unwrap(), TEST_STR_3.to_string());
}

#[test]
fn test_render_errors() {
    let mut template_1 = TemplateString::parse_string(TEST_STR_1);
    assert_eq!(
        template_1.render(),
        Err(TemplateError::MissingVariables(vec![
            "level".to_string(),
            "content".to_string(),
            "extra".to_string()
        ]))
    );

    template_1.set("level", "2");
    assert_eq!(
        template_1.render(),
        Err(TemplateError::MissingVariables(vec![
            "content".to_string(),
            "extra".to_string()
        ]))
    );

    template_1.set("content", "variable text");
    assert_eq!(
        template_1.render(),
        Err(TemplateError::MissingVariables(vec!["extra".to_string()]))
    );
}

#[test]
fn test_default_variables() {
    let mut template = TemplateString {
        sections: vec![
            TemplateStringSection::Text("This is a test of ".to_string()),
            TemplateStringSection::DefaultVariable(
                "name".to_string(),
                "default variables".to_string(),
            ),
            TemplateStringSection::Variable("ending".to_string()),
        ],
    };
    assert_eq!(
        template.render(),
        Err(TemplateError::MissingVariables(vec!["ending".to_string()]))
    );

    template.set("ending", "!");
    assert_eq!(
        template.render().unwrap(),
        "This is a test of default variables!".to_string()
    );

    template.set("name", "nothing");
    assert_eq!(
        template.render().unwrap(),
        "This is a test of nothing!".to_string()
    );
}

#[test]
fn test_set_twice_same_value_is_idempotent() {
    let mut once = TemplateString::parse_string(TEST_STR_1);
    once.set("content", "body");

    let mut twice = TemplateString::parse_string(TEST_STR_1);
    twice.set("content", "body");
    twice.set("content", "body");

    assert_eq!(once.sections, twice.sections);
}

#[test]
fn test_missing_variable_accumulation() {
    let template = TemplateString::parse_string("{a}{b}{c}");
    let expected = Err(TemplateError::MissingVariables(vec![
        "a".to_string(),
        "b".to_string(),
        "c".to_string(),
    ]));
    assert_eq!(template.render(), expected);
    // the same result however often render is called
    assert_eq!(template.render(), expected);

    let mut template = template;
    template.set("a", "1");
    template.set("b", "2");
    assert_eq!(
        template.render(),
        Err(TemplateError::MissingVariables(vec!["c".to_string()]))
    );
    template.set("c", "3");
    assert_eq!(template.render().unwrap(), "123".to_string());
}

#[test]
fn test_duplicate_variable_reported_once() {
    let template = TemplateString::parse_string("{x} and {x}");
    assert_eq!(
        template.render(),
        Err(TemplateError::MissingVariables(vec!["x".to_string()]))
    );
}

#[test]
fn test_default_cannot_revert() {
    let mut template = TemplateString {
        sections: vec![TemplateStringSection::DefaultVariable(
            "slot".to_string(),
            "fallback".to_string(),
        )],
    };
    assert_eq!(template.render().unwrap(), "fallback".to_string());
    template.set("slot", "chosen");
    assert_eq!(template.render().unwrap(), "chosen".to_string());
    // a later set of the same name finds no placeholder left to replace
    template.set("slot", "other");
    assert_eq!(template.render().unwrap(), "chosen".to_string());
}

#[test]
fn test_braces_without_identifier_stay_literal() {
    let template = TemplateString::parse_string("{} {not closed {a b}");
    assert_eq!(template.sections, vec![text("{} {not closed {a b}")]);
    assert_eq!(template.render().unwrap(), "{} {not closed {a b}".to_string());
}
