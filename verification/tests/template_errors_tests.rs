use mdsite::template_errors::TemplateError;

#[test]
fn test_missing_variables() {
    let err_1 = TemplateError::MissingVariables(vec!["variable_name".to_string()]);
    assert_eq!(
        err_1.to_string(),
        "contents not set for variables: variable_name"
    );
    assert_eq!(
        err_1,
        TemplateError::MissingVariables(vec!["variable_name".to_string()])
    );
    assert_ne!(
        err_1,
        TemplateError::MissingVariables(vec!["variable-name".to_string()])
    );
    assert_eq!(
        err_1.clone(),
        TemplateError::MissingVariables(vec!["variable_name".to_string()])
    );

    let err_2 = TemplateError::MissingVariables(vec!["var1".to_string(), "var2".to_string()]);
    let possible_outputs_2 = [
        "contents not set for variables: var1, var2",
        "contents not set for variables: var2, var1",
    ];
    assert!(possible_outputs_2.contains(&err_2.to_string().as_str()));
    assert_eq!(
        err_2,
        TemplateError::MissingVariables(vec!["var1".to_string(), "var2".to_string()])
    );
    assert_ne!(
        err_2,
        TemplateError::MissingVariables(vec!["var1".to_string(), "var3".to_string()])
    );
    assert_eq!(
        err_2.clone(),
        TemplateError::MissingVariables(vec!["var1".to_string(), "var2".to_string()])
    );
}

#[test]
fn test_missing_template() {
    let err = TemplateError::MissingTemplate("example_template".to_string());
    assert_eq!(err.to_string(), "missing template for example_template");
    assert_eq!(
        err,
        TemplateError::MissingTemplate("example_template".to_string())
    );
    assert_ne!(
        err,
        TemplateError::MissingTemplate("example-template".to_string())
    );
    assert_eq!(
        err.clone(),
        TemplateError::MissingTemplate("example_template".to_string())
    );
}
