use core_flow::schema::{ActionSchemaMold, VarType};

#[test]
fn test_add_input_var() {
    let mut action_schema = ActionSchemaMold::new();
    action_schema.add_input_var("test_var".to_string(), VarType::Text);

    let json_string = action_schema.to_json_string();

    assert_eq!(
        json_string,
        r#"{"input_vars":{"test_var":"String"},"output_vars":{},"config":{}}"#
    );
}

#[test]
fn test_add_output_var() {
    let mut action_schema = ActionSchemaMold::new();
    action_schema.add_output_var("test_var".to_string(), VarType::Text);

    let json_string = action_schema.to_json_string();

    assert_eq!(
        json_string,
        r#"{"input_vars":{},"output_vars":{"test_var":"String"},"config":{}}"#
    );
}

#[test]
fn test_add_builder_var() {
    let mut action_schema = ActionSchemaMold::new();
    action_schema.add_builder_var("test_var".to_string(), VarType::Text);

    let json_string = action_schema.to_json_string();

    assert_eq!(
        json_string,
        r#"{"input_vars":{},"output_vars":{},"config":{"test_var":"String"}}"#
    );
}

#[test]
fn test_schema_with_several_entries() {
    let mut action_schema = ActionSchemaMold::new();
    action_schema.add_input_var("model".to_string(), VarType::Text);
    action_schema.add_input_var("number".to_string(), VarType::Number);

    let json_string = action_schema.to_json_string();

    assert_eq!(
        json_string,
        r#"{"input_vars":{"model":"String","number":"Number"},"output_vars":{},"config":{}}"#
    );
}
