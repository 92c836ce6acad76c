use core_flow::value::{FlowValue, NodeContext};
use core_flow::vars::{parse_input_vars, OutputVarsBuilder, VarParseError};

fn obj(entries: Vec<(&str, FlowValue)>) -> FlowValue {
    FlowValue::Object(
        entries
            .into_iter()
            .map(|(k, v)| (k.to_string(), v))
            .collect(),
    )
}

fn s(text: &str) -> FlowValue {
    FlowValue::String(text.to_string())
}

#[test]
fn test_parse_input_vars() {
    let mut node_context = NodeContext::new();
    let input_vars = obj(vec![
        ("var1", s("test_id.var1")),
        ("var2", s("test_id.var2")),
        ("var3", s("test_id.var3")),
    ]);

    node_context.set_var("test_id.var1".to_string(), s("foo"));
    node_context.set_var("test_id.var2".to_string(), s("bar"));
    node_context.set_var("test_id.var3".to_string(), s("baz"));

    let vars = parse_input_vars(&input_vars, &node_context);

    assert_eq!(vars.var_count(), 3);

    assert_eq!(vars.get_var("var1").unwrap(), &s("foo"));
    assert_eq!(vars.get_var("var2").unwrap(), &s("bar"));
    assert_eq!(vars.get_var("var3").unwrap(), &s("baz"));
}

#[test]
fn test_parse_input_vars_skips_missing_paths() {
    let mut node_context = NodeContext::new();
    node_context.set_var("step.present".to_string(), s("here"));

    let input_vars = obj(vec![
        ("found", s("step.present")),
        ("lost", s("step.absent")),
    ]);

    let vars = parse_input_vars(&input_vars, &node_context);

    assert_eq!(vars.var_count(), 1);
    assert_eq!(vars.get_var("found").unwrap(), &s("here"));
    assert!(vars.get_var("lost").is_none());
}

#[test]
fn test_output_vars_builder() {
    let node_context = NodeContext::new();
    let output_vars = FlowValue::List(vec![s("var1"), s("var2"), s("var3")]);
    let mut output_vars_builder = OutputVarsBuilder::new(
        &obj(vec![("name", s("node_name"))]),
        &output_vars,
        node_context,
    );

    output_vars_builder
        .add_var("var1".to_string(), s("foo"))
        .unwrap();
    output_vars_builder
        .add_var("var2".to_string(), s("bar"))
        .unwrap();
    output_vars_builder
        .add_var("var3".to_string(), s("baz"))
        .unwrap();

    let node_context = output_vars_builder.build().unwrap();

    assert_eq!(node_context.var_count(), 3);

    assert_eq!(node_context.get_var("node_name.var1").unwrap(), &s("foo"));
    assert_eq!(node_context.get_var("node_name.var2").unwrap(), &s("bar"));
    assert_eq!(node_context.get_var("node_name.var3").unwrap(), &s("baz"));
}

#[test]
fn test_output_vars_builder_with_not_found_var() {
    let node_context = NodeContext::new();
    let output_vars = FlowValue::List(vec![s("var1"), s("var2"), s("var3")]);
    let mut output_vars_builder = OutputVarsBuilder::new(
        &obj(vec![("name", s("node_name"))]),
        &output_vars,
        node_context,
    );

    let rejected = output_vars_builder.add_var("var123".to_string(), s("foo"));
    assert!(matches!(rejected, Err(VarParseError::VariableNotFound)));
}

#[test]
fn test_output_vars_builder_with_missing_vars() {
    let node_context = NodeContext::new();
    let output_vars = FlowValue::List(vec![s("var1"), s("var2"), s("var3")]);
    let mut output_vars_builder = OutputVarsBuilder::new(
        &obj(vec![("name", s("node_name"))]),
        &output_vars,
        node_context,
    );

    output_vars_builder
        .add_var("var1".to_string(), s("foo"))
        .unwrap();
    let second = output_vars_builder.add_var("var1".to_string(), s("bar"));
    assert!(matches!(second, Err(VarParseError::VariableNotFound)));
    output_vars_builder
        .add_var("var3".to_string(), s("baz"))
        .unwrap();

    let node_context = output_vars_builder.build();
    assert!(
        node_context.is_err(),
        "Expected an error due to duplicated variables"
    );
    if let Err(VarParseError::MissingVars(missing_vars)) = node_context {
        assert!(missing_vars.contains("var2"), "Expected 'var2' to be missing");
    } else {
        panic!("Expected VarParseError::MissingVars");
    }
}

#[test]
fn test_output_vars_contract() {
    let node_context = NodeContext::new();
    let output_vars = FlowValue::List(vec![s("x"), s("y")]);
    let mut builder = OutputVarsBuilder::new(
        &obj(vec![("name", s("step"))]),
        &output_vars,
        node_context,
    );

    builder.add_var("x".to_string(), s("1")).unwrap();

    match builder.build() {
        Err(VarParseError::MissingVars(names)) => assert_eq!(names, "y"),
        other => panic!("expected MissingVars, got {:?}", other),
    }
}
