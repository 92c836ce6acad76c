use core_flow::action::Action;
use core_flow::deserialize::{deserialize_actions, DeserializeActionError};
use core_flow::registry::ActionRegistry;
use core_flow::samples::{create_test_action, SampleAction};
use core_flow::value::{FlowValue, NodeContext};

fn registry_with(
    entries: &[(&str, fn(&FlowValue, &FlowValue, &FlowValue) -> SampleAction)],
) -> ActionRegistry<fn(&FlowValue, &FlowValue, &FlowValue) -> SampleAction> {
    let mut action_registry = ActionRegistry::new();
    for (name, ctor) in entries {
        action_registry.register_action(name, *ctor);
    }
    action_registry
}

#[test]
fn action_test_deserialize_actions_with_config() {
    let json = r#"[
        {
            "action_type": "test_action",
            "config": {
                "name": "test_action",
                "id": "test_action",
                "test_config": "test_value"
            },
            "input_vars": {},
            "output_vars": []
        }
    ]"#;

    let action_registry = registry_with(&[("test_action", create_test_action)]);

    let actions = deserialize_actions(json, &action_registry).unwrap();

    let action = actions.get(0).unwrap();

    let temp_context = NodeContext::new();

    let final_context = action.execute(&temp_context).unwrap();

    assert_eq!(
        final_context.get_var("test_var").unwrap(),
        &FlowValue::String("test_value".to_string())
    );
    assert_eq!(actions.len(), 1);
}

#[test]
fn action_registry_test_register_action() {
    let action_registry = registry_with(&[("test_action", create_test_action)]);

    let actions = action_registry.get_actions();

    assert_eq!(actions.len(), 1);
}

#[test]
fn test_deserialize_actions_unknown_type() {
    let json = r#"[
        {
            "action_type": "mystery_action",
            "config": {"name": "x", "id": "x"},
            "input_vars": {},
            "output_vars": []
        }
    ]"#;

    let action_registry = registry_with(&[("test_action", create_test_action)]);

    let result = deserialize_actions(json, &action_registry);
    assert!(matches!(
        result,
        Err(DeserializeActionError::UnknownType(name)) if name == "mystery_action"
    ));
}

#[test]
fn test_deserialize_actions_config_errors() {
    let action_registry = registry_with(&[("test_action", create_test_action)]);

    let missing_config = r#"[{"action_type": "test_action"}]"#;
    assert!(matches!(
        deserialize_actions(missing_config, &action_registry),
        Err(DeserializeActionError::MissingConfig)
    ));

    let missing_name = r#"[{"action_type": "test_action", "config": {"id": "x"}}]"#;
    assert!(matches!(
        deserialize_actions(missing_name, &action_registry),
        Err(DeserializeActionError::MissingName)
    ));

    let missing_id = r#"[{"action_type": "test_action", "config": {"name": "x"}}]"#;
    assert!(matches!(
        deserialize_actions(missing_id, &action_registry),
        Err(DeserializeActionError::MissingId)
    ));

    let missing_input_vars =
        r#"[{"action_type": "test_action", "config": {"name": "x", "id": "x"}}]"#;
    assert!(matches!(
        deserialize_actions(missing_input_vars, &action_registry),
        Err(DeserializeActionError::MissingInputVars)
    ));

    let missing_output_vars = r#"[{"action_type": "test_action", "config": {"name": "x", "id": "x"}, "input_vars": {}}]"#;
    assert!(matches!(
        deserialize_actions(missing_output_vars, &action_registry),
        Err(DeserializeActionError::MissingOutputVars)
    ));

    let bad_output_vars = r#"[{"action_type": "test_action", "config": {"name": "x", "id": "x"}, "input_vars": {}, "output_vars": {}}]"#;
    assert!(matches!(
        deserialize_actions(bad_output_vars, &action_registry),
        Err(DeserializeActionError::IncorrectOutputVarsType)
    ));

    let not_json = "this is not json";
    assert!(matches!(
        deserialize_actions(not_json, &action_registry),
        Err(DeserializeActionError::ParseError(_))
    ));
}

#[test]
fn test_deserialize_actions_skips_untyped_entries() {
    let json = r#"[
        {"note": "no action_type here"},
        {
            "action_type": "test_action",
            "config": {"name": "x", "id": "x"},
            "input_vars": {},
            "output_vars": []
        }
    ]"#;

    let action_registry = registry_with(&[("test_action", create_test_action)]);

    let actions = deserialize_actions(json, &action_registry).unwrap();
    assert_eq!(actions.len(), 1);
}
