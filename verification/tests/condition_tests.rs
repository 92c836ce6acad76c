use core_flow::condition::Condition;
use core_flow::deserialize::deserialize_conditions_with_config;
use core_flow::registry::ConditionRegistry;
use core_flow::samples::{
    create_configurable_condition, create_negative_condition, create_positive_condition,
    SampleCondition,
};
use core_flow::value::{FlowValue, NodeContext};

fn registry_with(
    entries: &[(&str, fn(&FlowValue, &FlowValue) -> SampleCondition)],
) -> ConditionRegistry<fn(&FlowValue, &FlowValue) -> SampleCondition> {
    let mut condition_registry = ConditionRegistry::new();
    for (name, ctor) in entries {
        condition_registry.register_condition(name, *ctor);
    }
    condition_registry
}

#[test]
fn test_deserialize_conditions() {
    let json = r#"[
        {
            "condition_type": "positive_condition",
            "input_vars": {}
        },
        {
            "condition_type": "negative_condition",
            "input_vars": {}
        }
    ]"#;

    let condition_registry = registry_with(&[
        ("positive_condition", create_positive_condition),
        ("negative_condition", create_negative_condition),
    ]);

    let conditions = deserialize_conditions_with_config(json, &condition_registry).unwrap();

    assert_eq!(conditions.len(), 2);
}

#[test]
fn test_deserialize_conditions_with_config() {
    let json = r#"[
        {
            "condition_type": "configurable_condition",
            "config": {
                "key": "value"
            },
            "input_vars": {}
        }
    ]"#;

    let condition_registry = registry_with(&[(
        "configurable_condition",
        create_configurable_condition,
    )]);

    let conditions = deserialize_conditions_with_config(json, &condition_registry).unwrap();

    assert_eq!(conditions.len(), 1);

    let configurable_condition = conditions.get(0).unwrap();

    assert!(configurable_condition.evaluate(&NodeContext::new()));
}

#[test]
fn condition_registry_test_register_condition() {
    let condition_registry = registry_with(&[
        ("positive_condition", create_positive_condition),
        ("negative_condition", create_negative_condition),
    ]);

    let conditions = condition_registry.get_conditions();

    assert_eq!(conditions.len(), 2);
}

#[test]
fn test_deserialize_conditions_unknown_type() {
    let json = r#"[
        {
            "condition_type": "mystery_condition",
            "input_vars": {}
        }
    ]"#;

    let condition_registry = registry_with(&[("positive_condition", create_positive_condition)]);

    let result = deserialize_conditions_with_config(json, &condition_registry);
    assert!(matches!(
        result,
        Err(core_flow::deserialize::DeserializeActionError::UnknownType(name)) if name == "mystery_condition"
    ));
}

#[test]
fn test_deserialize_conditions_missing_input_vars() {
    let json = r#"[
        {
            "condition_type": "positive_condition"
        }
    ]"#;

    let condition_registry = registry_with(&[("positive_condition", create_positive_condition)]);

    let result = deserialize_conditions_with_config(json, &condition_registry);
    assert!(matches!(
        result,
        Err(core_flow::deserialize::DeserializeActionError::MissingInputVars)
    ));
}
