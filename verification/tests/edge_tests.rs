use core_flow::condition::Condition;
use core_flow::edge::{Edge, EdgeBuilder};
use core_flow::registry::ConditionRegistry;
use core_flow::samples::{
    create_negative_condition, create_positive_condition, NegativeCondition, PositiveCondition,
    SampleCondition,
};
use core_flow::value::{FlowValue, NodeContext};

#[test]
fn edge_test_positive_condition() {
    let condition = PositiveCondition;
    let mut edge: Edge<PositiveCondition> = Edge::new(
        "welcome_to_help".to_string(),
        "welcome".to_string(),
        "help".to_string(),
    );

    edge.add_condition(condition);

    assert_eq!(edge.condition_count(), 1);
    assert_eq!(edge.conditions[0].evaluate(&NodeContext::new()), true);
}

#[test]
fn edge_test_negative_condition() {
    let condition = NegativeCondition;
    let mut edge: Edge<NegativeCondition> = Edge::new(
        "welcome_to_help".to_string(),
        "welcome".to_string(),
        "help".to_string(),
    );

    edge.add_condition(condition);

    assert_eq!(edge.condition_count(), 1);
    assert_eq!(edge.conditions[0].evaluate(&NodeContext::new()), false);
}

#[test]
fn edge_test_from_json() {
    let json = r#"{
        "id": "welcome_to_help",
        "source_node_id": "welcome",
        "target_node_id": "help",
        "conditions": [
            {
                "condition_type": "positive_condition",
                "input_vars": {}
            },
            {
                "condition_type": "negative_condition",
                "input_vars": {}
            }
        ]
    }"#;

    let mut condition_registry: ConditionRegistry<
        fn(&FlowValue, &FlowValue) -> SampleCondition,
    > = ConditionRegistry::new();
    condition_registry.register_condition("positive_condition", create_positive_condition);
    condition_registry.register_condition("negative_condition", create_negative_condition);

    let edge = Edge::from_json(json, &condition_registry).unwrap();

    assert_eq!(edge.id, "welcome_to_help");
    assert_eq!(edge.source_node_id, "welcome");
    assert_eq!(edge.target_node_id, "help");
    assert_eq!(edge.condition_count(), 2);
}

#[test]
fn test_builder_creates_edge_with_basic_properties() {
    let edge: Edge<SampleCondition> = EdgeBuilder::new(
        "test_id".to_string(),
        "source_id".to_string(),
        "target_id".to_string(),
    )
    .build();

    assert_eq!(edge.id, "test_id");
    assert_eq!(edge.source_node_id, "source_id");
    assert_eq!(edge.target_node_id, "target_id");
}

#[test]
fn test_builder_adds_condition() {
    let edge: Edge<SampleCondition> = EdgeBuilder::new(
        "test_id".to_string(),
        "source_id".to_string(),
        "target_id".to_string(),
    )
    .with_condition(SampleCondition::Positive(PositiveCondition))
    .build();

    assert!(edge.evaluate(&NodeContext::new()));
}

#[test]
fn test_builder_adds_multiple_conditions() {
    let edge: Edge<SampleCondition> = EdgeBuilder::new(
        "test_id".to_string(),
        "source_id".to_string(),
        "target_id".to_string(),
    )
    .with_condition(SampleCondition::Positive(PositiveCondition))
    .with_condition(SampleCondition::Positive(PositiveCondition))
    .build();

    assert!(edge.evaluate(&NodeContext::new()));

    let edge_with_false: Edge<SampleCondition> = EdgeBuilder::new(
        "test_id".to_string(),
        "source_id".to_string(),
        "target_id".to_string(),
    )
    .with_condition(SampleCondition::Positive(PositiveCondition))
    .with_condition(SampleCondition::Negative(NegativeCondition))
    .build();

    assert!(!edge_with_false.evaluate(&NodeContext::new()));
}

#[test]
fn test_and_semantics() {
    let ctx = NodeContext::new();

    let mut both_true: Edge<SampleCondition> =
        Edge::new("e1".to_string(), "a".to_string(), "b".to_string());
    both_true.add_condition(SampleCondition::Positive(PositiveCondition));
    both_true.add_condition(SampleCondition::Positive(PositiveCondition));
    assert!(both_true.evaluate(&ctx));

    let mut one_false: Edge<SampleCondition> =
        Edge::new("e2".to_string(), "a".to_string(), "b".to_string());
    one_false.add_condition(SampleCondition::Positive(PositiveCondition));
    one_false.add_condition(SampleCondition::Negative(NegativeCondition));
    assert!(!one_false.evaluate(&ctx));

    let empty: Edge<SampleCondition> =
        Edge::new("e3".to_string(), "a".to_string(), "b".to_string());
    assert!(empty.evaluate(&ctx));
}
