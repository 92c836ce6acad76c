use core_flow::node::{Node, NodeBuilder};
use core_flow::registry::ActionRegistry;
use core_flow::samples::{create_test_action, FailTestAction, SampleAction, TestAction};
use core_flow::value::{FlowValue, NodeContext};

fn test_action() -> SampleAction {
    SampleAction::Test(TestAction::new(&FlowValue::Null))
}

#[test]
fn node_test_correctly_executes_the_actions() {
    let mut node: Node<SampleAction> = Node::new(
        "welcome".to_string(),
        "message".to_string(),
        "Welcome".to_string(),
        "Welcome message".to_string(),
    );

    node.add_action(test_action());

    node.execute_actions().unwrap();
}

#[test]
fn node_test_fails_executing_the_actions() {
    let mut node: Node<SampleAction> = Node::new(
        "welcome".to_string(),
        "message".to_string(),
        "Welcome".to_string(),
        "Welcome message".to_string(),
    );

    node.add_action(test_action());
    node.add_action(SampleAction::Fail(FailTestAction));

    match node.execute_actions() {
        Ok(_) => {
            panic!("Expected an error");
        }
        Err(error) => {
            assert_eq!(error.message, "Action failed");
        }
    }
}

#[test]
fn node_test_correctly_modifies_the_node_context() {
    let mut node: Node<SampleAction> = Node::new(
        "welcome".to_string(),
        "message".to_string(),
        "Welcome".to_string(),
        "Welcome message".to_string(),
    );
    node.add_action(test_action());

    node.execute_actions().unwrap();

    let test_var = node.get_var_context("test_var".to_string());
    assert_eq!(test_var.unwrap(), FlowValue::String("test_value".to_string()));
}

#[test]
fn node_test_from_json() {
    let json = r#"{
        "id": "welcome",
        "node_type": "conversational",
        "name": "Welcome",
        "description": "Welcome message",
        "node_context": {
            "variables": {}
        },
        "actions": [
        ]
    }"#;

    let mut action_registry: ActionRegistry<
        fn(&FlowValue, &FlowValue, &FlowValue) -> SampleAction,
    > = ActionRegistry::new();
    action_registry.register_action("test_action", create_test_action);

    let node = Node::from_json(json, &action_registry).unwrap();

    assert_eq!(node.id, "welcome");
    assert_eq!(node.node_type, "conversational");
    assert_eq!(node.name, "Welcome");
    assert_eq!(node.description, "Welcome message");
    assert_eq!(node.actions.len(), 0);
}

#[test]
fn test_builder_creates_node_with_basic_properties() {
    let node: Node<SampleAction> = NodeBuilder::new(
        "test_id".to_string(),
        "test_type".to_string(),
        "Test Node".to_string(),
        "Test Description".to_string(),
    )
    .build();

    assert_eq!(node.id, "test_id");
    assert_eq!(node.node_type, "test_type");
    assert_eq!(node.name, "Test Node");
    assert_eq!(node.description, "Test Description");
}

#[test]
fn test_builder_adds_action() {
    let mut node: Node<SampleAction> = NodeBuilder::new(
        "test_id".to_string(),
        "test_type".to_string(),
        "Test Node".to_string(),
        "Test Description".to_string(),
    )
    .with_action(test_action())
    .build();

    node.execute_actions().unwrap();
    assert_eq!(
        node.get_var_context("test_var".to_string()),
        Some(FlowValue::String("test_value".to_string()))
    );
}

#[test]
fn test_builder_adds_context_variable() {
    let test_value = FlowValue::String("test_value".to_string());
    let node: Node<SampleAction> = NodeBuilder::new(
        "test_id".to_string(),
        "test_type".to_string(),
        "Test Node".to_string(),
        "Test Description".to_string(),
    )
    .with_context_var("test_key".to_string(), test_value.clone())
    .build();

    assert_eq!(node.get_var_context("test_key".to_string()), Some(test_value));
}

#[test]
fn test_builder_chain_methods() {
    let test_value = FlowValue::String("context_value".to_string());
    let mut node: Node<SampleAction> = NodeBuilder::new(
        "test_id".to_string(),
        "test_type".to_string(),
        "Test Node".to_string(),
        "Test Description".to_string(),
    )
    .with_action(test_action())
    .with_context_var("test_key".to_string(), test_value.clone())
    .build();

    assert_eq!(node.get_var_context("test_key".to_string()), Some(test_value));

    node.execute_actions().unwrap();
    assert_eq!(
        node.get_var_context("test_var".to_string()),
        Some(FlowValue::String("test_value".to_string()))
    );
}

#[test]
fn test_pipeline_abort_keeps_prefix_context() {
    let mut node: Node<SampleAction> = Node::new(
        "step".to_string(),
        "message".to_string(),
        "Step".to_string(),
        "A two-action step".to_string(),
    );
    node.add_action(test_action());
    node.add_action(SampleAction::Fail(FailTestAction));

    let result = node.execute_actions();
    assert!(result.is_err());

    assert_eq!(
        node.get_var_context("test_var".to_string()),
        Some(FlowValue::String("test_value".to_string()))
    );
}
