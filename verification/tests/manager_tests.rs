use core_flow::conversation::{Conversation, ConversationRepository, Message};
use core_flow::edge::Edge;
use core_flow::flow_graph::FlowGraph;
use core_flow::flow_manager::{FlowManager, FlowManagerError};
use core_flow::memory_repository::MemoryConversationRepository;
use core_flow::node::Node;
use core_flow::samples::{
    FailTestAction, NegativeCondition, PositiveCondition, SampleAction, SampleCondition,
    TestAction,
};
use core_flow::value::FlowValue;

fn node(id: &str) -> Node<SampleAction> {
    Node::new(
        id.to_string(),
        "conversational".to_string(),
        id.to_string(),
        format!("step {}", id),
    )
}

fn edge_with(id: &str, source: &str, target: &str, condition: SampleCondition) -> Edge<SampleCondition> {
    let mut edge = Edge::new(id.to_string(), source.to_string(), target.to_string());
    edge.add_condition(condition);
    edge
}

fn abc_graph() -> FlowGraph<SampleAction, SampleCondition> {
    let mut graph = FlowGraph::new();
    graph.add_node(node("A")).unwrap();
    graph.add_node(node("B")).unwrap();
    graph.add_node(node("C")).unwrap();
    graph
        .add_edge(edge_with("A_to_B", "A", "B", SampleCondition::Positive(PositiveCondition)))
        .unwrap();
    graph
        .add_edge(edge_with("B_to_C", "B", "C", SampleCondition::Negative(NegativeCondition)))
        .unwrap();
    graph
}

#[test]
fn test_end_to_end_scenario() {
    let mut repository = MemoryConversationRepository::new();
    let conversation = Conversation::new("conv".to_string(), "A".to_string());
    repository.save_conversation(conversation).unwrap();

    let mut manager = FlowManager::new(repository, abc_graph());

    let first = Message::new("user".to_string(), "hello".to_string(), "ai".to_string());
    let result = manager.trigger_conversation("conv".to_string(), first);
    assert!(result.is_ok());

    let second = Message::new("user".to_string(), "again".to_string(), "ai".to_string());
    let result = manager.trigger_conversation("conv".to_string(), second);
    match result {
        Err(FlowManagerError::NextNodeNotFound(id)) => assert_eq!(id, "B"),
        other => panic!("expected NextNodeNotFound, got {:?}", other.map(|_| ())),
    }

    let (repository, _) = manager.into_parts();
    let stored = repository.get_conversation("conv".to_string()).unwrap();
    assert_eq!(stored.get_current_node_id(), "B");
    assert_eq!(stored.get_messages().len(), 1);
}

#[test]
fn test_turn_advances_cursor_and_history() {
    let mut repository = MemoryConversationRepository::new();
    let conversation = Conversation::new("conv".to_string(), "A".to_string());
    repository.save_conversation(conversation).unwrap();

    let mut manager = FlowManager::new(repository, abc_graph());
    let message = Message::new("user".to_string(), "hello".to_string(), "ai".to_string());
    let message_id = message.get_id();
    manager
        .trigger_conversation("conv".to_string(), message)
        .unwrap();

    let (repository, _) = manager.into_parts();
    let stored = repository.get_conversation("conv".to_string()).unwrap();
    assert_eq!(stored.get_current_node_id(), "B");
    let history = stored.get_messages();
    assert_eq!(history.len(), 1);
    assert_eq!(history[0].get_id(), message_id);
}

#[test]
fn test_failed_turn_is_not_persisted() {
    let mut repository = MemoryConversationRepository::new();
    let conversation = Conversation::new("conv".to_string(), "X".to_string());
    repository.save_conversation(conversation).unwrap();

    let mut graph: FlowGraph<SampleAction, SampleCondition> = FlowGraph::new();
    let mut failing = node("X");
    failing.add_action(SampleAction::Test(TestAction::new(&FlowValue::Null)));
    failing.add_action(SampleAction::Fail(FailTestAction));
    graph.add_node(failing).unwrap();

    let mut manager = FlowManager::new(repository, graph);
    let message = Message::new("user".to_string(), "hello".to_string(), "ai".to_string());
    let result = manager.trigger_conversation("conv".to_string(), message);
    match result {
        Err(FlowManagerError::NodeExecutionFailed(cause)) => {
            assert_eq!(cause, "Action failed");
        }
        other => panic!("expected NodeExecutionFailed, got {:?}", other.map(|_| ())),
    }

    let (repository, graph) = manager.into_parts();
    let stored = repository.get_conversation("conv".to_string()).unwrap();
    assert_eq!(stored.get_current_node_id(), "X");
    assert_eq!(stored.get_messages().len(), 0);

    let step = graph.get_node("X").unwrap();
    assert_eq!(
        step.get_var_context("test_var".to_string()),
        Some(FlowValue::String("test_value".to_string()))
    );
}

#[test]
fn test_unknown_conversation_is_reported() {
    let repository = MemoryConversationRepository::new();
    let mut manager = FlowManager::new(repository, abc_graph());
    let message = Message::new("user".to_string(), "hello".to_string(), "ai".to_string());
    let result = manager.trigger_conversation("ghost".to_string(), message);
    match result {
        Err(FlowManagerError::ConversationNotFound(id)) => assert_eq!(id, "ghost"),
        other => panic!("expected ConversationNotFound, got {:?}", other.map(|_| ())),
    }
}

#[test]
fn test_unknown_step_is_reported() {
    let mut repository = MemoryConversationRepository::new();
    let conversation = Conversation::new("conv".to_string(), "nowhere".to_string());
    repository.save_conversation(conversation).unwrap();

    let mut manager = FlowManager::new(repository, abc_graph());
    let message = Message::new("user".to_string(), "hello".to_string(), "ai".to_string());
    let result = manager.trigger_conversation("conv".to_string(), message);
    match result {
        Err(FlowManagerError::NodeNotFound(id)) => assert_eq!(id, "nowhere"),
        other => panic!("expected NodeNotFound, got {:?}", other.map(|_| ())),
    }
}
