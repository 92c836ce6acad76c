use core_flow::conversation::{Conversation, ConversationRepository, Message, MessageType};
use core_flow::memory_repository::MemoryConversationRepository;
use core_flow::value::{FlowValue, NodeContext};

#[test]
fn test_message_new_fills_fields() {
    let message = Message::new(
        "user".to_string(),
        "Hello, world!".to_string(),
        "ai".to_string(),
    );
    assert_eq!(message.sender, "user");
    assert_eq!(message.recipient, "ai");
    assert_eq!(message.content, MessageType::Text("Hello, world!".to_string()));
}

#[test]
fn test_message_new_with_id() {
    let message = Message::new_with_id(
        "m1".to_string(),
        "user".to_string(),
        MessageType::Text("hi".to_string()),
        "ai".to_string(),
        "2024-01-01T00:00:00+00:00".to_string(),
    );
    assert_eq!(message.get_id(), "m1");
    assert_eq!(message.timestamp, "2024-01-01T00:00:00+00:00");
}

#[test]
fn test_conversation_history_and_cursor() {
    let mut conversation = Conversation::new("conv".to_string(), "start".to_string());
    assert_eq!(conversation.get_current_node_id(), "start");
    assert_eq!(conversation.get_messages().len(), 0);

    let m1 = Message::new("user".to_string(), "one".to_string(), "ai".to_string());
    let m2 = Message::new("user".to_string(), "two".to_string(), "ai".to_string());
    conversation.add_message(m1.clone());
    conversation.add_messages(vec![m2.clone()]);

    let history = conversation.get_messages();
    assert_eq!(history.len(), 2);
    assert_eq!(history[0].get_id(), m1.get_id());
    assert_eq!(history[1].get_id(), m2.get_id());

    conversation.set_current_node_id("next".to_string());
    assert_eq!(conversation.get_current_node_id(), "next");
}

#[test]
fn test_memory_repository_save_and_get() {
    let mut repo = MemoryConversationRepository::new();
    let conversation = Conversation::new("test_id".to_string(), "node_1".to_string());

    repo.save_conversation(conversation.clone()).unwrap();

    let retrieved = repo.get_conversation("test_id".to_string());
    assert!(retrieved.is_ok());
    assert_eq!(retrieved.unwrap().id, "test_id");

    assert!(repo.get_conversation("missing".to_string()).is_err());
}

#[test]
fn test_memory_repository_lookup_by_participants() {
    let mut repo = MemoryConversationRepository::new();

    let mut conversation = Conversation::new("c1".to_string(), "start".to_string());
    conversation.add_message(Message::new(
        "user".to_string(),
        "hi".to_string(),
        "assistant".to_string(),
    ));
    repo.save_conversation(conversation).unwrap();

    let by_recipient = repo.get_conversation_by_recipient("assistant".to_string());
    assert!(by_recipient.is_ok());
    assert_eq!(by_recipient.unwrap().id, "c1");

    let by_sender = repo.get_conversation_by_sender("user".to_string());
    assert!(by_sender.is_ok());
    assert_eq!(by_sender.unwrap().id, "c1");

    assert!(repo.get_conversation_by_recipient("stranger".to_string()).is_err());
    assert!(repo.get_conversation_by_sender("stranger".to_string()).is_err());
}

#[test]
fn test_memory_repository_last_by_recipient() {
    let mut repo = MemoryConversationRepository::new();

    let mut older = Conversation::new("older".to_string(), "start".to_string());
    older.add_message(Message::new_with_id(
        "m1".to_string(),
        "user".to_string(),
        MessageType::Text("first".to_string()),
        "assistant".to_string(),
        "2024-01-01T00:00:00+00:00".to_string(),
    ));
    repo.save_conversation(older).unwrap();

    let mut newer = Conversation::new("newer".to_string(), "start".to_string());
    newer.add_message(Message::new_with_id(
        "m2".to_string(),
        "user".to_string(),
        MessageType::Text("second".to_string()),
        "assistant".to_string(),
        "2024-06-01T00:00:00+00:00".to_string(),
    ));
    repo.save_conversation(newer).unwrap();

    let last = repo.get_last_conversation_by_recipient("assistant".to_string());
    assert!(last.is_ok());
    assert_eq!(last.unwrap().id, "newer");
}

#[test]
fn test_context_set_get_remove() {
    let mut context = NodeContext::new();
    assert_eq!(context.var_count(), 0);
    assert!(context.get_var("x").is_none());

    context.set_var("x".to_string(), FlowValue::Number(3.5f64.to_bits()));
    context.set_var("y".to_string(), FlowValue::Boolean(true));
    assert_eq!(context.var_count(), 2);
    assert_eq!(
        context.get_var("x"),
        Some(&FlowValue::Number(3.5f64.to_bits()))
    );

    context.set_var("x".to_string(), FlowValue::Null);
    assert_eq!(context.var_count(), 2);
    assert_eq!(context.get_var("x"), Some(&FlowValue::Null));

    let removed = context.remove_var("x");
    assert_eq!(removed, Some(FlowValue::Null));
    assert_eq!(context.var_count(), 1);
    assert!(context.get_var("x").is_none());
}

#[test]
fn test_value_object_lookup() {
    let config = FlowValue::Object(vec![
        ("name".to_string(), FlowValue::String("step".to_string())),
        ("retries".to_string(), FlowValue::Number(2.0f64.to_bits())),
    ]);

    assert_eq!(
        config.get_key("name"),
        Some(&FlowValue::String("step".to_string()))
    );
    assert!(config.get_key("missing").is_none());
    assert!(FlowValue::Null.get_key("name").is_none());

    let messages = FlowValue::Messages(vec![Message::new(
        "user".to_string(),
        "hi".to_string(),
        "ai".to_string(),
    )]);
    assert_eq!(messages.as_messages().map(|m| m.len()), Some(1));
    assert!(config.as_messages().is_none());
}
