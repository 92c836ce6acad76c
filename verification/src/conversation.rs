//! Persisted turn-taking state: messages, their append-only history, and the
//! cursor that marks the step a conversation is currently positioned at.

use vstd::prelude::*;

verus! {

broadcast use vstd::std_specs::vec::group_vec_axioms, vstd::seq::group_seq_axioms,
    vstd::map::group_map_axioms, vstd::set::group_set_axioms;

/// The payload of a message. `Image` and `Audio` carry no payload yet; they
/// are placeholders for future media.
#[derive(Debug, PartialEq)]
pub enum MessageType {
    Text(String),
    Image,
    Audio,
}

/// Spec-level shape of a [`MessageType`].
pub enum MessageTypeView {
    Text(Seq<char>),
    Image,
    Audio,
}

impl View for MessageType {
    type V = MessageTypeView;

    open spec fn view(&self) -> MessageTypeView {
        match self {
            MessageType::Text(s) => MessageTypeView::Text(s@),
            MessageType::Image => MessageTypeView::Image,
            MessageType::Audio => MessageTypeView::Audio,
        }
    }
}

impl Clone for MessageType {
    /// A copy equal to the original.
    fn clone(&self) -> (r: MessageType)
        ensures
            r == *self,
    {
        match self {
            MessageType::Text(s) => MessageType::Text(s.clone()),
            MessageType::Image => MessageType::Image,
            MessageType::Audio => MessageType::Audio,
        }
    }
}

/// An immutable record of one exchanged message. Created once, never mutated;
/// ordering between messages is insertion order.
#[derive(Debug, PartialEq)]
pub struct Message {
    pub id: String,
    pub content: MessageType,
    pub sender: String,
    pub recipient: String,
    pub timestamp: String,
}

/// Spec-level shape of a [`Message`].
#[verifier::ext_equal]
pub struct MessageView {
    pub id: Seq<char>,
    pub content: MessageTypeView,
    pub sender: Seq<char>,
    pub recipient: Seq<char>,
    pub timestamp: Seq<char>,
}

impl View for Message {
    type V = MessageView;

    open spec fn view(&self) -> MessageView {
        MessageView {
            id: self.id@,
            content: self.content@,
            sender: self.sender@,
            recipient: self.recipient@,
            timestamp: self.timestamp@,
        }
    }
}

impl Clone for Message {
    /// A copy equal to the original.
    fn clone(&self) -> (r: Message)
        ensures
            r == *self,
    {
        Message {
            id: self.id.clone(),
            content: self.content.clone(),
            sender: self.sender.clone(),
            recipient: self.recipient.clone(),
            timestamp: self.timestamp.clone(),
        }
    }
}

/// Relies on `uuid::Uuid::new_v4` and `uuid::fmt::Hyphenated`: a freshly
/// drawn random identifier, rendered in the hyphenated textual form. The
/// result depends on the random number generator, so nothing is promised
/// about it.
#[verifier::external_body]
fn fresh_message_id() -> String {
    uuid::Uuid::new_v4().to_string()
}

/// Relies on `chrono::Utc::now` and `chrono::DateTime::to_rfc3339`: the
/// current wall-clock instant, rendered as an ISO-8601/RFC 3339 string. The
/// result depends on the clock, so nothing is promised about it.
#[verifier::external_body]
fn now_timestamp() -> String {
    chrono::Utc::now().to_rfc3339()
}

impl Message {
    /// Builds a fresh text message: the id is a newly drawn unique token and
    /// the timestamp is the current instant, so only the remaining fields
    /// are pinned down.
    pub fn new(sender: String, content: String, recipient: String) -> (r: Message)
        ensures
            r@.content == MessageTypeView::Text(content@),
            r@.sender == sender@,
            r@.recipient == recipient@,
    {
        Message {
            id: fresh_message_id(),
            content: MessageType::Text(content),
            sender,
            recipient,
            timestamp: now_timestamp(),
        }
    }

    /// Builds a message from parts chosen by the caller.
    pub fn new_with_id(
        id: String,
        sender: String,
        content: MessageType,
        recipient: String,
        timestamp: String,
    ) -> (r: Message)
        ensures
            r@ == (MessageView {
                id: id@,
                content: content@,
                sender: sender@,
                recipient: recipient@,
                timestamp: timestamp@,
            }),
    {
        Message { id, content, sender, recipient, timestamp }
    }

    /// The opaque unique token that identifies this message.
    pub fn get_id(&self) -> (r: String)
        ensures
            r@ == self@.id,
    {
        self.id.clone()
    }
}

/// Persisted turn-taking state: an append-only history of messages and the
/// cursor naming the step the conversation currently sits at. The timeout is
/// reserved and unused by the decision logic.
#[derive(Debug, PartialEq)]
pub struct Conversation {
    pub id: String,
    history: Vec<Message>,
    current_node_id: String,
    timeout: i16,
}

/// Spec-level shape of a [`Conversation`].
#[verifier::ext_equal]
pub struct ConversationView {
    pub id: Seq<char>,
    pub history: Seq<MessageView>,
    pub current_node_id: Seq<char>,
    pub timeout: int,
}

impl View for Conversation {
    type V = ConversationView;

    closed spec fn view(&self) -> ConversationView {
        ConversationView {
            id: self.id@,
            history: Seq::new(self.history@.len(), |i: int| self.history@[i]@),
            current_node_id: self.current_node_id@,
            timeout: self.timeout as int,
        }
    }
}

impl Clone for Conversation {
    /// A copy with the same view.
    fn clone(&self) -> (r: Conversation)
        ensures
            r@ == self@,
    {
        let mut history: Vec<Message> = Vec::new();
        let mut i: usize = 0;
        while i < self.history.len()
            invariant
                i <= self.history.len(),
                history@.len() == i as int,
                forall|j: int| 0 <= j < i ==> history@[j] == self.history@[j],
            decreases self.history.len() - i,
        {
            let m = self.history[i].clone();
            history.push(m);
            i += 1;
        }
        let r = Conversation {
            id: self.id.clone(),
            history,
            current_node_id: self.current_node_id.clone(),
            timeout: self.timeout,
        };
        proof {
            assert(r@.history =~= self@.history);
        }
        r
    }
}

impl Conversation {
    /// A new conversation with an empty history, positioned at the given
    /// step.
    pub fn new(id: String, current_node_id: String) -> (r: Conversation)
        ensures
            r@ == (ConversationView {
                id: id@,
                history: Seq::empty(),
                current_node_id: current_node_id@,
                timeout: 0,
            }),
    {
        let r = Conversation { id, history: Vec::new(), current_node_id, timeout: 0 };
        proof {
            assert(r@.history =~= Seq::<MessageView>::empty());
        }
        r
    }

    /// Appends one message to the history.
    pub fn add_message(&mut self, message: Message)
        ensures
            final(self)@ == (ConversationView {
                history: old(self)@.history.push(message@),
                ..old(self)@
            }),
    {
        self.history.push(message);
        proof {
            assert(self@.history =~= old(self)@.history.push(message@));
        }
    }

    /// Appends a batch of messages to the history, keeping their order.
    pub fn add_messages(&mut self, messages: Vec<Message>)
        ensures
            final(self)@ == (ConversationView {
                history: old(self)@.history + Seq::new(messages@.len(), |i: int| messages@[i]@),
                ..old(self)@
            }),
    {
        let mut i: usize = 0;
        while i < messages.len()
            invariant
                i <= messages.len(),
                self.id == old(self).id,
                self.current_node_id == old(self).current_node_id,
                self.timeout == old(self).timeout,
                self.history@.len() == old(self).history@.len() + i as int,
                forall|j: int|
                    0 <= j < old(self).history@.len() ==> self.history@[j] == old(
                        self,
                    ).history@[j],
                forall|j: int|
                    0 <= j < i ==> self.history@[old(self).history@.len() + j] == messages@[j],
            decreases messages.len() - i,
        {
            let m = messages[i].clone();
            self.history.push(m);
            i += 1;
        }
        proof {
            assert(self@.history =~= old(self)@.history + Seq::new(
                messages@.len(),
                |i: int| messages@[i]@,
            ));
        }
    }

    /// The full history, oldest first.
    pub fn get_messages(&self) -> (r: Vec<Message>)
        ensures
            r@.len() == self@.history.len(),
            forall|i: int| 0 <= i < r@.len() ==> r@[i]@ == self@.history[i],
    {
        let mut r: Vec<Message> = Vec::new();
        let mut i: usize = 0;
        while i < self.history.len()
            invariant
                i <= self.history.len(),
                r@.len() == i as int,
                forall|j: int| 0 <= j < i ==> r@[j] == self.history@[j],
            decreases self.history.len() - i,
        {
            let m = self.history[i].clone();
            r.push(m);
            i += 1;
        }
        r
    }

    /// Moves the cursor to the given step.
    pub fn set_current_node_id(&mut self, node_id: String)
        ensures
            final(self)@ == (ConversationView { current_node_id: node_id@, ..old(self)@ }),
    {
        self.current_node_id = node_id;
        proof {
            assert(self@.history =~= old(self)@.history);
        }
    }

    /// The conversation's own id.
    pub fn get_id(&self) -> (r: String)
        ensures
            r@ == self@.id,
    {
        self.id.clone()
    }

    /// The step the conversation currently sits at.
    pub fn get_current_node_id(&self) -> (r: String)
        ensures
            r@ == self@.current_node_id,
    {
        self.current_node_id.clone()
    }
}

/// A failure reported by a conversation store.
#[derive(Debug)]
pub struct RepositoryError {
    pub message: String,
}

/// The persistence boundary the orchestrator talks to. Implementations own
/// the stored conversations; the engine borrows one for the duration of a
/// single turn. All methods are fallible; nothing further is promised about
/// a store chosen by the host.
pub trait ConversationRepository: Sized {
    /// The store's own well-formedness, maintained by every operation.
    spec fn inv(&self) -> bool;

    /// Looks a conversation up by its id.
    fn get_conversation(&self, conversation_id: String) -> Result<Conversation, RepositoryError>
        requires
            self.inv(),
    ;

    /// Finds a conversation holding a message addressed to the recipient.
    fn get_conversation_by_recipient(&self, recipient: String) -> Result<
        Conversation,
        RepositoryError,
    >
        requires
            self.inv(),
    ;

    /// Finds a conversation holding a message written by the sender.
    fn get_conversation_by_sender(&self, sender: String) -> Result<Conversation, RepositoryError>
        requires
            self.inv(),
    ;

    /// Finds the conversation whose last message to the recipient is newest.
    fn get_last_conversation_by_recipient(&self, recipient: String) -> Result<
        Conversation,
        RepositoryError,
    >
        requires
            self.inv(),
    ;

    /// Stores a new conversation.
    fn save_conversation(&mut self, conversation: Conversation) -> (r: Result<
        (),
        RepositoryError,
    >)
        requires
            old(self).inv(),
        ensures
            final(self).inv(),
    ;

    /// Replaces the stored conversation under the given id.
    fn update_conversation(&mut self, conversation_id: String, conversation: Conversation) -> (r:
        Result<(), RepositoryError>)
        requires
            old(self).inv(),
        ensures
            final(self).inv(),
    ;
}

} // verus!
