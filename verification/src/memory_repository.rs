//! An in-memory conversation store: the simplest
//! [`ConversationRepository`], keyed by conversation id.

use vstd::prelude::*;

use crate::conversation::{
    Conversation, ConversationRepository, ConversationView, MessageView, RepositoryError,
};
use crate::strmap::StrMap;

verus! {

broadcast use vstd::std_specs::vec::group_vec_axioms, vstd::seq::group_seq_axioms,
    vstd::map::group_map_axioms, vstd::set::group_set_axioms;

/// The epoch second an ISO-8601/RFC 3339 timestamp denotes, or nothing
/// when the text does not parse. The result depends on the text alone;
/// this name stands for it, tied to the outside parser below.
pub uninterp spec fn rfc3339_epoch(s: Seq<char>) -> Option<int>;

/// Relies on `chrono::DateTime::parse_from_rfc3339` and
/// `chrono::DateTime::timestamp`: parses a timestamp and reads the epoch
/// second it denotes; [`rfc3339_epoch`] names the composite result.
#[verifier::external_body]
fn parse_timestamp_epoch(s: &str) -> (r: Option<i64>)
    ensures
        match r {
            Some(t) => rfc3339_epoch(s@) == Some(t as int),
            None => rfc3339_epoch(s@) is None,
        },
{
    match chrono::DateTime::parse_from_rfc3339(s) {
        Ok(dt) => Some(dt.timestamp()),
        Err(_) => None,
    }
}

/// Whether a history holds a message addressed to the recipient.
pub open spec fn history_has_recipient(history: Seq<MessageView>, recipient: Seq<char>) -> bool {
    exists|i: int| 0 <= i < history.len() && (#[trigger] history[i]).recipient == recipient
}

/// Whether a history holds a message written by the sender.
pub open spec fn history_has_sender(history: Seq<MessageView>, sender: Seq<char>) -> bool {
    exists|i: int| 0 <= i < history.len() && (#[trigger] history[i]).sender == sender
}

/// The timestamp of the last message in a history addressed to the
/// recipient, read as an epoch second; zero when there is no such message
/// or its timestamp does not parse.
pub open spec fn last_recipient_epoch(history: Seq<MessageView>, recipient: Seq<char>) -> int
    decreases history.len(),
{
    if history.len() == 0 {
        0
    } else if history.last().recipient == recipient {
        match rfc3339_epoch(history.last().timestamp) {
            Some(t) => t,
            None => 0,
        }
    } else {
        last_recipient_epoch(history.drop_last(), recipient)
    }
}

/// An in-memory conversation store keyed by conversation id, holding each
/// id once in insertion order.
#[derive(Debug)]
pub struct MemoryConversationRepository {
    conversations: StrMap<Conversation>,
}

impl View for MemoryConversationRepository {
    type V = Map<Seq<char>, ConversationView>;

    closed spec fn view(&self) -> Map<Seq<char>, ConversationView> {
        self.conversations@.map_values(|c: Conversation| c@)
    }
}

impl MemoryConversationRepository {
    /// An empty store.
    pub fn new() -> (r: MemoryConversationRepository)
        ensures
            r.inv(),
            r@ == Map::<Seq<char>, ConversationView>::empty(),
    {
        let r = MemoryConversationRepository { conversations: StrMap::new() };
        proof {
            assert(r@ =~= Map::<Seq<char>, ConversationView>::empty());
        }
        r
    }
}

impl ConversationRepository for MemoryConversationRepository {
    /// Internal shape: the table holds each id once.
    closed spec fn inv(&self) -> bool {
        self.conversations.wf()
    }

    /// Looks a conversation up by its id; a copy of the stored record.
    fn get_conversation(&self, conversation_id: String) -> (r: Result<
        Conversation,
        RepositoryError,
    >) {
        match self.conversations.get(conversation_id.as_str()) {
            Some(conversation) => Ok(conversation.clone()),
            None => Err(RepositoryError { message: "Conversation not found".to_owned() }),
        }
    }

    /// Finds some stored conversation holding a message addressed to the
    /// recipient.
    #[verifier::loop_isolation(false)]
    fn get_conversation_by_recipient(&self, recipient: String) -> (r: Result<
        Conversation,
        RepositoryError,
    >) {
        let n = self.conversations.entry_count();
        let mut i: usize = 0;
        while i < n
            invariant
                self.inv(),
                n == self.conversations.entry_keys().len(),
                i <= n,
            decreases n - i,
        {
            let entry = self.conversations.entry_at(i);
            if has_message_to(entry.1, recipient.as_str()) {
                return Ok(entry.1.clone());
            }
            i += 1;
        }
        Err(RepositoryError { message: "Conversation not found".to_owned() })
    }

    /// Finds some stored conversation holding a message written by the
    /// sender.
    #[verifier::loop_isolation(false)]
    fn get_conversation_by_sender(&self, sender: String) -> (r: Result<
        Conversation,
        RepositoryError,
    >) {
        let n = self.conversations.entry_count();
        let mut i: usize = 0;
        while i < n
            invariant
                self.inv(),
                n == self.conversations.entry_keys().len(),
                i <= n,
            decreases n - i,
        {
            let entry = self.conversations.entry_at(i);
            if has_message_from(entry.1, sender.as_str()) {
                return Ok(entry.1.clone());
            }
            i += 1;
        }
        Err(RepositoryError { message: "Conversation not found".to_owned() })
    }

    /// Finds the stored conversation whose last message to the recipient
    /// carries the newest timestamp; an unparsable or missing timestamp
    /// counts as the epoch. Among ties, a later-stored conversation wins.
    #[verifier::loop_isolation(false)]
    fn get_last_conversation_by_recipient(&self, recipient: String) -> (r: Result<
        Conversation,
        RepositoryError,
    >) {
        let n = self.conversations.entry_count();
        if n == 0 {
            return Err(RepositoryError { message: "Conversation not found".to_owned() });
        }
        let first = self.conversations.entry_at(0);
        let mut best: Conversation = first.1.clone();
        let mut best_key: i64 = conversation_recipient_epoch(&best, recipient.as_str());
        let mut i: usize = 1;
        while i < n
            invariant
                self.inv(),
                n == self.conversations.entry_keys().len(),
                1 <= i <= n,
            decreases n - i,
        {
            let entry = self.conversations.entry_at(i);
            let key = conversation_recipient_epoch(entry.1, recipient.as_str());
            if key >= best_key {
                best = entry.1.clone();
                best_key = key;
            }
            i += 1;
        }
        Ok(best)
    }

    /// Stores a conversation under its own id, replacing any earlier
    /// record with that id.
    fn save_conversation(&mut self, conversation: Conversation) -> (r: Result<
        (),
        RepositoryError,
    >) {
        let id = conversation.get_id();
        self.conversations.insert(id, conversation);
        Ok(())
    }

    /// Stores a conversation under the given id, replacing any earlier
    /// record with that id.
    fn update_conversation(&mut self, conversation_id: String, conversation: Conversation) -> (r:
        Result<(), RepositoryError>) {
        self.conversations.insert(conversation_id, conversation);
        Ok(())
    }
}

/// Whether the conversation's history holds a message addressed to the
/// recipient.
#[verifier::loop_isolation(false)]
fn has_message_to(conversation: &Conversation, recipient: &str) -> (r: bool)
    ensures
        r == history_has_recipient(conversation@.history, recipient@),
{
    let messages = conversation.get_messages();
    let k: String = recipient.to_owned();
    let mut i: usize = 0;
    while i < messages.len()
        invariant
            i <= messages.len(),
            messages@.len() == conversation@.history.len(),
            forall|j: int| 0 <= j < messages@.len() ==> (#[trigger] messages@[j])@
                == conversation@.history[j],
            forall|j: int| 0 <= j < i ==> (#[trigger] conversation@.history[j]).recipient
                != recipient@,
        decreases messages.len() - i,
    {
        if messages[i].recipient == k {
            proof {
                assert(conversation@.history[i as int].recipient == recipient@);
            }
            return true;
        }
        i += 1;
    }
    false
}

/// Whether the conversation's history holds a message written by the
/// sender.
#[verifier::loop_isolation(false)]
fn has_message_from(conversation: &Conversation, sender: &str) -> (r: bool)
    ensures
        r == history_has_sender(conversation@.history, sender@),
{
    let messages = conversation.get_messages();
    let k: String = sender.to_owned();
    let mut i: usize = 0;
    while i < messages.len()
        invariant
            i <= messages.len(),
            messages@.len() == conversation@.history.len(),
            forall|j: int| 0 <= j < messages@.len() ==> (#[trigger] messages@[j])@
                == conversation@.history[j],
            forall|j: int| 0 <= j < i ==> (#[trigger] conversation@.history[j]).sender != sender@,
        decreases messages.len() - i,
    {
        if messages[i].sender == k {
            proof {
                assert(conversation@.history[i as int].sender == sender@);
            }
            return true;
        }
        i += 1;
    }
    false
}

/// The epoch second of the conversation's last message to the recipient;
/// zero when there is none or its timestamp does not parse.
#[verifier::loop_isolation(false)]
fn conversation_recipient_epoch(conversation: &Conversation, recipient: &str) -> (r: i64)
    ensures
        r as int == last_recipient_epoch(conversation@.history, recipient@),
{
    let messages = conversation.get_messages();
    let k: String = recipient.to_owned();
    let mut i: usize = messages.len();
    proof {
        assert(conversation@.history.take(i as int) =~= conversation@.history);
    }
    while i > 0
        invariant
            i <= messages.len(),
            messages@.len() == conversation@.history.len(),
            forall|j: int| 0 <= j < messages@.len() ==> (#[trigger] messages@[j])@
                == conversation@.history[j],
            last_recipient_epoch(conversation@.history, recipient@) == last_recipient_epoch(
                conversation@.history.take(i as int),
                recipient@,
            ),
        decreases i,
    {
        i = i - 1;
        proof {
            assert(conversation@.history.take(i as int + 1).drop_last()
                =~= conversation@.history.take(i as int));
            assert(conversation@.history.take(i as int + 1).last()
                == conversation@.history[i as int]);
        }
        if messages[i].recipient == k {
            let t = match parse_timestamp_epoch(messages[i].timestamp.as_str()) {
                Some(t) => t,
                None => 0,
            };
            proof {
                assert(conversation@.history[i as int].timestamp == messages@[i as int]@.timestamp);
            }
            return t;
        }
    }
    proof {
        assert(conversation@.history.take(0) =~= Seq::<MessageView>::empty());
    }
    0
}

} // verus!
