use backend::backend::BackendRequest;
use backend::conversation::{Conversation, ConversationError};
use backend::message::{Message, Metadata, TaskAction, Timestamp, User};
use backend::reducer::ConversationAction;

fn msg(id: &str, user: User, text: &str) -> Message {
    Message {
        time: Timestamp { secs: 0, nanos: 0 },
        meta: Metadata { task_actions: Vec::<TaskAction>::new(), omit_history_until: None, exclude_from_training: false },
        user,
        msg: text.to_string(),
        id: id.to_string(),
    }
}

fn conversation(ids: &[&str]) -> Conversation {
    Conversation {
        id: Some("c1".to_string()),
        messages: ids.iter().map(|i| msg(i, User::Jake, i)).collect(),
        time: Timestamp { secs: 5, nanos: 0 },
    }
}

fn ids(c: &Conversation) -> Vec<String> {
    c.messages.iter().map(|m| m.id.clone()).collect()
}

#[test]
fn deleting_an_absent_id_is_a_no_op() {
    let mut c = conversation(&["a", "b"]);
    let before = c.clone();
    assert_eq!(c.apply(ConversationAction::DeleteMessage { id: "zz".to_string() }), Ok(None));
    assert_eq!(c, before);
}

#[test]
fn deleting_removes_every_match() {
    let mut c = conversation(&["a", "b", "a", "c"]);
    assert_eq!(c.apply(ConversationAction::DeleteMessage { id: "a".to_string() }), Ok(None));
    assert_eq!(ids(&c), vec!["b", "c"]);
}

#[test]
fn adding_inserts_or_appends_a_fresh_message() {
    let mut c = conversation(&["a", "b"]);
    assert_eq!(c.apply(ConversationAction::AddMessage { index: Some(1), user: User::Zack }), Ok(None));
    assert_eq!(c.messages.len(), 3);
    assert_eq!(c.messages[1].user, User::Zack);
    assert_eq!(c.messages[1].msg, "");
    assert_eq!(c.messages[2].id, "b");
    assert_eq!(c.apply(ConversationAction::AddMessage { index: None, user: User::System }), Ok(None));
    assert_eq!(c.messages[3].user, User::System);
    assert_ne!(c.messages[1].id, c.messages[3].id);
}

#[test]
fn adding_past_the_end_fails() {
    let mut c = conversation(&["a"]);
    let before = c.clone();
    assert_eq!(
        c.apply(ConversationAction::AddMessage { index: Some(2), user: User::Jake }),
        Err(ConversationError::IndexOutOfRange)
    );
    assert_eq!(c, before);
}

#[test]
fn mutating_replaces_by_id() {
    let mut c = conversation(&["a", "b"]);
    let new = msg("b", User::Zack, "changed");
    assert_eq!(c.apply(ConversationAction::MutateMessage { new_message: new.clone() }), Ok(None));
    assert_eq!(c.messages[1], new);
    let missing = msg("zz", User::Zack, "x");
    assert_eq!(
        c.apply(ConversationAction::MutateMessage { new_message: missing }),
        Err(ConversationError::MessageNotFound)
    );
}

#[test]
fn evaluating_splices_follow_ups_after_the_message() {
    let mut c = conversation(&["a", "b"]);
    c.messages[0].msg = "[(task start --name one)] [(task start -n two)]".to_string();
    assert_eq!(c.apply(ConversationAction::EvalMessage { id: "a".to_string(), outputs: vec![] }), Ok(None));
    assert_eq!(c.messages.len(), 4);
    assert_eq!(c.messages[1].msg, "Task \"one\" started");
    assert_eq!(c.messages[2].msg, "Task \"two\" started");
    assert_eq!(c.messages[3].id, "b");
    assert_eq!(c.messages[0].meta.task_actions.len(), 4);
    assert_eq!(c.id, Some("c1".to_string()));
}

#[test]
fn evaluating_leaves_the_conversation_when_the_backend_is_needed() {
    let mut c = conversation(&["a"]);
    c.messages[0].msg = "[<ls>]".to_string();
    let before = c.clone();
    assert_eq!(
        c.apply(ConversationAction::EvalMessage { id: "a".to_string(), outputs: vec![] }),
        Ok(Some(BackendRequest::Execute("ls".to_string())))
    );
    assert_eq!(c, before);
    assert_eq!(
        c.apply(ConversationAction::EvalMessage { id: "zz".to_string(), outputs: vec![] }),
        Err(ConversationError::MessageNotFound)
    );
}

#[test]
fn fresh_messages_get_distinct_ids_and_the_current_time() {
    let a = Message::new(User::Jake);
    let b = Message::new_with_msg(User::Zack, "hi".to_string());
    assert_ne!(a.id, b.id);
    assert_eq!(a.id.len(), 36);
    assert!(a.time.secs > 1_600_000_000);
    assert!(a.time.nanos < 1_000_000_000);
    assert_eq!(b.msg, "hi");
    assert_eq!(b.meta, Metadata::default());
}

#[test]
fn storage_keys_are_kept_or_assigned_once() {
    let mut c = conversation(&["a"]);
    assert_eq!(c.ensure_id(), "c1");
    let mut fresh = Conversation::default();
    assert!(fresh.id.is_none());
    let key = fresh.ensure_id();
    assert_eq!(fresh.id, Some(key.clone()));
    assert_eq!(fresh.ensure_id(), key);
    assert!(fresh.messages.is_empty());
}

#[test]
fn adding_to_an_empty_conversation_succeeds() {
    let mut c = Conversation::default();
    assert_eq!(c.apply(ConversationAction::AddMessage { index: Some(0), user: User::Jake }), Ok(None));
    assert_eq!(c.messages.len(), 1);
    let existing = c.messages[0].clone();
    assert_eq!(c.insert_new(0, existing), Err(ConversationError::DuplicateId));
    assert_eq!(c.messages.len(), 1);
}
