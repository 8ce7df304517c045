use backend::conversation::{Conversation, ConversationError};
use backend::message::{Message, Metadata, TaskAction, Timestamp, User};

fn msg(id: &str, user: User, text: &str, actions: Vec<TaskAction>) -> Message {
    Message {
        time: Timestamp { secs: 0, nanos: 0 },
        meta: Metadata { task_actions: actions, omit_history_until: None, exclude_from_training: false },
        user,
        msg: text.to_string(),
        id: id.to_string(),
    }
}

fn create(id: &str, name: &str) -> TaskAction {
    TaskAction::Create { id: id.to_string(), name: name.to_string() }
}

fn enter(id: &str) -> TaskAction {
    TaskAction::Enter { id: id.to_string() }
}

fn exit(id: &str, summary: &str) -> TaskAction {
    TaskAction::Exit { id: id.to_string(), summary: summary.to_string() }
}

fn conversation(messages: Vec<Message>) -> Conversation {
    Conversation { id: None, messages, time: Timestamp { secs: 0, nanos: 0 } }
}

fn stack_names(c: &Conversation, id: &str, inclusive: bool) -> Vec<String> {
    c.get_task_stack(id, inclusive).unwrap().into_iter().map(|t| t.name).collect()
}

fn nested() -> Conversation {
    conversation(vec![
        msg("m1", User::Jake, "", vec![create("A", "task a"), enter("A")]),
        msg("m2", User::Jake, "", vec![create("B", "task b"), enter("B")]),
        msg("m3", User::Jake, "", vec![exit("B", "done")]),
        msg("m4", User::Jake, "", vec![]),
    ])
}

#[test]
fn stack_after_exit_and_after_enter() {
    let c = nested();
    assert_eq!(stack_names(&c, "m4", true), vec!["task a".to_string()]);
    assert_eq!(stack_names(&c, "m3", false), vec!["task a".to_string(), "task b".to_string()]);
    assert_eq!(stack_names(&c, "m2", true), vec!["task a".to_string(), "task b".to_string()]);
    assert_eq!(stack_names(&c, "m1", false), Vec::<String>::new());
    assert_eq!(stack_names(&c, "absent", false), vec!["task a".to_string()]);
}

#[test]
fn tasks_record_completion() {
    let c = nested();
    let tasks = c.get_tasks_till("m4", true).unwrap();
    assert_eq!(tasks.len(), 2);
    assert_eq!(tasks[0].id, "A");
    assert!(!tasks[0].done);
    assert_eq!(tasks[0].msg_start_id, "m1");
    assert_eq!(tasks[1].id, "B");
    assert!(tasks[1].done);
    assert_eq!(tasks[1].summary, Some("done".to_string()));
    assert_eq!(tasks[1].msg_start_id, "m2");
    assert_eq!(tasks[1].msg_end_id, Some("m3".to_string()));
}

#[test]
fn exit_without_create_fails() {
    let c = conversation(vec![msg("m1", User::Jake, "", vec![exit("X", "s")])]);
    assert_eq!(c.get_tasks_till("m1", true).unwrap_err(), ConversationError::UnknownTaskExit);
    assert_eq!(c.get_task_stack("m1", true).unwrap_err(), ConversationError::UnknownTaskExit);
    assert_eq!(c.get_task_stack("m1", false).unwrap(), vec![]);
}

#[test]
fn enter_without_create_fails() {
    let c = conversation(vec![msg("m1", User::Jake, "", vec![enter("X")])]);
    assert_eq!(c.get_task_stack("m1", true).unwrap_err(), ConversationError::UnknownTaskEnter);
}

#[test]
fn reentering_an_open_task_pushes_it_again() {
    let c = conversation(vec![msg("m1", User::Jake, "", vec![create("A", "a"), enter("A"), enter("A")])]);
    assert_eq!(stack_names(&c, "m1", true), vec!["a".to_string(), "a".to_string()]);
}

#[test]
fn messages_till_a_cut() {
    let c = nested();
    let ids = |v: Vec<Message>| v.into_iter().map(|m| m.id).collect::<Vec<_>>();
    assert_eq!(ids(c.get_msgs_till("m2", false)), vec!["m1"]);
    assert_eq!(ids(c.get_msgs_till("m2", true)), vec!["m1", "m2"]);
    assert_eq!(ids(c.get_msgs_till("zz", true)), vec!["m1", "m2", "m3", "m4"]);
}
