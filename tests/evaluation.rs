use backend::backend::{BackendRequest, DockerResult, LogLine};
use backend::conversation::{Conversation, ConversationError};
use backend::eval::EvalStep;
use backend::message::{Message, Metadata, TaskAction, Timestamp, User};
use backend::reducer::ConversationAction;

fn msg(id: &str, user: User, text: &str, actions: Vec<TaskAction>) -> Message {
    Message {
        time: Timestamp { secs: 0, nanos: 0 },
        meta: Metadata { task_actions: actions, omit_history_until: None, exclude_from_training: false },
        user,
        msg: text.to_string(),
        id: id.to_string(),
    }
}

fn conversation(messages: Vec<Message>) -> Conversation {
    Conversation { id: None, messages, time: Timestamp { secs: 0, nanos: 0 } }
}

fn output(lines: &[&str]) -> DockerResult {
    DockerResult {
        output: lines
            .iter()
            .enumerate()
            .map(|(i, l)| {
                if i % 2 == 0 {
                    LogLine::StdOut { message: l.to_string() }
                } else {
                    LogLine::StdErr { message: l.to_string() }
                }
            })
            .collect(),
        exit_code: 0,
    }
}

fn finished(r: Result<EvalStep, ConversationError>) -> Vec<Message> {
    match r {
        Ok(EvalStep::Finished(v)) => v,
        _ => panic!("evaluation did not finish"),
    }
}

#[test]
fn task_start_records_and_announces() {
    let c = conversation(vec![]);
    let mut m = msg("m1", User::Jake, "[(task start --name \"write tests\")]", vec![]);
    let follow = finished(m.eval(&c, &vec![]));
    assert_eq!(m.meta.task_actions.len(), 2);
    let id = match &m.meta.task_actions[0] {
        TaskAction::Create { id, name } => {
            assert_eq!(name, "write tests");
            id.clone()
        }
        other => panic!("unexpected {:?}", other),
    };
    assert_eq!(m.meta.task_actions[1], TaskAction::Enter { id });
    assert_eq!(follow.len(), 1);
    assert_eq!(follow[0].user, User::System);
    assert_eq!(follow[0].msg, "Task \"write tests\" started");
}

#[test]
fn task_done_exits_the_top_task() {
    let c = conversation(vec![
        msg("m1", User::Jake, "", vec![
            TaskAction::Create { id: "A".to_string(), name: "outer".to_string() },
            TaskAction::Enter { id: "A".to_string() },
        ]),
        msg("m2", User::Jake, "[(task done -s finished)]", vec![]),
    ]);
    let mut m = c.messages[1].clone();
    let follow = finished(m.eval(&c, &vec![]));
    assert_eq!(m.meta.task_actions, vec![TaskAction::Exit { id: "A".to_string(), summary: "finished".to_string() }]);
    assert_eq!(follow.len(), 1);
    assert_eq!(follow[0].user, User::TaskReport { creator: Box::new(User::Jake) });
    assert_eq!(follow[0].msg, "Task \"outer\" finished with summary \"finished\"");
    assert_eq!(follow[0].meta.omit_history_until, Some("m1".to_string()));
}

#[test]
fn task_done_without_open_task_fails() {
    let c = conversation(vec![]);
    let mut m = msg("m1", User::Jake, "text [(task done --summary x)]", vec![]);
    let before = m.clone();
    assert_eq!(m.eval(&c, &vec![]).err(), Some(ConversationError::NoOpenTask));
    assert_eq!(m, before);
}

#[test]
fn execution_needs_the_backend_then_uses_its_output() {
    let c = conversation(vec![]);
    let mut m = msg("m1", User::Jake, "[<echo hi>] and [(nexos rebuild)]", vec![]);
    match m.eval(&c, &vec![]) {
        Ok(EvalStep::NeedsBackend(BackendRequest::Execute(cmd))) => assert_eq!(cmd, "echo hi"),
        _ => panic!("expected an execution request"),
    }
    match m.eval(&c, &vec![output(&["hi\n"])]) {
        Ok(EvalStep::NeedsBackend(BackendRequest::Rebuild)) => {}
        _ => panic!("expected a rebuild request"),
    }
    let follow = finished(m.eval(&c, &vec![output(&["hi", "\n"]), output(&["built"])]));
    assert_eq!(follow.len(), 2);
    assert_eq!(follow[0].user, User::Docker);
    assert_eq!(follow[0].msg, "hi\n");
    assert_eq!(follow[1].msg, "built");
}

#[test]
fn malformed_system_commands_become_messages() {
    let c = conversation(vec![]);
    let mut m = msg("m1", User::Jake, "[(task start)] [(task start --name \"open)]", vec![]);
    let follow = finished(m.eval(&c, &vec![]));
    assert_eq!(follow.len(), 2);
    assert_eq!(follow[0].user, User::Docker);
    assert!(follow[0].msg.starts_with("invalid system command: expected"));
    assert_eq!(follow[1].msg, "invalid system command: mismatched quotes");
    assert!(m.meta.task_actions.is_empty());
}

#[test]
fn reevaluation_gives_the_same_metadata() {
    let mut c = conversation(vec![
        msg("m1", User::Jake, "", vec![
            TaskAction::Create { id: "A".to_string(), name: "a".to_string() },
            TaskAction::Enter { id: "A".to_string() },
        ]),
        msg("m2", User::Jake, "[<ls>] [(task done --summary ok)]", vec![]),
    ]);
    let outputs = vec![output(&["file"])];
    let eval = |outputs: &Vec<DockerResult>| ConversationAction::EvalMessage { id: "m2".to_string(), outputs: outputs.clone() };
    assert_eq!(c.apply(eval(&outputs)), Ok(None));
    let first = c.messages[1].meta.clone();
    assert_eq!(c.messages.len(), 4);
    assert_eq!(c.apply(eval(&outputs)), Ok(None));
    assert_eq!(c.messages[1].meta, first);
    assert_eq!(c.messages.len(), 6);
    assert_eq!(c.messages[2].msg, "file");
    assert_eq!(c.messages[4].msg, "file");
}

#[test]
fn reevaluating_a_task_start_matches_but_for_the_task_id() {
    let mut c = conversation(vec![msg("m1", User::Jake, "[(task start --name t)]", vec![])]);
    let eval = || ConversationAction::EvalMessage { id: "m1".to_string(), outputs: vec![] };
    assert_eq!(c.apply(eval()), Ok(None));
    let first = c.messages[0].meta.clone();
    assert_eq!(c.apply(eval()), Ok(None));
    let second = c.messages[0].meta.clone();
    assert_eq!(first.task_actions.len(), 2);
    assert_eq!(second.task_actions.len(), 2);
    match (&first.task_actions[0], &second.task_actions[0]) {
        (TaskAction::Create { name: a, .. }, TaskAction::Create { name: b, .. }) => assert_eq!(a, b),
        _ => panic!("expected task creations"),
    }
    assert_eq!(c.messages.len(), 3);
    assert_eq!(c.messages[1].msg, c.messages[2].msg);
    assert_ne!(c.messages[1].id, c.messages[2].id);
}
