use backend::conversation::{Conversation, ConversationError};
use backend::message::{Message, Metadata, TaskAction, Timestamp, User};
use backend::training::{messages_prompt_data, MessagePromptTemplateEntry, MetadataPromptTemplateEntry};

fn msg(id: &str, user: User, text: &str, omit: Option<&str>) -> Message {
    Message {
        time: Timestamp { secs: 86_400 + 3_723, nanos: 0 },
        meta: Metadata {
            task_actions: Vec::<TaskAction>::new(),
            omit_history_until: omit.map(|s| s.to_string()),
            exclude_from_training: false,
        },
        user,
        msg: text.to_string(),
        id: id.to_string(),
    }
}

fn conversation(messages: Vec<Message>) -> Conversation {
    Conversation { id: None, messages, time: Timestamp { secs: 0, nanos: 0 } }
}

fn authors_and_values(v: &[MessagePromptTemplateEntry]) -> Vec<(String, String)> {
    v.iter().map(|e| (e.author.clone(), e.value.clone())).collect()
}

#[test]
fn window_keeps_the_boundary_message() {
    let c = conversation(vec![
        msg("m1", User::Zack, "one", None),
        msg("m2", User::Zack, "two", Some("m1")),
        msg("m3", User::Jake, "three", None),
    ]);
    let data = c.msg_training_data(2).unwrap();
    assert_eq!(
        authors_and_values(&data.msgs),
        vec![("Zack".to_string(), "\tone".to_string()), ("Zack".to_string(), "\ttwo".to_string())]
    );
    assert_eq!(data.response, "three");
}

#[test]
fn window_drops_what_lies_between() {
    let c = conversation(vec![
        msg("m0", User::Jake, "zero", None),
        msg("m1", User::Zack, "one", None),
        msg("mx", User::Docker, "inner", None),
        msg("my", User::System, "inner too", None),
        msg("m2", User::TaskReport { creator: Box::new(User::Jake) }, "two", Some("m1")),
        msg("m3", User::Jake, "three", None),
    ]);
    let data = c.msg_training_data(5).unwrap();
    let got: Vec<String> = data.msgs.iter().map(|e| e.value.clone()).collect();
    assert_eq!(got, vec!["\tzero", "\tone", "\ttwo"]);
    assert_eq!(data.msgs[2].author, "Me (from subtask)");
}

#[test]
fn prompt_entries_indent_every_line() {
    let m = msg("m", User::Jake, "a\nb\n", None);
    let e = m.to_prompt_template();
    assert_eq!(e.author, "Me");
    assert_eq!(e.value, "\ta\n\tb\n\t");
}

#[test]
fn metadata_holds_time_and_open_tasks() {
    let mut first = msg("m1", User::Jake, "", None);
    first.meta.task_actions = vec![
        TaskAction::Create { id: "A".to_string(), name: "alpha".to_string() },
        TaskAction::Enter { id: "A".to_string() },
        TaskAction::Create { id: "B".to_string(), name: "beta  ".to_string() },
        TaskAction::Enter { id: "B".to_string() },
    ];
    let c = conversation(vec![first, msg("m2", User::Jake, "", None)]);
    let entries = c.messages[1].to_meta_entries(&c).unwrap();
    assert_eq!(
        entries,
        vec![
            MetadataPromptTemplateEntry { key: "Time".to_string(), value: "1970-01-02 01:02:03".to_string() },
            MetadataPromptTemplateEntry { key: "Tasks".to_string(), value: "\t- alpha\n\t- beta".to_string() },
        ]
    );
    let alone = c.messages[0].to_meta_entries(&c).unwrap();
    assert_eq!(alone.len(), 1);
}

#[test]
fn time_out_of_range_is_reported() {
    let mut m = msg("m1", User::Jake, "", None);
    m.time = Timestamp { secs: i64::MAX, nanos: 0 };
    let c = conversation(vec![m.clone()]);
    assert_eq!(m.to_meta_entries(&c), Err(ConversationError::TimeOutOfRange));
}

#[test]
fn far_and_early_times_are_shown() {
    let mut far = msg("m1", User::Jake, "", None);
    far.time = Timestamp { secs: 5_000_000_000_000, nanos: 0 };
    let c = conversation(vec![far.clone()]);
    let entries = far.to_meta_entries(&c).unwrap();
    assert_eq!(entries.len(), 1);
    assert_eq!(entries[0].key, "Time");
    assert!(entries[0].value.ends_with(":53:20"));
    let mut early = msg("m2", User::Jake, "", None);
    early.time = Timestamp { secs: -1, nanos: 0 };
    let c = conversation(vec![early.clone()]);
    assert_eq!(early.to_meta_entries(&c).unwrap()[0].value, "1969-12-31 23:59:59");
}

#[test]
fn training_data_covers_eligible_messages_only() {
    let mut excluded = msg("m3", User::Jake, "skip me", None);
    excluded.meta.exclude_from_training = true;
    let c = conversation(vec![
        msg("m1", User::Jake, "first", None),
        msg("m2", User::Zack, "reply", None),
        excluded,
        msg("m4", User::Jake, "last", None),
    ]);
    let data = c.to_training_data().unwrap();
    assert_eq!(data.len(), 2);
    assert_eq!(data[0].response, "first");
    assert!(data[0].msgs.is_empty());
    assert_eq!(data[1].response, "last");
    assert_eq!(data[1].msgs.len(), 3);
}

#[test]
fn training_errors() {
    let c = conversation(vec![msg("m1", User::Zack, "x", None)]);
    assert_eq!(c.msg_training_data(0), Err(ConversationError::NotTrainable));
    assert_eq!(c.msg_training_data(1), Err(ConversationError::IndexOutOfRange));
    let mut bad = msg("m2", User::Jake, "y", None);
    bad.meta.task_actions = vec![TaskAction::Exit { id: "Q".to_string(), summary: String::new() }];
    let c = conversation(vec![bad, msg("m3", User::Jake, "z", None)]);
    assert_eq!(c.to_training_data(), Err(ConversationError::UnknownTaskExit));
}

#[test]
fn prompt_data_from_a_history_slice() {
    let c = conversation(vec![msg("m1", User::Zack, "hello", None), msg("m2", User::Jake, "hi", None)]);
    let data = messages_prompt_data(&c.messages[0..1], &c.messages[1], &c).unwrap();
    assert_eq!(authors_and_values(&data.msgs), vec![("Zack".to_string(), "\thello".to_string())]);
    assert_eq!(data.meta.len(), 1);
}

#[test]
fn user_names() {
    assert_eq!(User::Jake.to_string(), "Me");
    assert_eq!(User::Docker.to_string(), "Docker");
    let nested = User::TaskReport { creator: Box::new(User::TaskReport { creator: Box::new(User::Zack) }) };
    assert_eq!(nested.to_string(), "Zack (from subtask) (from subtask)");
}

#[test]
fn task_lines_drop_unicode_trailing_whitespace() {
    let mut first = msg("m1", User::Jake, "", None);
    first.meta.task_actions = vec![
        TaskAction::Create { id: "A".to_string(), name: "gamma\u{3000}\u{a0}\u{2003}".to_string() },
        TaskAction::Enter { id: "A".to_string() },
    ];
    let c = conversation(vec![first, msg("m2", User::Jake, "", None)]);
    let entries = c.messages[1].to_meta_entries(&c).unwrap();
    assert_eq!(entries[1].value, "\t- gamma");
}

#[test]
fn jsonl_records_escape_the_text() {
    let rec = backend::training::jsonl_record(&"say \"hi\"\n\tbye".to_string());
    assert_eq!(rec, "{\"text\":\"say \\\"hi\\\"\\n\\tbye\"}\n");
}
