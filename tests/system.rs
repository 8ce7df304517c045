use backend::system::{parse_system_command, read_system_command, SystemCommand, SystemParse};

fn words(ws: &[&str]) -> Vec<String> {
    ws.iter().map(|w| w.to_string()).collect()
}

#[test]
fn grammar_accepts_the_three_verbs() {
    assert_eq!(parse_system_command(&words(&["nexos", "rebuild"])), Some(SystemCommand::Rebuild));
    assert_eq!(
        parse_system_command(&words(&["task", "start", "--name", "x y"])),
        Some(SystemCommand::TaskStart { name: "x y".to_string() })
    );
    assert_eq!(
        parse_system_command(&words(&["task", "done", "-s", "ok"])),
        Some(SystemCommand::TaskDone { summary: "ok".to_string() })
    );
}

#[test]
fn grammar_rejects_other_words() {
    assert_eq!(parse_system_command(&words(&[])), None);
    assert_eq!(parse_system_command(&words(&["task"])), None);
    assert_eq!(parse_system_command(&words(&["task", "start", "--name"])), None);
    assert_eq!(parse_system_command(&words(&["task", "start", "--summary", "x"])), None);
    assert_eq!(parse_system_command(&words(&["nexos", "rebuild", "now"])), None);
    assert_eq!(parse_system_command(&words(&["task", "done", "-s", "a", "b"])), None);
}

#[test]
fn bodies_are_split_by_shell_rules() {
    match read_system_command("task start --name 'two words'") {
        SystemParse::Parsed(SystemCommand::TaskStart { name }) => assert_eq!(name, "two words"),
        _ => panic!("expected a task start"),
    }
    assert!(matches!(read_system_command("task done --summary \"unclosed"), SystemParse::BadQuoting));
    assert!(matches!(read_system_command("  nexos   rebuild "), SystemParse::Parsed(SystemCommand::Rebuild)));
    assert!(matches!(read_system_command("dance"), SystemParse::Unrecognized));
}
