use backend::command::{extract_commands, Command};

fn nexos(s: &str) -> Command {
    Command::Nexos(s.to_string())
}

fn system(s: &str) -> Command {
    Command::System(s.to_string())
}

#[test]
fn test_extract_commands() {
    let input_str = "Some random text [<sh command1>] and [<command2>] etc.";
    let commands = extract_commands(input_str);

    assert_eq!(commands, vec![nexos("sh command1"), nexos("command2")]);
}

#[test]
fn extracts_both_kinds_in_order() {
    let commands = extract_commands("do [<ls -la>] then [(task start --name foo)]");
    assert_eq!(commands, vec![nexos("ls -la"), system("task start --name foo")]);
}

#[test]
fn unterminated_opener_yields_nothing() {
    assert_eq!(extract_commands("a [<b>] c [<never closed"), vec![nexos("b")]);
    assert_eq!(extract_commands("[(open"), vec![]);
}

#[test]
fn empty_body_is_a_command() {
    assert_eq!(extract_commands("[<>][()]"), vec![nexos(""), system("")]);
}

#[test]
fn closer_must_match_the_kind() {
    assert_eq!(extract_commands("[<a)]b>]"), vec![nexos("a)]b")]);
    assert_eq!(extract_commands("[(a>]b)]"), vec![system("a>]b")]);
}

#[test]
fn opener_inside_a_command_is_text() {
    assert_eq!(extract_commands("[<a [(b>] c)]"), vec![nexos("a [(b")]);
}

#[test]
fn short_and_plain_texts() {
    assert_eq!(extract_commands(""), vec![]);
    assert_eq!(extract_commands("["), vec![]);
    assert_eq!(extract_commands("[<"), vec![]);
    assert_eq!(extract_commands("no markers here"), vec![]);
}

#[test]
fn unicode_bodies_are_kept_verbatim() {
    assert_eq!(extract_commands("é[<ünï>]ß"), vec![nexos("ünï")]);
}
