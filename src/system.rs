use vstd::prelude::*;

verus! {

/// The words that Bourne-shell splitting makes of a text, or `None` on mismatched quotes.
pub uninterp spec fn shell_words(s: Seq<char>) -> Option<Seq<Seq<char>>>;

pub open spec fn strings_view(v: Seq<String>) -> Seq<Seq<char>> {
    v.map_values(|w: String| w@)
}

/// Relies on shellwords::split: splits a text into words by Bourne-shell quoting rules and
/// fails on mismatched quotes; the outcome depends on the text alone.
#[verifier::external_body]
fn split_words(s: &str) -> (r: Option<Vec<String>>)
    ensures
        match r {
            Some(v) => shell_words(s@) == Some(strings_view(v@)),
            None => shell_words(s@) is None,
        },
{
    shellwords::split(s).ok()
}

/// A command of the system grammar.
#[derive(Debug, PartialEq, Eq)]
pub enum SystemCommand {
    /// `task start --name <NAME>`
    TaskStart { name: String },
    /// `task done --summary <SUMMARY>`
    TaskDone { summary: String },
    /// `nexos rebuild`
    Rebuild,
}

pub enum SystemCommandView {
    TaskStart { name: Seq<char> },
    TaskDone { summary: Seq<char> },
    Rebuild,
}

impl View for SystemCommand {
    type V = SystemCommandView;

    open spec fn view(&self) -> SystemCommandView {
        match self {
            SystemCommand::TaskStart { name } => SystemCommandView::TaskStart { name: name@ },
            SystemCommand::TaskDone { summary } => SystemCommandView::TaskDone { summary: summary@ },
            SystemCommand::Rebuild => SystemCommandView::Rebuild,
        }
    }
}

/// The value of an option given as `<long> <value>` or `<short> <value>`, where `rest` holds
/// exactly those two words.
pub open spec fn option_value(rest: Seq<Seq<char>>, long: Seq<char>, short: Seq<char>) -> Option<Seq<char>> {
    if rest.len() == 2 && (rest[0] == long || rest[0] == short) {
        Some(rest[1])
    } else {
        None
    }
}

/// The system command that a list of words spells, if any.
pub open spec fn parse_words(w: Seq<Seq<char>>) -> Option<SystemCommandView> {
    if w.len() == 2 && w[0] == "nexos"@ && w[1] == "rebuild"@ {
        Some(SystemCommandView::Rebuild)
    } else if w.len() >= 2 && w[0] == "task"@ && w[1] == "start"@ {
        match option_value(w.skip(2), "--name"@, "-n"@) {
            Some(v) => Some(SystemCommandView::TaskStart { name: v }),
            None => None,
        }
    } else if w.len() >= 2 && w[0] == "task"@ && w[1] == "done"@ {
        match option_value(w.skip(2), "--summary"@, "-s"@) {
            Some(v) => Some(SystemCommandView::TaskDone { summary: v }),
            None => None,
        }
    } else {
        None
    }
}

pub open spec fn parse_view(r: Option<SystemCommand>) -> Option<SystemCommandView> {
    match r {
        Some(c) => Some(c@),
        None => None,
    }
}

fn is_word(w: &String, lit: &str) -> (r: bool)
    ensures
        r == (w@ == lit@),
{
    *w == String::from_str(lit)
}

fn parse_option(w: &Vec<String>, long: &str, short: &str) -> (r: Option<String>)
    requires
        w.len() >= 2,
    ensures
        opt_string_view(r) == option_value(strings_view(w@).skip(2), long@, short@),
{
    let ghost rest = strings_view(w@).skip(2);
    if w.len() == 4 && (is_word(&w[2], long) || is_word(&w[2], short)) {
        assert(rest[0] == w[2]@ && rest[1] == w[3]@);
        Some(w[3].clone())
    } else {
        assert(w.len() == 4 ==> rest[0] == w[2]@);
        None
    }
}

pub open spec fn opt_string_view(o: Option<String>) -> Option<Seq<char>> {
    match o {
        Some(s) => Some(s@),
        None => None,
    }
}

/// Reads a system command from the words of a command body.
pub fn parse_system_command(w: &Vec<String>) -> (r: Option<SystemCommand>)
    ensures
        parse_view(r) == parse_words(strings_view(w@)),
{
    let ghost sv = strings_view(w@);
    if w.len() < 2 {
        return None;
    }
    assert(sv[0] == w[0]@ && sv[1] == w[1]@);
    if w.len() == 2 && is_word(&w[0], "nexos") && is_word(&w[1], "rebuild") {
        Some(SystemCommand::Rebuild)
    } else if is_word(&w[0], "task") && is_word(&w[1], "start") {
        match parse_option(w, "--name", "-n") {
            Some(v) => Some(SystemCommand::TaskStart { name: v }),
            None => None,
        }
    } else if is_word(&w[0], "task") && is_word(&w[1], "done") {
        match parse_option(w, "--summary", "-s") {
            Some(v) => Some(SystemCommand::TaskDone { summary: v }),
            None => None,
        }
    } else {
        None
    }
}

/// The outcome of reading a command body as a system command.
pub enum SystemParse {
    Parsed(SystemCommand),
    /// The body has mismatched quotes.
    BadQuoting,
    /// The words of the body spell no system command.
    Unrecognized,
}

pub open spec fn system_parse_of(body: Seq<char>) -> SystemParseView {
    match shell_words(body) {
        None => SystemParseView::BadQuoting,
        Some(w) => match parse_words(w) {
            Some(c) => SystemParseView::Parsed(c),
            None => SystemParseView::Unrecognized,
        },
    }
}

pub enum SystemParseView {
    Parsed(SystemCommandView),
    BadQuoting,
    Unrecognized,
}

impl View for SystemParse {
    type V = SystemParseView;

    open spec fn view(&self) -> SystemParseView {
        match self {
            SystemParse::Parsed(c) => SystemParseView::Parsed(c@),
            SystemParse::BadQuoting => SystemParseView::BadQuoting,
            SystemParse::Unrecognized => SystemParseView::Unrecognized,
        }
    }
}

/// Splits a command body into shell words and reads them as a system command.
pub fn read_system_command(body: &str) -> (r: SystemParse)
    ensures
        r@ == system_parse_of(body@),
{
    match split_words(body) {
        None => SystemParse::BadQuoting,
        Some(w) => match parse_system_command(&w) {
            Some(c) => SystemParse::Parsed(c),
            None => SystemParse::Unrecognized,
        },
    }
}

} // verus!
