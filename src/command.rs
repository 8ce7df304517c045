use vstd::prelude::*;

verus! {

/// A directive embedded in message text.
#[derive(Debug, Clone, PartialEq)]
pub enum Command {
    /// `[< ... >]`: run by the execution backend.
    Nexos(String),
    /// `[( ... )]`: interpreted by the system-command grammar.
    System(String),
}

/// The mathematical value of a [`Command`].
pub enum CommandView {
    Nexos(Seq<char>),
    System(Seq<char>),
}

impl View for Command {
    type V = CommandView;

    open spec fn view(&self) -> CommandView {
        match self {
            Command::Nexos(b) => CommandView::Nexos(b@),
            Command::System(b) => CommandView::System(b@),
        }
    }
}

/// An opener `[<` or `[(` starts at position `i` of `t`.
pub open spec fn is_opener(t: Seq<char>, i: int) -> bool {
    0 <= i && i + 1 < t.len() && t[i] == '[' && (t[i + 1] == '<' || t[i + 1] == '(')
}

/// The first character of the closer that ends a command: `>` for execution, `)` for system.
pub open spec fn closer_char(exec: bool) -> char {
    if exec {
        '>'
    } else {
        ')'
    }
}

/// The closer of the given kind starts at position `i` of `t`.
pub open spec fn is_closer(t: Seq<char>, i: int, exec: bool) -> bool {
    0 <= i && i + 1 < t.len() && t[i] == closer_char(exec) && t[i + 1] == ']'
}

pub open spec fn command_of(exec: bool, body: Seq<char>) -> CommandView {
    if exec {
        CommandView::Nexos(body)
    } else {
        CommandView::System(body)
    }
}

/// The commands of a text, left to right: an opener outside a command starts one, and
/// its body runs to the first closer of the same kind; an unterminated command yields nothing.
pub open spec fn commands_in(t: Seq<char>) -> Seq<CommandView>
    decreases t.len(), 1nat,
{
    if t.len() < 2 {
        seq![]
    } else if is_opener(t, 0) {
        commands_after_opener(t[1] == '<', t.skip(2), 0)
    } else {
        commands_in(t.skip(1))
    }
}

/// The commands of `t`, where `t` follows an opener of the given kind and its first `n`
/// characters hold no closer of that kind.
pub open spec fn commands_after_opener(exec: bool, t: Seq<char>, n: nat) -> Seq<CommandView>
    decreases t.len() - n, 0nat,
{
    if t.len() < n + 2 {
        seq![]
    } else if is_closer(t, n as int, exec) {
        seq![command_of(exec, t.take(n as int))] + commands_in(t.skip(n + 2int))
    } else {
        commands_after_opener(exec, t, n + 1)
    }
}

/// No opener starts anywhere in `t`.
pub open spec fn no_opener(t: Seq<char>) -> bool {
    forall|i: int| !#[trigger] is_opener(t, i)
}

/// No closer of the given kind starts anywhere in `t`.
pub open spec fn no_closer(t: Seq<char>, exec: bool) -> bool {
    forall|i: int| !#[trigger] is_closer(t, i, exec)
}

pub open spec fn opener(exec: bool) -> Seq<char> {
    seq!['[', if exec { '<' } else { '(' }]
}

pub open spec fn closer(exec: bool) -> Seq<char> {
    seq![closer_char(exec), ']']
}

/// Text without openers contributes no command and leaves what follows it untouched, when
/// its last character does not open a command together with the next one.
proof fn lemma_skip_plain(plain: Seq<char>, s: Seq<char>)
    requires
        no_opener(plain),
        plain.len() > 0 && s.len() > 0 ==> !is_opener(seq![plain.last(), s[0]], 0),
    ensures
        commands_in(plain + s) == commands_in(s),
    decreases plain.len(),
{
    if plain.len() > 0 {
        let t = plain + s;
        if t.len() >= 2 {
            if plain.len() >= 2 {
                assert(!is_opener(plain, 0));
            } else {
                assert(!is_opener(seq![plain.last(), s[0]], 0));
            }
            assert(!is_opener(t, 0));
            let tail = plain.skip(1);
            assert forall|i: int| !#[trigger] is_opener(tail, i) by {
                assert(!is_opener(plain, i + 1));
            }
            assert(t.skip(1) =~= tail + s);
            if tail.len() > 0 && s.len() > 0 {
                assert(tail.last() == plain.last());
            }
            lemma_skip_plain(tail, s);
        } else {
            assert(s.len() < 2);
        }
    }
}

/// A body without a closer of its kind runs to the closer that follows it.
proof fn lemma_scan_body(exec: bool, body: Seq<char>, rest: Seq<char>, n: nat)
    requires
        no_closer(body, exec),
        n <= body.len(),
    ensures
        commands_after_opener(exec, body + closer(exec) + rest, n) == seq![command_of(exec, body)]
            + commands_in(rest),
    decreases body.len() - n,
{
    let u = body + closer(exec) + rest;
    if n < body.len() {
        if n + 1 < body.len() {
            assert(!is_closer(body, n as int, exec));
        }
        assert(!is_closer(u, n as int, exec));
        lemma_scan_body(exec, body, rest, n + 1);
    } else {
        assert(is_closer(u, n as int, exec));
        assert(u.take(n as int) =~= body);
        assert(u.skip(n + 2int) =~= rest);
    }
}

/// A body without a closer of its kind, at the end of the text, yields no command.
proof fn lemma_scan_unterminated(exec: bool, body: Seq<char>, n: nat)
    requires
        no_closer(body, exec),
    ensures
        commands_after_opener(exec, body, n) == Seq::<CommandView>::empty(),
    decreases body.len() - n,
{
    if body.len() >= n + 2 {
        assert(!is_closer(body, n as int, exec));
        lemma_scan_unterminated(exec, body, n + 1);
    }
}

/// A text without openers holds no command.
pub proof fn lemma_no_opener_no_command(t: Seq<char>)
    requires
        no_opener(t),
    ensures
        commands_in(t) == Seq::<CommandView>::empty(),
{
    lemma_skip_plain(t, seq![]);
    assert(t + seq![] =~= t);
}

/// A complete pair yields one command, with the body between the markers verbatim, ahead of
/// the commands of the rest of the text: for text without openers, then an opener, a body
/// without a closer of the opener's kind, the matching closer and any rest.
pub proof fn lemma_complete_pair(plain: Seq<char>, exec: bool, body: Seq<char>, rest: Seq<char>)
    requires
        no_opener(plain),
        no_closer(body, exec),
    ensures
        commands_in(plain + opener(exec) + body + closer(exec) + rest) == seq![command_of(exec, body)]
            + commands_in(rest),
{
    let s = opener(exec) + (body + closer(exec) + rest);
    lemma_skip_plain(plain, s);
    assert(plain + opener(exec) + body + closer(exec) + rest =~= plain + s);
    assert(is_opener(s, 0));
    assert(s.skip(2) =~= body + closer(exec) + rest);
    lemma_scan_body(exec, body, rest, 0);
}

/// An opener that no closer of its kind follows yields no command.
pub proof fn lemma_unterminated(plain: Seq<char>, exec: bool, body: Seq<char>)
    requires
        no_opener(plain),
        no_closer(body, exec),
    ensures
        commands_in(plain + opener(exec) + body) == Seq::<CommandView>::empty(),
{
    let s = opener(exec) + body;
    lemma_skip_plain(plain, s);
    assert(plain + opener(exec) + body =~= plain + s);
    assert(is_opener(s, 0));
    assert((s[1] == '<') == exec);
    assert(s.skip(2) =~= body);
    lemma_scan_unterminated(exec, body, 0);
}

/// A complete pair of a text with the plain text before it.
pub struct MarkedPair {
    pub plain: Seq<char>,
    pub execution: bool,
    pub body: Seq<char>,
}

/// The text made of the pairs in order: each one's plain text, opener, body and closer.
pub open spec fn pairs_text(ps: Seq<MarkedPair>) -> Seq<char>
    decreases ps.len(),
{
    if ps.len() == 0 {
        seq![]
    } else {
        ps[0].plain + opener(ps[0].execution) + ps[0].body + closer(ps[0].execution) + pairs_text(ps.skip(1))
    }
}

/// Each pair's plain text holds no opener and its body no closer of its kind.
pub open spec fn pairs_balanced(ps: Seq<MarkedPair>) -> bool {
    forall|i: int| 0 <= i < ps.len() ==> no_opener(#[trigger] ps[i].plain) && no_closer(ps[i].body, ps[i].execution)
}

pub open spec fn pairs_commands(ps: Seq<MarkedPair>) -> Seq<CommandView> {
    ps.map_values(|p: MarkedPair| command_of(p.execution, p.body))
}

proof fn lemma_pairs_then(ps: Seq<MarkedPair>, rest: Seq<char>)
    requires
        pairs_balanced(ps),
    ensures
        commands_in(pairs_text(ps) + rest) == pairs_commands(ps) + commands_in(rest),
    decreases ps.len(),
{
    if ps.len() == 0 {
        assert(pairs_text(ps) + rest =~= rest);
        assert(pairs_commands(ps) + commands_in(rest) =~= commands_in(rest));
    } else {
        let p = ps[0];
        let tail = ps.skip(1);
        assert forall|i: int| 0 <= i < tail.len() implies no_opener(#[trigger] tail[i].plain) && no_closer(
            tail[i].body,
            tail[i].execution,
        ) by {
            assert(tail[i] == ps[i + 1]);
        }
        lemma_pairs_then(tail, rest);
        let r2 = pairs_text(tail) + rest;
        assert(pairs_text(ps) + rest =~= p.plain + opener(p.execution) + p.body + closer(p.execution) + r2);
        lemma_complete_pair(p.plain, p.execution, p.body, r2);
        assert(pairs_commands(ps) =~= seq![command_of(p.execution, p.body)] + pairs_commands(tail));
        assert(pairs_commands(ps) + commands_in(rest) =~= seq![command_of(p.execution, p.body)] + (pairs_commands(tail)
            + commands_in(rest)));
    }
}

/// A text of complete pairs followed by plain text yields one command per pair, in order,
/// each with its body verbatim: as many commands as pairs.
pub proof fn lemma_balanced_text(ps: Seq<MarkedPair>, tail: Seq<char>)
    requires
        pairs_balanced(ps),
        no_opener(tail),
    ensures
        commands_in(pairs_text(ps) + tail) == pairs_commands(ps),
        commands_in(pairs_text(ps) + tail).len() == ps.len(),
{
    lemma_pairs_then(ps, tail);
    lemma_no_opener_no_command(tail);
    assert(pairs_commands(ps) + Seq::<CommandView>::empty() =~= pairs_commands(ps));
}

/// After complete pairs, an opener that no closer of its kind follows adds no command: the
/// text yields the commands of the pairs alone.
pub proof fn lemma_balanced_then_unterminated(ps: Seq<MarkedPair>, plain: Seq<char>, exec: bool, body: Seq<char>)
    requires
        pairs_balanced(ps),
        no_opener(plain),
        no_closer(body, exec),
    ensures
        commands_in(pairs_text(ps) + (plain + opener(exec) + body)) == pairs_commands(ps),
{
    lemma_pairs_then(ps, plain + opener(exec) + body);
    lemma_unterminated(plain, exec, body);
    assert(pairs_commands(ps) + Seq::<CommandView>::empty() =~= pairs_commands(ps));
}

pub open spec fn views_of_commands(cs: Seq<Command>) -> Seq<CommandView> {
    cs.map_values(|c: Command| c@)
}

pub(crate) fn text_chars(s: &str) -> (r: Vec<char>)
    ensures
        r@ == s@,
{
    let mut r: Vec<char> = Vec::new();
    for c in it: s.chars()
        invariant
            r@ == it.seq().take(it.index() as int),
    {
        r.push(c);
    }
    r
}

/// Extracts the commands of a text in left-to-right order.
pub fn extract_commands(s: &str) -> (r: Vec<Command>)
    ensures
        views_of_commands(r@) == commands_in(s@),
{
    let chars = text_chars(s);
    let len = chars.len();
    let mut results: Vec<Command> = Vec::new();
    let mut capture = false;
    let mut exec = false;
    let mut start: usize = 0;
    let mut i: usize = 0;
    assert(chars@.skip(0) =~= s@);
    assert(views_of_commands(results@) + commands_in(s@) =~= commands_in(s@));
    while i < len
        invariant
            len == chars.len(),
            chars@ == s@,
            i <= len,
            capture ==> start <= i,
            !capture ==> views_of_commands(results@) + commands_in(chars@.skip(i as int))
                == commands_in(s@),
            capture ==> views_of_commands(results@) + commands_after_opener(
                exec,
                chars@.skip(start as int),
                (i - start) as nat,
            ) == commands_in(s@),
        decreases len - i,
    {
        let ghost t = chars@.skip(i as int);
        if !capture {
            if i + 1 < len && chars[i] == '[' && (chars[i + 1] == '<' || chars[i + 1] == '(') {
                assert(t.skip(2) =~= chars@.skip(i + 2));
                capture = true;
                exec = chars[i + 1] == '<';
                start = i + 2;
                i = i + 2;
            } else {
                assert(t.skip(1) =~= chars@.skip(i + 1));
                i = i + 1;
            }
        } else {
            let ghost u = chars@.skip(start as int);
            let ghost n = (i - start) as nat;
            let close = if exec { '>' } else { ')' };
            if i + 1 < len && chars[i] == close && chars[i + 1] == ']' {
                let body = String::from_str(s.substring_char(start, i));
                let cmd = if exec { Command::Nexos(body) } else { Command::System(body) };
                assert(u.take(n as int) =~= s@.subrange(start as int, i as int));
                assert(u.skip(n + 2int) =~= chars@.skip(i + 2));
                let ghost before = results@;
                results.push(cmd);
                assert(views_of_commands(results@) =~= views_of_commands(before).push(cmd@));
                assert(views_of_commands(results@) + commands_in(chars@.skip(i + 2)) =~=
                    views_of_commands(before) + (seq![command_of(exec, u.take(n as int))] + commands_in(u.skip(n + 2int))));
                capture = false;
                i = i + 2;
            } else {
                i = i + 1;
            }
        }
    }
    results
}

} // verus!
