use vstd::prelude::*;
use vstd::slice::slice_subrange;

use crate::command::text_chars;
use crate::conversation::{
    lemma_stack_error_kinds, derive_stack, task_log, tasks_view, visible_messages, Conversation, ConversationError,
    TaskInfoView,
};
use crate::message::{messages_view, opt_view, user_name, Message, MessageView, Timestamp, User};

verus! {

/// One `key: value` line of the metadata block of a prompt.
#[derive(Debug, PartialEq, Eq)]
pub struct MetadataPromptTemplateEntry {
    pub key: String,
    pub value: String,
}

/// One past message of a prompt.
#[derive(Debug, PartialEq, Eq)]
pub struct MessagePromptTemplateEntry {
    pub author: String,
    pub value: String,
}

/// What the prompt template is rendered from.
#[derive(Debug, PartialEq, Eq)]
pub struct PromptTemplateData {
    pub meta: Vec<MetadataPromptTemplateEntry>,
    pub msgs: Vec<MessagePromptTemplateEntry>,
    pub response: String,
}

/// What the template for an injected file is rendered from.
#[derive(Debug, PartialEq, Eq)]
pub struct InjectedFileTemplateData {
    pub meta: Vec<MetadataPromptTemplateEntry>,
    pub filetext: String,
}

pub struct PromptView {
    pub meta: Seq<(Seq<char>, Seq<char>)>,
    pub msgs: Seq<(Seq<char>, Seq<char>)>,
    pub response: Seq<char>,
}

pub open spec fn meta_entries_view(v: Seq<MetadataPromptTemplateEntry>) -> Seq<(Seq<char>, Seq<char>)> {
    v.map_values(|e: MetadataPromptTemplateEntry| (e.key@, e.value@))
}

pub open spec fn msg_entries_view(v: Seq<MessagePromptTemplateEntry>) -> Seq<(Seq<char>, Seq<char>)> {
    v.map_values(|e: MessagePromptTemplateEntry| (e.author@, e.value@))
}

impl View for PromptTemplateData {
    type V = PromptView;

    open spec fn view(&self) -> PromptView {
        PromptView {
            meta: meta_entries_view(self.meta@),
            msgs: msg_entries_view(self.msgs@),
            response: self.response@,
        }
    }
}

/// A text with a tab after each line break.
pub open spec fn indented(s: Seq<char>) -> Seq<char>
    decreases s.len(),
{
    if s.len() == 0 {
        seq![]
    } else if s.last() == '\n' {
        indented(s.drop_last()) + seq!['\n', '\t']
    } else {
        indented(s.drop_last()).push(s.last())
    }
}

/// How a past message appears in a prompt: its author's name, and its text indented by a tab.
pub open spec fn entry_of(m: MessageView) -> (Seq<char>, Seq<char>) {
    (user_name(m.user), seq!['\t'] + indented(m.msg))
}

/// The messages that training keeps of a history, most recent first. Walking back from the
/// most recent message, an active marker skips messages up to the one whose id it names,
/// which is kept; a kept message that carries its own marker makes that the active one.
pub open spec fn kept_backward(prev: Seq<MessageView>, marker: Option<Seq<char>>) -> Seq<MessageView>
    decreases prev.len(),
{
    if prev.len() == 0 {
        seq![]
    } else {
        let m = prev.last();
        match marker {
            Some(u) if m.id != u => kept_backward(prev.drop_last(), marker),
            _ => seq![m] + kept_backward(prev.drop_last(), m.meta.omit_history_until),
        }
    }
}

/// The messages that training keeps of a history, in chronological order.
pub open spec fn history_window(prev: Seq<MessageView>) -> Seq<MessageView> {
    kept_backward(prev, None).reverse()
}

proof fn lemma_skip_to_marker(pre: Seq<MessageView>, mid: Seq<MessageView>, x: Seq<char>)
    requires
        forall|j: int| 0 <= j < mid.len() ==> #[trigger] mid[j].id != x,
    ensures
        kept_backward(pre + mid, Some(x)) == kept_backward(pre, Some(x)),
    decreases mid.len(),
{
    if mid.len() > 0 {
        let m0 = mid.drop_last();
        assert forall|j: int| 0 <= j < m0.len() implies #[trigger] m0[j].id != x by {
            assert(m0[j] == mid[j]);
        }
        assert((pre + mid).drop_last() =~= pre + m0);
        assert((pre + mid).last() == mid[mid.len() - 1]);
        lemma_skip_to_marker(pre, m0, x);
    } else {
        assert(pre + mid =~= pre);
    }
}

/// Omission windows: when message `c` marks the id of an earlier message `b`, and no message
/// between them has that id, the training history keeps `c` and `b`, drops everything between
/// them, and goes on before `b` under `b`'s own marker (most recent first here).
pub proof fn lemma_window_collapse(a: Seq<MessageView>, b: MessageView, mid: Seq<MessageView>, c: MessageView)
    requires
        c.meta.omit_history_until == Some(b.id),
        forall|j: int| 0 <= j < mid.len() ==> #[trigger] mid[j].id != b.id,
    ensures
        kept_backward(a + seq![b] + mid + seq![c], None) == seq![c, b] + kept_backward(a, b.meta.omit_history_until),
{
    let prev = a + seq![b] + mid + seq![c];
    assert(prev.drop_last() =~= (a + seq![b]) + mid);
    assert(prev.last() == c);
    lemma_skip_to_marker(a + seq![b], mid, b.id);
    assert((a + seq![b]).drop_last() =~= a);
    assert((a + seq![b]).last() == b);
    assert(seq![c] + (seq![b] + kept_backward(a, b.meta.omit_history_until)) =~= seq![c, b] + kept_backward(a, b.meta.omit_history_until));
}

/// A point in time within about 126,000 years of the epoch, with a sub-second part under one
/// second: a range that chrono always shows as a calendar date.
pub open spec fn time_in_range(t: Timestamp) -> bool {
    -4_000_000_000_000 <= t.secs <= 4_000_000_000_000 && t.nanos < 1_000_000_000
}

/// The UTC date and time `YYYY-MM-DD HH:MM:SS` of a point in time, or `None` where it has no
/// calendar date.
pub uninterp spec fn utc_text(secs: i64, nanos: u32) -> Option<Seq<char>>;

/// Relies on chrono's DateTime::from_timestamp, which gives a date for any whole seconds
/// within about 262,000 years of the epoch and nanoseconds under one second, and on its
/// `format` with `%Y-%m-%d %T`.
#[verifier::external_body]
fn format_utc(t: Timestamp) -> (r: Option<String>)
    ensures
        match r {
            Some(s) => utc_text(t.secs, t.nanos) == Some(s@),
            None => utc_text(t.secs, t.nanos) is None,
        },
        time_in_range(t) ==> r is Some,
{
    match chrono::DateTime::from_timestamp(t.secs, t.nanos) {
        Some(d) => Some(d.format("%Y-%m-%d %T").to_string()),
        None => None,
    }
}

/// The JSON string literal of a text: quoted, with the characters JSON requires escaped.
pub uninterp spec fn json_text(s: Seq<char>) -> Seq<char>;

/// Relies on serde_json::to_string on a string: its JSON string literal. Serializing a string
/// cannot fail, as serde_json documents failure only for failing Serialize impls and maps
/// with non-string keys.
#[verifier::external_body]
fn json_quote(s: &String) -> (r: Option<String>)
    ensures
        r matches Some(q) ==> q@ == json_text(s@),
        r is Some,
{
    serde_json::to_string(s).ok()
}

/// One JSON Lines record `{"text":<text as a JSON string>}` with its line break.
pub fn jsonl_record(text: &String) -> (r: String)
    ensures
        r@ == "{\"text\":"@ + json_text(text@) + "}\n"@,
{
    let quoted = match json_quote(text) {
        Some(q) => q,
        None => String::new(),
    };
    let mut r = String::from_str("{\"text\":");
    r.append(quoted.as_str());
    r.append("}\n");
    r
}

/// The characters with the Unicode White_Space property.
pub open spec fn is_white_space(c: char) -> bool {
    ('\u{9}' <= c <= '\u{d}') || c == ' ' || c == '\u{85}' || c == '\u{a0}' || c == '\u{1680}' || (
    '\u{2000}' <= c <= '\u{200a}') || c == '\u{2028}' || c == '\u{2029}' || c == '\u{202f}' || c
        == '\u{205f}' || c == '\u{3000}'
}

/// The text with trailing whitespace removed.
pub open spec fn trim_end_of(s: Seq<char>) -> Seq<char>
    decreases s.len(),
{
    if s.len() > 0 && is_white_space(s.last()) {
        trim_end_of(s.drop_last())
    } else {
        s
    }
}

fn white_space(c: char) -> (r: bool)
    ensures
        r == is_white_space(c),
{
    ('\u{9}' <= c && c <= '\u{d}') || c == ' ' || c == '\u{85}' || c == '\u{a0}' || c == '\u{1680}' || (
    '\u{2000}' <= c && c <= '\u{200a}') || c == '\u{2028}' || c == '\u{2029}' || c == '\u{202f}' || c
        == '\u{205f}' || c == '\u{3000}'
}

/// The text with trailing whitespace removed.
fn trim_end(s: &String) -> (r: String)
    ensures
        r@ == trim_end_of(s@),
{
    let chars = text_chars(s.as_str());
    let mut end: usize = chars.len();
    assert(chars@.take(end as int) =~= s@);
    while end > 0 && white_space(chars[end - 1])
        invariant
            end <= chars.len(),
            chars@ == s@,
            trim_end_of(chars@.take(end as int)) == trim_end_of(s@),
        decreases end,
    {
        assert(chars@.take(end as int).drop_last() =~= chars@.take(end - 1));
        end = end - 1;
    }
    String::from_str(s.as_str().substring_char(0, end))
}

proof fn lemma_indented_plain(a: Seq<char>, b: Seq<char>)
    requires
        forall|j: int| 0 <= j < b.len() ==> b[j] != '\n',
    ensures
        indented(a + b) == indented(a) + b,
    decreases b.len(),
{
    if b.len() == 0 {
        assert(a + b =~= a);
        assert(indented(a) + b =~= indented(a));
    } else {
        let b0 = b.drop_last();
        lemma_indented_plain(a, b0);
        assert((a + b).drop_last() =~= a + b0);
        assert((a + b).last() == b[b.len() - 1]);
        assert(indented(a) + b =~= (indented(a) + b0).push(b.last()));
    }
}

/// One `\t- <name>\n` line per task.
pub open spec fn task_lines(st: Seq<TaskInfoView>) -> Seq<char>
    decreases st.len(),
{
    if st.len() == 0 {
        seq![]
    } else {
        task_lines(st.drop_last()) + "\t- "@ + st.last().name + "\n"@
    }
}

/// The metadata block of a prompt for message `m` of the conversation `ms`: its time, and the
/// tasks open before it when there are any; it fails where the time has no calendar date.
pub open spec fn meta_entries_of(ms: Seq<MessageView>, m: MessageView) -> Result<Seq<(Seq<char>, Seq<char>)>, ConversationError> {
    match utc_text(m.time.secs, m.time.nanos) {
        None => Err(ConversationError::TimeOutOfRange),
        Some(text) => match derive_stack(task_log(visible_messages(ms, m.id, false))) {
            Err(e) => Err(e),
            Ok(st) => {
                let time = ("Time"@, text);
                if st.len() == 0 {
                    Ok(seq![time])
                } else {
                    Ok(seq![time, ("Tasks"@, trim_end_of(task_lines(st)))])
                }
            },
        },
    }
}

/// The prompt data for message `m` of the conversation `ms`, with history `prev`.
pub open spec fn prompt_data_of(prev: Seq<MessageView>, m: MessageView, ms: Seq<MessageView>) -> Result<PromptView, ConversationError> {
    match meta_entries_of(ms, m) {
        Err(e) => Err(e),
        Ok(meta) => Ok(
            PromptView {
                meta,
                msgs: history_window(prev).map_values(|x: MessageView| entry_of(x)),
                response: m.msg,
            },
        ),
    }
}

pub open spec fn prompt_result_view(r: Result<PromptTemplateData, ConversationError>) -> Result<PromptView, ConversationError> {
    match r {
        Ok(p) => Ok(p@),
        Err(e) => Err(e),
    }
}

impl Message {
    /// This message as a past message of a prompt.
    pub fn to_prompt_template(&self) -> (r: MessagePromptTemplateEntry)
        ensures
            (r.author@, r.value@) == entry_of(self@),
    {
        let chars = text_chars(self.msg.as_str());
        let mut out = String::from_str("\t");
        proof {
            reveal_strlit("\t");
            assert(chars@.take(0) =~= Seq::<char>::empty());
            assert(out@ =~= seq!['\t'] + indented(chars@.take(0)));
        }
        let mut start: usize = 0;
        for i in 0..chars.len()
            invariant
                chars@ == self.msg@,
                start <= i,
                out@ == seq!['\t'] + indented(chars@.take(start as int)),
                forall|j: int| start <= j < i ==> chars@[j] != '\n',
        {
            if chars[i] == '\n' {
                let ghost seg = chars@.subrange(start as int, i as int);
                proof {
                    lemma_indented_plain(chars@.take(start as int), seg);
                    assert(chars@.take(start as int) + seg =~= chars@.take(i as int));
                    assert(chars@.take(i + 1).drop_last() =~= chars@.take(i as int));
                    assert(chars@.take(i + 1).last() == '\n');
                    reveal_strlit("\n\t");
                }
                let ghost before = out@;
                out.append(self.msg.as_str().substring_char(start, i));
                out.append("\n\t");
                assert(out@ =~= before + seg + seq!['\n', '\t']);
                assert(out@ =~= seq!['\t'] + indented(chars@.take(i + 1)));
                start = i + 1;
            }
        }
        let ghost seg = chars@.subrange(start as int, chars.len() as int);
        proof {
            lemma_indented_plain(chars@.take(start as int), seg);
            assert(chars@.take(start as int) + seg =~= chars@);
        }
        out.append(self.msg.as_str().substring_char(start, chars.len()));
        assert(out@ =~= seq!['\t'] + indented(self.msg@));
        MessagePromptTemplateEntry { author: self.user.to_string(), value: out }
    }

    /// The metadata block of a prompt for this message: its time, and the tasks open before
    /// it in `conversation` when there are any.
    pub fn to_meta_entries(&self, conversation: &Conversation) -> (r: Result<Vec<MetadataPromptTemplateEntry>, ConversationError>)
        ensures
            match r {
                Ok(v) => meta_entries_of(conversation.msgs(), self@) == Ok::<Seq<(Seq<char>, Seq<char>)>, ConversationError>(
                    meta_entries_view(v@),
                ),
                Err(e) => meta_entries_of(conversation.msgs(), self@) == Err::<Seq<(Seq<char>, Seq<char>)>, ConversationError>(e),
            },
            time_in_range(self.time) ==> utc_text(self.time.secs, self.time.nanos) is Some,
            time_in_range(self.time) ==> (r is Err <==> derive_stack(
                task_log(visible_messages(conversation.msgs(), self.id@, false)),
            ) is Err),
            r == Err::<Vec<MetadataPromptTemplateEntry>, ConversationError>(ConversationError::TimeOutOfRange)
                ==> !time_in_range(self.time),
    {
        proof {
            lemma_stack_error_kinds(task_log(visible_messages(conversation.msgs(), self.id@, false)));
        }
        let time = match format_utc(self.time) {
            Some(s) => s,
            None => {
                return Err(ConversationError::TimeOutOfRange);
            },
        };
        let mut res: Vec<MetadataPromptTemplateEntry> = Vec::new();
        res.push(MetadataPromptTemplateEntry { key: String::from_str("Time"), value: time });
        let stack = match conversation.get_task_stack(self.id.as_str(), false) {
            Ok(s) => s,
            Err(e) => {
                return Err(e);
            },
        };
        let ghost sv = tasks_view(stack@);
        if stack.len() > 0 {
            let mut tasks = String::new();
            for i in 0..stack.len()
                invariant
                    sv == tasks_view(stack@),
                    tasks@ == task_lines(sv.take(i as int)),
            {
                assert(sv.take(i + 1).drop_last() =~= sv.take(i as int));
                tasks.append("\t- ");
                tasks.append(stack[i].name.as_str());
                tasks.append("\n");
            }
            assert(sv.take(stack.len() as int) =~= sv);
            res.push(MetadataPromptTemplateEntry { key: String::from_str("Tasks"), value: trim_end(&tasks) });
        }
        assert(meta_entries_view(res@) =~= meta_entries_of(conversation.msgs(), self@).unwrap());
        Ok(res)
    }
}

/// The prompt data for `curr_msg` of `conversation`, with history `prev_msgs`: its metadata
/// block, the history that omission markers leave, and its own text as the response.
pub fn messages_prompt_data(prev_msgs: &[Message], curr_msg: &Message, conversation: &Conversation) -> (r: Result<PromptTemplateData, ConversationError>)
    ensures
        prompt_result_view(r) == prompt_data_of(messages_view(prev_msgs@), curr_msg@, conversation.msgs()),
        time_in_range(curr_msg.time) ==> utc_text(curr_msg.time.secs, curr_msg.time.nanos) is Some,
        r == Err::<PromptTemplateData, ConversationError>(ConversationError::TimeOutOfRange) ==> !time_in_range(
            curr_msg.time,
        ),
{
    let meta = match curr_msg.to_meta_entries(conversation) {
        Ok(m) => m,
        Err(e) => {
            return Err(e);
        },
    };
    let ghost prev = messages_view(prev_msgs@);
    let mut backward: Vec<MessagePromptTemplateEntry> = Vec::new();
    let ghost mut kept: Seq<MessageView> = seq![];
    let mut omit_until: Option<String> = None;
    let mut i: usize = prev_msgs.len();
    assert(prev.take(prev_msgs.len() as int) =~= prev);
    while i > 0
        invariant
            i <= prev_msgs.len(),
            prev == messages_view(prev_msgs@),
            kept_backward(prev, None) == kept + kept_backward(prev.take(i as int), opt_view(omit_until)),
            msg_entries_view(backward@) == kept.map_values(|x: MessageView| entry_of(x)),
        decreases i,
    {
        let m = &prev_msgs[i - 1];
        assert(prev.take(i as int).drop_last() =~= prev.take(i - 1));
        assert(prev.take(i as int).last() == m@);
        let skip = match &omit_until {
            Some(u) => m.id != *u,
            None => false,
        };
        if !skip {
            omit_until = m.meta.omit_history_until.clone();
            let ghost bv = backward@;
            backward.push(m.to_prompt_template());
            proof {
                assert(msg_entries_view(backward@) =~= msg_entries_view(bv).push(entry_of(m@)));
                assert(kept.push(m@).map_values(|x: MessageView| entry_of(x)) =~= kept.map_values(|x: MessageView| entry_of(x)).push(entry_of(m@)));
                assert(kept + (seq![m@] + kept_backward(prev.take(i - 1), m@.meta.omit_history_until)) =~= kept.push(m@) + kept_backward(prev.take(i - 1), m@.meta.omit_history_until));
                kept = kept.push(m@);
            }
        }
        i = i - 1;
    }
    assert(kept_backward(prev.take(0), opt_view(omit_until)) =~= seq![]);
    assert(kept + seq![] =~= kept);
    let mut msgs: Vec<MessagePromptTemplateEntry> = Vec::new();
    let ghost ev = msg_entries_view(backward@);
    assert(ev.take(backward.len() as int) =~= ev);
    while backward.len() > 0
        invariant
            backward.len() <= ev.len(),
            msg_entries_view(backward@) == ev.take(backward.len() as int),
            msg_entries_view(msgs@) == ev.subrange(backward.len() as int, ev.len() as int).reverse(),
        decreases backward.len(),
    {
        let ghost n = backward.len();
        let ghost bv = backward@;
        match backward.pop() {
            Some(e) => {
                assert(e == bv[n - 1]);
                assert(msg_entries_view(bv)[n - 1] == (bv[n - 1].author@, bv[n - 1].value@));
                assert(ev.take(n as int)[n - 1] == ev[n - 1]);
                assert((e.author@, e.value@) == ev[n - 1]);
                let ghost mv = msg_entries_view(msgs@);
                msgs.push(e);
                assert(msg_entries_view(msgs@) =~= mv.push(ev[n - 1]));
                let ghost a = ev.subrange(n - 1, ev.len() as int);
                let ghost b = ev.subrange(n as int, ev.len() as int);
                assert(a.reverse().len() == a.len() && b.reverse().len() == b.len());
                assert forall|x: int| 0 <= x < a.len() implies #[trigger] a.reverse()[x] == b.reverse().push(ev[n - 1])[x] by {
                    if x < b.len() {
                        assert(b.reverse()[x] == b[b.len() - 1 - x]);
                    }
                }
                assert(msg_entries_view(msgs@) =~= a.reverse());
                assert(msg_entries_view(backward@) =~= ev.take(n - 1));
            },
            None => {},
        }
    }
    assert(ev.subrange(0, ev.len() as int) =~= ev);
    assert(kept.reverse().map_values(|x: MessageView| entry_of(x)) =~= kept.map_values(|x: MessageView| entry_of(x)).reverse());
    Ok(PromptTemplateData { meta, msgs, response: curr_msg.msg.clone() })
}

/// The per-message training outcome: the prompt data of message `i` of `ms`, which must be the
/// primary user's.
pub open spec fn msg_training_of(ms: Seq<MessageView>, i: int) -> Result<PromptView, ConversationError> {
    if i < 0 || i >= ms.len() {
        Err(ConversationError::IndexOutOfRange)
    } else if ms[i].user != User::Jake {
        Err(ConversationError::NotTrainable)
    } else {
        prompt_data_of(ms.take(i), ms[i], ms)
    }
}

/// A message is trained on when the primary user wrote it and it is not excluded.
pub open spec fn trainable(m: MessageView) -> bool {
    m.user == User::Jake && !m.meta.exclude_from_training
}

/// The training prompts of the first `n` messages of `ms`, in order; the first failure ends it.
pub open spec fn training_of(ms: Seq<MessageView>, n: nat) -> Result<Seq<PromptView>, ConversationError>
    decreases n,
{
    if n == 0 {
        Ok(seq![])
    } else {
        match training_of(ms, (n - 1) as nat) {
            Err(e) => Err(e),
            Ok(v) => if trainable(ms[n - 1]) {
                match msg_training_of(ms, n - 1) {
                    Err(e) => Err(e),
                    Ok(p) => Ok(v.push(p)),
                }
            } else {
                Ok(v)
            },
        }
    }
}

pub open spec fn prompts_view(v: Seq<PromptTemplateData>) -> Seq<PromptView> {
    v.map_values(|p: PromptTemplateData| p@)
}

proof fn lemma_training_err(ms: Seq<MessageView>, i: nat, n: nat)
    requires
        i <= n,
        training_of(ms, i) is Err,
    ensures
        training_of(ms, n) == training_of(ms, i),
    decreases n - i,
{
    if i < n {
        lemma_training_err(ms, i + 1, n);
    }
}

impl Conversation {
    /// The prompt data of the training example for message `i`, which must be the primary user's.
    pub fn msg_training_data(&self, i: usize) -> (r: Result<PromptTemplateData, ConversationError>)
        ensures
            prompt_result_view(r) == msg_training_of(self.msgs(), i as int),
            i < self.messages.len() && self.messages[i as int].user == User::Jake && time_in_range(
                self.messages[i as int].time,
            ) ==> utc_text(self.messages[i as int].time.secs, self.messages[i as int].time.nanos) is Some,
            r == Err::<PromptTemplateData, ConversationError>(ConversationError::TimeOutOfRange) ==> i
                < self.messages.len() && !time_in_range(self.messages[i as int].time),
    {
        if i >= self.messages.len() {
            return Err(ConversationError::IndexOutOfRange);
        }
        if !self.messages[i].user.is_jake() {
            return Err(ConversationError::NotTrainable);
        }
        let prev = slice_subrange(self.messages.as_slice(), 0, i);
        assert(messages_view(prev@) =~= self.msgs().take(i as int));
        messages_prompt_data(prev, &self.messages[i], self)
    }

    /// The prompt data of one training example per message of the primary user that is not
    /// excluded from training, in order.
    pub fn to_training_data(&self) -> (r: Result<Vec<PromptTemplateData>, ConversationError>)
        ensures
            match r {
                Ok(v) => training_of(self.msgs(), self.messages.len() as nat) == Ok::<Seq<PromptView>, ConversationError>(
                    prompts_view(v@),
                ),
                Err(e) => training_of(self.msgs(), self.messages.len() as nat) == Err::<Seq<PromptView>, ConversationError>(e),
            },
            r == Err::<Vec<PromptTemplateData>, ConversationError>(ConversationError::TimeOutOfRange) ==> exists|i: int|
                0 <= i < self.messages.len() && trainable(#[trigger] self.msgs()[i]) && !time_in_range(
                    self.messages[i].time,
                ),
    {
        let mut data: Vec<PromptTemplateData> = Vec::new();
        assert(prompts_view(data@) =~= seq![]);
        for i in 0..self.messages.len()
            invariant
                training_of(self.msgs(), i as nat) == Ok::<Seq<PromptView>, ConversationError>(prompts_view(data@)),
        {
            let m = &self.messages[i];
            assert(self.msgs()[i as int] == m@);
            if m.user.is_jake() && !m.meta.exclude_from_training {
                match self.msg_training_data(i) {
                    Ok(p) => {
                        let ghost dv = prompts_view(data@);
                        data.push(p);
                        assert(prompts_view(data@) =~= dv.push(p@));
                    },
                    Err(e) => {
                        proof {
                            lemma_training_err(self.msgs(), (i + 1) as nat, self.messages.len() as nat);
                            if e == ConversationError::TimeOutOfRange {
                                assert(trainable(self.msgs()[i as int]));
                            }
                        }
                        return Err(e);
                    },
                }
            }
        }
        Ok(data)
    }
}

} // verus!
