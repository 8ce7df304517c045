use vstd::prelude::*;

use crate::backend::{outputs_texts, BackendRequest, BackendRequestView, DockerResult};
use crate::command::{commands_in, extract_commands, views_of_commands, Command, CommandView};
use crate::conversation::{
    derive_stack, task_log, tasks_result_view, visible_messages,
    Conversation, ConversationError, TaskInfo, TaskInfoView,
};
use crate::message::{
    actions_view, new_id, Message, MessageView, Metadata, MetadataView, TaskAction, TaskActionView,
    User,
};
use crate::system::{
    read_system_command, strings_view, system_parse_of, SystemCommand, SystemCommandView, SystemParse,
    SystemParseView,
};

verus! {

/// A follow-up message as the evaluation determines it: all but its fresh id and time.
pub struct FollowUpView {
    pub user: User,
    pub text: Seq<char>,
    pub meta: MetadataView,
}

pub open spec fn follow_up_of(m: MessageView) -> FollowUpView {
    FollowUpView { user: m.user, text: m.msg, meta: m.meta }
}

pub open spec fn follow_ups_view(v: Seq<Message>) -> Seq<FollowUpView> {
    v.map_values(|m: Message| follow_up_of(m@))
}

pub open spec fn note(user: User, text: Seq<char>, omit: Option<Seq<char>>) -> FollowUpView {
    FollowUpView {
        user,
        text,
        meta: MetadataView { task_actions: seq![], omit_history_until: omit, exclude_from_training: false },
    }
}

pub open spec fn started_text(name: Seq<char>) -> Seq<char> {
    "Task \""@ + name + "\" started"@
}

pub open spec fn finished_text(name: Seq<char>, summary: Seq<char>) -> Seq<char> {
    "Task \""@ + name + "\" finished with summary \""@ + summary + "\""@
}

pub open spec fn bad_quoting_text() -> Seq<char> {
    "invalid system command: mismatched quotes"@
}

pub open spec fn unrecognized_text() -> Seq<char> {
    "invalid system command: expected `task start --name <NAME>`, `task done --summary <SUMMARY>` or `nexos rebuild`"@
}

/// What a system command does within an evaluation.
pub enum SystemEffect {
    /// It needs the backend to rebuild the sandbox.
    Backend,
    /// It appends `actions` to the message's task log and emits `note`.
    Local { actions: Seq<TaskActionView>, note: FollowUpView },
    /// It fails the whole evaluation.
    Fail(ConversationError),
}

/// The effect of a system command body, given the task stack before the message and the id
/// that a new task would get.
pub open spec fn system_effect(
    p: SystemParseView,
    stack: Result<Seq<TaskInfoView>, ConversationError>,
    task_id: Seq<char>,
) -> SystemEffect {
    match p {
        SystemParseView::BadQuoting => SystemEffect::Local {
            actions: seq![],
            note: note(User::Docker, bad_quoting_text(), None),
        },
        SystemParseView::Unrecognized => SystemEffect::Local {
            actions: seq![],
            note: note(User::Docker, unrecognized_text(), None),
        },
        SystemParseView::Parsed(SystemCommandView::Rebuild) => SystemEffect::Backend,
        SystemParseView::Parsed(SystemCommandView::TaskStart { name }) => SystemEffect::Local {
            actions: seq![
                TaskActionView::Create { id: task_id, name },
                TaskActionView::Enter { id: task_id },
            ],
            note: note(User::System, started_text(name), None),
        },
        SystemParseView::Parsed(SystemCommandView::TaskDone { summary }) => match stack {
            Err(e) => SystemEffect::Fail(e),
            Ok(st) => if st.len() == 0 {
                SystemEffect::Fail(ConversationError::NoOpenTask)
            } else {
                SystemEffect::Local {
                    actions: seq![TaskActionView::Exit { id: st.last().id, summary }],
                    note: note(
                        User::TaskReport { creator: Box::new(User::Jake) },
                        finished_text(st.last().name, summary),
                        Some(st.last().msg_start_id),
                    ),
                }
            },
        },
    }
}

/// The outcome of evaluating a message's commands.
pub enum EvaluationView {
    Done { meta: MetadataView, follow_ups: Seq<FollowUpView> },
    NeedsBackend(BackendRequestView),
    Failed(ConversationError),
}

/// Evaluates the commands from position `k` on, where `outs` holds the backend output of each
/// backend request, in order, of which `used` are consumed, and `ids[k]` is the id that a task
/// started by command `k` gets.
pub open spec fn evaluate_from(
    cmds: Seq<CommandView>,
    k: nat,
    outs: Seq<Seq<char>>,
    used: nat,
    stack: Result<Seq<TaskInfoView>, ConversationError>,
    ids: Seq<Seq<char>>,
    acts: Seq<TaskActionView>,
    notes: Seq<FollowUpView>,
) -> EvaluationView
    decreases cmds.len() - k,
{
    if k >= cmds.len() {
        EvaluationView::Done {
            meta: MetadataView { task_actions: acts, omit_history_until: None, exclude_from_training: false },
            follow_ups: notes,
        }
    } else {
        match cmds[k as int] {
            CommandView::Nexos(body) => if used < outs.len() {
                evaluate_from(cmds, k + 1, outs, used + 1, stack, ids, acts, notes.push(note(User::Docker, outs[used as int], None)))
            } else {
                EvaluationView::NeedsBackend(BackendRequestView::Execute(body))
            },
            CommandView::System(body) => match system_effect(system_parse_of(body), stack, ids[k as int]) {
                SystemEffect::Backend => if used < outs.len() {
                    evaluate_from(cmds, k + 1, outs, used + 1, stack, ids, acts, notes.push(note(User::Docker, outs[used as int], None)))
                } else {
                    EvaluationView::NeedsBackend(BackendRequestView::Rebuild)
                },
                SystemEffect::Local { actions, note } => evaluate_from(
                    cmds,
                    k + 1,
                    outs,
                    used,
                    stack,
                    ids,
                    acts + actions,
                    notes.push(note),
                ),
                SystemEffect::Fail(e) => EvaluationView::Failed(e),
            },
        }
    }
}

/// Two task actions agree but for the id of a task that they start.
pub open spec fn action_match(x: TaskActionView, y: TaskActionView) -> bool {
    match x {
        TaskActionView::Create { name: n1, .. } => match y {
            TaskActionView::Create { name: n2, .. } => n1 == n2,
            _ => false,
        },
        TaskActionView::Enter { .. } => y is Enter,
        TaskActionView::Exit { id: i1, summary: s1 } => match y {
            TaskActionView::Exit { id: i2, summary: s2 } => i1 == i2 && s1 == s2,
            _ => false,
        },
    }
}

/// Two task logs agree action by action but for the ids of the tasks they start.
pub open spec fn actions_match(a: Seq<TaskActionView>, b: Seq<TaskActionView>) -> bool {
    a.len() == b.len() && forall|i: int| 0 <= i < a.len() ==> action_match(#[trigger] a[i], b[i])
}

/// Two outcomes agree but for the ids of the tasks started: the same kind, the same
/// follow-up messages, and metadata that agree but for those ids.
pub open spec fn outcomes_match(e1: EvaluationView, e2: EvaluationView) -> bool {
    match e1 {
        EvaluationView::Done { meta: m1, follow_ups: f1 } => match e2 {
            EvaluationView::Done { meta: m2, follow_ups: f2 } => actions_match(m1.task_actions, m2.task_actions)
                && m1.omit_history_until == m2.omit_history_until
                && m1.exclude_from_training == m2.exclude_from_training && f1 == f2,
            _ => false,
        },
        EvaluationView::NeedsBackend(a) => e2 == EvaluationView::NeedsBackend(a),
        EvaluationView::Failed(a) => e2 == EvaluationView::Failed(a),
    }
}

proof fn lemma_actions_match_concat(a1: Seq<TaskActionView>, a2: Seq<TaskActionView>, b1: Seq<TaskActionView>, b2: Seq<TaskActionView>)
    requires
        actions_match(a1, a2),
        actions_match(b1, b2),
    ensures
        actions_match(a1 + b1, a2 + b2),
{
    assert forall|i: int| 0 <= i < (a1 + b1).len() implies action_match(#[trigger] (a1 + b1)[i], (a2 + b2)[i]) by {
        if i < a1.len() {
            assert(action_match(a1[i], a2[i]));
        } else {
            assert(action_match(b1[i - a1.len()], b2[i - a1.len()]));
        }
    }
}

/// The ids given to started tasks change nothing of an evaluation but those ids.
pub proof fn lemma_task_ids_only_name_tasks(
    cmds: Seq<CommandView>,
    k: nat,
    outs: Seq<Seq<char>>,
    used: nat,
    stack: Result<Seq<TaskInfoView>, ConversationError>,
    ids1: Seq<Seq<char>>,
    ids2: Seq<Seq<char>>,
    acts1: Seq<TaskActionView>,
    acts2: Seq<TaskActionView>,
    notes: Seq<FollowUpView>,
)
    requires
        actions_match(acts1, acts2),
    ensures
        outcomes_match(
            evaluate_from(cmds, k, outs, used, stack, ids1, acts1, notes),
            evaluate_from(cmds, k, outs, used, stack, ids2, acts2, notes),
        ),
    decreases cmds.len() - k,
{
    if k < cmds.len() {
        match cmds[k as int] {
            CommandView::Nexos(body) => {
                if used < outs.len() {
                    lemma_task_ids_only_name_tasks(cmds, k + 1, outs, used + 1, stack, ids1, ids2, acts1, acts2,
                        notes.push(note(User::Docker, outs[used as int], None)));
                }
            },
            CommandView::System(body) => {
                let p = system_parse_of(body);
                let e1 = system_effect(p, stack, ids1[k as int]);
                let e2 = system_effect(p, stack, ids2[k as int]);
                match e1 {
                    SystemEffect::Backend => {
                        if used < outs.len() {
                            lemma_task_ids_only_name_tasks(cmds, k + 1, outs, used + 1, stack, ids1, ids2, acts1, acts2,
                                notes.push(note(User::Docker, outs[used as int], None)));
                        }
                    },
                    SystemEffect::Local { actions: x1, note: n1 } => {
                        let x2 = e2->Local_actions;
                        assert(e2 is Local && e2->Local_note == n1);
                        assert(actions_match(x1, x2)) by {
                            assert forall|i: int| 0 <= i < x1.len() implies action_match(#[trigger] x1[i], x2[i]) by {}
                        }
                        lemma_actions_match_concat(acts1, acts2, x1, x2);
                        lemma_task_ids_only_name_tasks(cmds, k + 1, outs, used, stack, ids1, ids2, acts1 + x1, acts2 + x2,
                            notes.push(n1));
                    },
                    SystemEffect::Fail(e) => {},
                }
            },
        }
    }
}

/// The outcome of evaluating a message's commands.
pub enum Evaluation {
    /// Every command ran: the message's new metadata, and the messages to insert after it.
    Done { meta: Metadata, follow_ups: Vec<Message> },
    /// The backend must serve this request first; its output is then handed back.
    NeedsBackend(BackendRequest),
}

pub open spec fn evaluation_view(r: Result<Evaluation, ConversationError>) -> EvaluationView {
    match r {
        Ok(Evaluation::Done { meta, follow_ups }) => EvaluationView::Done {
            meta: meta@,
            follow_ups: follow_ups_view(follow_ups@),
        },
        Ok(Evaluation::NeedsBackend(req)) => EvaluationView::NeedsBackend(req@),
        Err(e) => EvaluationView::Failed(e),
    }
}

fn quoted(prefix: &str, a: &String, middle: &str) -> (r: String)
    ensures
        r@ == prefix@ + a@ + middle@,
{
    let mut r = String::from_str(prefix);
    r.append(a.as_str());
    r.append(middle);
    r
}

/// Evaluates commands in order, given the task stack before their message, the backend output
/// of each backend request made so far, and for each command the id that a task it starts gets.
pub fn evaluate_commands(
    commands: &Vec<Command>,
    stack: &Result<Vec<TaskInfo>, ConversationError>,
    outputs: &Vec<DockerResult>,
    task_ids: &Vec<String>,
) -> (r: Result<Evaluation, ConversationError>)
    requires
        task_ids.len() == commands.len(),
    ensures
        evaluation_view(r) == evaluate_from(
            views_of_commands(commands@),
            0,
            outputs_texts(outputs@),
            0,
            tasks_result_view(*stack),
            strings_view(task_ids@),
            seq![],
            seq![],
        ),
{
    let ghost cmds = views_of_commands(commands@);
    let ghost outs = outputs_texts(outputs@);
    let ghost st = tasks_result_view(*stack);
    let ghost ids = strings_view(task_ids@);
    let ghost total = evaluate_from(cmds, 0, outs, 0, st, ids, seq![], seq![]);
    let mut acts: Vec<TaskAction> = Vec::new();
    let mut notes: Vec<Message> = Vec::new();
    let mut used: usize = 0;
    assert(actions_view(acts@) =~= seq![]);
    assert(follow_ups_view(notes@) =~= seq![]);
    for k in 0..commands.len()
        invariant
            task_ids.len() == commands.len(),
            cmds == views_of_commands(commands@),
            outs == outputs_texts(outputs@),
            st == tasks_result_view(*stack),
            ids == strings_view(task_ids@),
            used <= outputs.len(),
            total == evaluate_from(cmds, 0, outs, 0, st, ids, seq![], seq![]),
            evaluate_from(cmds, k as nat, outs, used as nat, st, ids, actions_view(acts@), follow_ups_view(notes@)) == total,
    {
        let ghost a0 = actions_view(acts@);
        let ghost n0 = follow_ups_view(notes@);
        assert(cmds[k as int] == commands[k as int]@);
        assert(cmds.len() == commands.len() && outs.len() == outputs.len());
        match &commands[k] {
            Command::Nexos(body) => {
                if used < outputs.len() {
                    let m = Message::new_with_msg(User::Docker, outputs[used].text());
                    notes.push(m);
                    assert(follow_ups_view(notes@) =~= n0.push(note(User::Docker, outs[used as int], None)));
                    used = used + 1;
                } else {
                    return Ok(Evaluation::NeedsBackend(BackendRequest::Execute(body.clone())));
                }
            },
            Command::System(body) => {
                let parsed = read_system_command(body.as_str());
                match parsed {
                    SystemParse::BadQuoting => {
                        let m = Message::new_with_msg(User::Docker, String::from_str("invalid system command: mismatched quotes"));
                        notes.push(m);
                        assert(follow_ups_view(notes@) =~= n0.push(note(User::Docker, bad_quoting_text(), None)));
                        assert(a0 + seq![] =~= a0);
                    },
                    SystemParse::Unrecognized => {
                        let m = Message::new_with_msg(
                            User::Docker,
                            String::from_str(
                                "invalid system command: expected `task start --name <NAME>`, `task done --summary <SUMMARY>` or `nexos rebuild`",
                            ),
                        );
                        notes.push(m);
                        assert(follow_ups_view(notes@) =~= n0.push(note(User::Docker, unrecognized_text(), None)));
                        assert(a0 + seq![] =~= a0);
                    },
                    SystemParse::Parsed(SystemCommand::Rebuild) => {
                        if used < outputs.len() {
                            let m = Message::new_with_msg(User::Docker, outputs[used].text());
                            notes.push(m);
                            assert(follow_ups_view(notes@) =~= n0.push(note(User::Docker, outs[used as int], None)));
                            used = used + 1;
                        } else {
                            return Ok(Evaluation::NeedsBackend(BackendRequest::Rebuild));
                        }
                    },
                    SystemParse::Parsed(SystemCommand::TaskStart { name }) => {
                        let id = &task_ids[k];
                        acts.push(TaskAction::Create { id: id.clone(), name: name.clone() });
                        acts.push(TaskAction::Enter { id: id.clone() });
                        assert(actions_view(acts@) =~= a0 + seq![
                            TaskActionView::Create { id: ids[k as int], name: name@ },
                            TaskActionView::Enter { id: ids[k as int] },
                        ]);
                        let m = Message::new_with_msg(User::System, quoted("Task \"", &name, "\" started"));
                        notes.push(m);
                        assert(follow_ups_view(notes@) =~= n0.push(note(User::System, started_text(name@), None)));
                    },
                    SystemParse::Parsed(SystemCommand::TaskDone { summary }) => {
                        match stack {
                            Err(e) => {
                                assert(st == Err::<Seq<TaskInfoView>, ConversationError>(*e));
                                return Err(*e);
                            },
                            Ok(tasks) => {
                                if tasks.len() == 0 {
                                    return Err(ConversationError::NoOpenTask);
                                }
                                let top = &tasks[tasks.len() - 1];
                                acts.push(TaskAction::Exit { id: top.id.clone(), summary: summary.clone() });
                                assert(actions_view(acts@) =~= a0 + seq![
                                    TaskActionView::Exit { id: top.id@, summary: summary@ },
                                ]);
                                let mut text = quoted("Task \"", &top.name, "\" finished with summary \"");
                                text.append(summary.as_str());
                                text.append("\"");
                                let mut m = Message::new_with_msg(
                                    User::TaskReport { creator: Box::new(User::Jake) },
                                    text,
                                );
                                m.meta.omit_history_until = Some(top.msg_start_id.clone());
                                notes.push(m);
                                assert(follow_ups_view(notes@) =~= n0.push(
                                    note(
                                        User::TaskReport { creator: Box::new(User::Jake) },
                                        finished_text(top.name@, summary@),
                                        Some(top.msg_start_id@),
                                    ),
                                ));
                            },
                        }
                    },
                }
            },
        }
    }
    let meta = Metadata { task_actions: acts, omit_history_until: None, exclude_from_training: false };
    Ok(Evaluation::Done { meta, follow_ups: notes })
}

/// The outcome of evaluating a message against the conversation `ms`, with backend outputs
/// `outs` and the ids `ids` for the tasks that its commands start.
pub open spec fn message_evaluation(
    ms: Seq<MessageView>,
    m: MessageView,
    outs: Seq<Seq<char>>,
    ids: Seq<Seq<char>>,
) -> EvaluationView {
    evaluate_from(
        commands_in(m.msg),
        0,
        outs,
        0,
        derive_stack(task_log(visible_messages(ms, m.id, false))),
        ids,
        seq![],
        seq![],
    )
}

/// What one call of [`Message::eval`] achieved.
pub enum EvalStep {
    /// The evaluation is complete: the messages to insert after the evaluated one.
    Finished(Vec<Message>),
    /// The backend must serve this request, and the evaluation be run again with its output.
    NeedsBackend(BackendRequest),
}

/// `r`, `before` and `after` are what an evaluation with outcome `ev` gives.
pub open spec fn eval_step_matches(
    r: Result<EvalStep, ConversationError>,
    before: MessageView,
    after: MessageView,
    ev: EvaluationView,
) -> bool {
    match ev {
        EvaluationView::Done { meta, follow_ups } => match r {
            Ok(EvalStep::Finished(fus)) => after == MessageView { meta, ..before } && follow_ups_view(fus@)
                == follow_ups,
            _ => false,
        },
        EvaluationView::NeedsBackend(req) => match r {
            Ok(EvalStep::NeedsBackend(q)) => q@ == req && after == before,
            _ => false,
        },
        EvaluationView::Failed(e) => r == Err::<EvalStep, ConversationError>(e) && after == before,
    }
}

/// `n` fresh random ids.
fn fresh_ids(n: usize) -> (r: Vec<String>)
    ensures
        r.len() == n,
{
    let mut r: Vec<String> = Vec::new();
    for i in 0..n
        invariant
            r.len() == i,
    {
        r.push(new_id());
    }
    r
}

impl Message {
    /// Evaluates the commands of this message, given the conversation it belongs to and the
    /// backend's output for each backend request that this evaluation has made so far.
    /// When every command has run, the metadata is replaced by what the commands produce and
    /// the follow-up messages are returned; otherwise the message is left as it was. Started
    /// tasks get fresh random ids.
    pub fn eval(&mut self, conversation: &Conversation, outputs: &Vec<DockerResult>) -> (r: Result<EvalStep, ConversationError>)
        ensures
            exists|ids: Seq<Seq<char>>|
                ids.len() == commands_in(old(self)@.msg).len() && eval_step_matches(
                    r,
                    old(self)@,
                    final(self)@,
                    #[trigger] message_evaluation(conversation.msgs(), old(self)@, outputs_texts(outputs@), ids),
                ),
    {
        let commands = extract_commands(self.msg.as_str());
        let stack = conversation.get_task_stack(self.id.as_str(), false);
        let task_ids = fresh_ids(commands.len());
        let ghost ids = strings_view(task_ids@);
        assert(views_of_commands(commands@).len() == commands.len());
        let ev = evaluate_commands(&commands, &stack, outputs, &task_ids);
        assert(message_evaluation(conversation.msgs(), self@, outputs_texts(outputs@), ids) == evaluation_view(ev));
        match ev {
            Err(e) => Err(e),
            Ok(Evaluation::NeedsBackend(req)) => Ok(EvalStep::NeedsBackend(req)),
            Ok(Evaluation::Done { meta, follow_ups }) => {
                self.meta = meta;
                Ok(EvalStep::Finished(follow_ups))
            },
        }
    }
}

} // verus!
