use vstd::prelude::*;

use crate::message::{
    messages_view, now, opt_view, Message, MessageView, TaskAction, TaskActionView, Timestamp,
};

verus! {

/// A program that the system can offer to the assistant.
pub trait Program {
    fn help() -> String;

    fn run() -> Result<String, String>;
}

/// The structural errors of the conversation engine.
#[derive(Debug, Clone, Copy, PartialEq, Eq)]
pub enum ConversationError {
    /// No message carries the requested id.
    MessageNotFound,
    /// An insertion index lies past the end of the conversation.
    IndexOutOfRange,
    /// An `Exit` names a task that no visible `Create` made.
    UnknownTaskExit,
    /// An `Enter` names a task that no visible `Create` made.
    UnknownTaskEnter,
    /// `task done` was given while no task is open.
    NoOpenTask,
    /// Training data was asked for a message that is not the primary user's.
    NotTrainable,
    /// A message's time cannot be shown as a calendar date.
    TimeOutOfRange,
    /// A freshly drawn id is already taken.
    DuplicateId,
}

/// The state of one task, as derived from the task log.
#[derive(Debug, PartialEq, Eq)]
pub struct TaskInfo {
    pub id: String,
    pub name: String,
    pub done: bool,
    pub msg_start_id: String,
    pub msg_end_id: Option<String>,
    pub summary: Option<String>,
}

pub struct TaskInfoView {
    pub id: Seq<char>,
    pub name: Seq<char>,
    pub done: bool,
    pub msg_start_id: Seq<char>,
    pub msg_end_id: Option<Seq<char>>,
    pub summary: Option<Seq<char>>,
}

impl View for TaskInfo {
    type V = TaskInfoView;

    open spec fn view(&self) -> TaskInfoView {
        TaskInfoView {
            id: self.id@,
            name: self.name@,
            done: self.done,
            msg_start_id: self.msg_start_id@,
            msg_end_id: opt_view(self.msg_end_id),
            summary: opt_view(self.summary),
        }
    }
}

impl Clone for TaskInfo {
    fn clone(&self) -> (r: TaskInfo)
        ensures
            r@ == self@,
    {
        TaskInfo {
            id: self.id.clone(),
            name: self.name.clone(),
            done: self.done,
            msg_start_id: self.msg_start_id.clone(),
            msg_end_id: self.msg_end_id.clone(),
            summary: self.summary.clone(),
        }
    }
}

pub open spec fn tasks_view(v: Seq<TaskInfo>) -> Seq<TaskInfoView> {
    v.map_values(|t: TaskInfo| t@)
}

pub open spec fn task_ids(ts: Seq<TaskInfoView>) -> Seq<Seq<char>> {
    ts.map_values(|t: TaskInfoView| t.id)
}

pub open spec fn message_ids(ms: Seq<MessageView>) -> Seq<Seq<char>> {
    ms.map_values(|m: MessageView| m.id)
}

/// No two entries of `s` are equal.
pub open spec fn all_distinct(s: Seq<Seq<char>>) -> bool {
    forall|i: int, j: int| 0 <= i < s.len() && 0 <= j < s.len() && i != j ==> s[i] != s[j]
}

/// The position of the first occurrence of `x` in `s`, or the length of `s` when it does not occur.
pub open spec fn first_index(s: Seq<Seq<char>>, x: Seq<char>) -> nat
    decreases s.len(),
{
    if s.len() == 0 {
        0
    } else if s[0] == x {
        0
    } else {
        1 + first_index(s.skip(1), x)
    }
}

pub proof fn lemma_first_index(s: Seq<Seq<char>>, x: Seq<char>, i: int)
    requires
        0 <= i <= s.len(),
        forall|j: int| 0 <= j < i ==> s[j] != x,
        i == s.len() || s[i] == x,
    ensures
        first_index(s, x) == i,
    decreases i,
{
    if i > 0 {
        lemma_first_index(s.skip(1), x, i - 1);
    }
}

pub proof fn lemma_first_index_bound(s: Seq<Seq<char>>, x: Seq<char>)
    ensures
        first_index(s, x) <= s.len(),
        first_index(s, x) < s.len() ==> s[first_index(s, x) as int] == x,
        forall|j: int| 0 <= j < first_index(s, x) ==> s[j] != x,
    decreases s.len(),
{
    if s.len() > 0 && s[0] != x {
        lemma_first_index_bound(s.skip(1), x);
        assert forall|j: int| 0 <= j < first_index(s, x) implies s[j] != x by {
            if j > 0 {
                assert(s[j] == s.skip(1)[j - 1]);
            }
        }
    }
}

/// The messages visible at a cut: those before the first message with id `id`, and that
/// message too when `inclusive`; all messages when no message has that id.
pub open spec fn visible_messages(ms: Seq<MessageView>, id: Seq<char>, inclusive: bool) -> Seq<MessageView> {
    let k = first_index(message_ids(ms), id);
    if inclusive && k < ms.len() {
        ms.take(k + 1int)
    } else {
        ms.take(k as int)
    }
}

/// The task actions of one message, each paired with the id of the message.
pub open spec fn message_log(m: MessageView) -> Seq<(Seq<char>, TaskActionView)> {
    m.meta.task_actions.map_values(|a: TaskActionView| (m.id, a))
}

/// The task log of a run of messages, in order.
pub open spec fn task_log(ms: Seq<MessageView>) -> Seq<(Seq<char>, TaskActionView)>
    decreases ms.len(),
{
    if ms.len() == 0 {
        seq![]
    } else {
        task_log(ms.drop_last()) + message_log(ms.last())
    }
}

/// Records `info`, replacing the task with the same id where there is one.
pub open spec fn record_task(ts: Seq<TaskInfoView>, info: TaskInfoView) -> Seq<TaskInfoView> {
    let k = first_index(task_ids(ts), info.id);
    if k < ts.len() {
        ts.update(k as int, info)
    } else {
        ts.push(info)
    }
}

/// The tasks that the `Create` actions of a log make, in order of creation, none of them done.
pub open spec fn created_tasks(log: Seq<(Seq<char>, TaskActionView)>) -> Seq<TaskInfoView>
    decreases log.len(),
{
    if log.len() == 0 {
        seq![]
    } else {
        let ts = created_tasks(log.drop_last());
        match log.last().1 {
            TaskActionView::Create { id, name } => record_task(
                ts,
                TaskInfoView {
                    id,
                    name,
                    done: false,
                    msg_start_id: log.last().0,
                    msg_end_id: None,
                    summary: None,
                },
            ),
            _ => ts,
        }
    }
}

/// Applies the `Exit` actions of a log to `ts`; fails when one names an unknown task.
pub open spec fn close_tasks(log: Seq<(Seq<char>, TaskActionView)>, ts: Seq<TaskInfoView>) -> Result<
    Seq<TaskInfoView>,
    ConversationError,
>
    decreases log.len(),
{
    if log.len() == 0 {
        Ok(ts)
    } else {
        match close_tasks(log.drop_last(), ts) {
            Err(e) => Err(e),
            Ok(cur) => match log.last().1 {
                TaskActionView::Exit { id, summary } => {
                    let k = first_index(task_ids(cur), id);
                    if k < cur.len() {
                        Ok(
                            cur.update(
                                k as int,
                                TaskInfoView {
                                    done: true,
                                    msg_end_id: Some(log.last().0),
                                    summary: Some(summary),
                                    ..cur[k as int]
                                },
                            ),
                        )
                    } else {
                        Err(ConversationError::UnknownTaskExit)
                    }
                },
                _ => Ok(cur),
            },
        }
    }
}

/// The open tasks in the order of their `Enter` actions; fails when one names an unknown task.
pub open spec fn open_stack(log: Seq<(Seq<char>, TaskActionView)>, ts: Seq<TaskInfoView>) -> Result<
    Seq<TaskInfoView>,
    ConversationError,
>
    decreases log.len(),
{
    if log.len() == 0 {
        Ok(seq![])
    } else {
        match open_stack(log.drop_last(), ts) {
            Err(e) => Err(e),
            Ok(st) => match log.last().1 {
                TaskActionView::Enter { id } => {
                    let k = first_index(task_ids(ts), id);
                    if k < ts.len() {
                        if ts[k as int].done {
                            Ok(st)
                        } else {
                            Ok(st.push(ts[k as int]))
                        }
                    } else {
                        Err(ConversationError::UnknownTaskEnter)
                    }
                },
                _ => Ok(st),
            },
        }
    }
}

/// All tasks of a task log, with their completion.
pub open spec fn derive_tasks(log: Seq<(Seq<char>, TaskActionView)>) -> Result<Seq<TaskInfoView>, ConversationError> {
    close_tasks(log, created_tasks(log))
}

/// The open tasks of a task log, oldest entered first.
pub open spec fn derive_stack(log: Seq<(Seq<char>, TaskActionView)>) -> Result<Seq<TaskInfoView>, ConversationError> {
    match derive_tasks(log) {
        Err(e) => Err(e),
        Ok(ts) => open_stack(log, ts),
    }
}

pub open spec fn log_view(v: Seq<(String, TaskAction)>) -> Seq<(Seq<char>, TaskActionView)> {
    v.map_values(|e: (String, TaskAction)| (e.0@, e.1@))
}

pub open spec fn tasks_result_view(r: Result<Vec<TaskInfo>, ConversationError>) -> Result<Seq<TaskInfoView>, ConversationError> {
    match r {
        Ok(v) => Ok(tasks_view(v@)),
        Err(e) => Err(e),
    }
}

proof fn lemma_task_log_step(ms: Seq<MessageView>, i: int)
    requires
        0 <= i < ms.len(),
    ensures
        task_log(ms.take(i + 1)) == task_log(ms.take(i)) + message_log(ms[i]),
{
    assert(ms.take(i + 1).drop_last() =~= ms.take(i));
}

/// The task log of a run of messages.
fn collect_log(ms: &Vec<Message>) -> (r: Vec<(String, TaskAction)>)
    ensures
        log_view(r@) == task_log(messages_view(ms@)),
{
    let ghost mv = messages_view(ms@);
    let mut r: Vec<(String, TaskAction)> = Vec::new();
    assert(log_view(r@) =~= task_log(mv.take(0)));
    for i in 0..ms.len()
        invariant
            mv == messages_view(ms@),
            log_view(r@) == task_log(mv.take(i as int)),
    {
        let m = &ms[i];
        let ghost before = log_view(r@);
        proof {
            lemma_task_log_step(mv, i as int);
        }
        assert(mv[i as int] == m@);
        for j in 0..m.meta.task_actions.len()
            invariant
                i < mv.len(),
                m@ == mv[i as int],
                log_view(r@) == before + message_log(m@).take(j as int),
        {
            let a = m.meta.task_actions[j].clone();
            let idc = m.id.clone();
            assert(message_log(m@)[j as int] == (idc@, a@));
            let ghost rv = r@;
            r.push((idc, a));
            assert(log_view(r@) =~= log_view(rv).push((idc@, a@)));
            assert(log_view(r@) =~= before + message_log(m@).take(j + 1));
        }
        assert(message_log(m@).take(m.meta.task_actions.len() as int) =~= message_log(m@));
    }
    assert(mv.take(ms.len() as int) =~= mv);
    r
}

/// The position of the task with id `id`, or the number of tasks when there is none.
fn find_task(ts: &Vec<TaskInfo>, id: &String) -> (r: usize)
    ensures
        r == first_index(task_ids(tasks_view(ts@)), id@),
{
    let ghost ids = task_ids(tasks_view(ts@));
    let mut i: usize = 0;
    while i < ts.len()
        invariant
            i <= ts.len(),
            ids == task_ids(tasks_view(ts@)),
            forall|j: int| 0 <= j < i ==> ids[j] != id@,
        decreases ts.len() - i,
    {
        if ts[i].id == *id {
            proof {
                lemma_first_index(ids, id@, i as int);
            }
            return i;
        }
        i = i + 1;
    }
    proof {
        lemma_first_index(ids, id@, i as int);
    }
    i
}

/// The tasks that the `Create` actions of a log make.
fn create_pass(log: &Vec<(String, TaskAction)>) -> (r: Vec<TaskInfo>)
    ensures
        tasks_view(r@) == created_tasks(log_view(log@)),
{
    let ghost lv = log_view(log@);
    let mut ts: Vec<TaskInfo> = Vec::new();
    assert(tasks_view(ts@) =~= created_tasks(lv.take(0)));
    for i in 0..log.len()
        invariant
            lv == log_view(log@),
            tasks_view(ts@) == created_tasks(lv.take(i as int)),
    {
        assert(lv.take(i + 1).drop_last() =~= lv.take(i as int));
        let entry = &log[i];
        assert(lv.take(i + 1).last() == (entry.0@, entry.1@));
        match &entry.1 {
            TaskAction::Create { id, name } => {
                let info = TaskInfo {
                    id: id.clone(),
                    name: name.clone(),
                    done: false,
                    msg_start_id: entry.0.clone(),
                    msg_end_id: None,
                    summary: None,
                };
                let k = find_task(&ts, id);
                if k < ts.len() {
                    ts.set(k, info);
                } else {
                    ts.push(info);
                }
                assert(tasks_view(ts@) =~= created_tasks(lv.take(i + 1)));
            },
            _ => {},
        }
    }
    assert(lv.take(log.len() as int) =~= lv);
    ts
}

/// Applies the `Exit` actions of a log to `ts`.
fn exit_pass(log: &Vec<(String, TaskAction)>, tasks: Vec<TaskInfo>) -> (r: Result<Vec<TaskInfo>, ConversationError>)
    ensures
        tasks_result_view(r) == close_tasks(log_view(log@), tasks_view(tasks@)),
{
    let ghost lv = log_view(log@);
    let ghost init = tasks_view(tasks@);
    let mut ts = tasks;
    assert(lv.take(0) =~= Seq::<(Seq<char>, TaskActionView)>::empty());
    for i in 0..log.len()
        invariant
            lv == log_view(log@),
            init == tasks_view(tasks@),
            close_tasks(lv.take(i as int), init) == Ok::<Seq<TaskInfoView>, ConversationError>(tasks_view(ts@)),
    {
        assert(lv.take(i + 1).drop_last() =~= lv.take(i as int));
        let entry = &log[i];
        assert(lv.take(i + 1).last() == (entry.0@, entry.1@));
        match &entry.1 {
            TaskAction::Exit { id, summary } => {
                let k = find_task(&ts, id);
                if k < ts.len() {
                    let old = ts[k].clone();
                    let info = TaskInfo {
                        id: old.id,
                        name: old.name,
                        done: true,
                        msg_start_id: old.msg_start_id,
                        msg_end_id: Some(entry.0.clone()),
                        summary: Some(summary.clone()),
                    };
                    ts.set(k, info);
                    assert(tasks_view(ts@) =~= close_tasks(lv.take(i + 1), init).unwrap());
                } else {
                    assert(close_tasks(lv.take(i + 1), init) == Err::<Seq<TaskInfoView>, ConversationError>(
                        ConversationError::UnknownTaskExit,
                    ));
                    proof {
                        lemma_close_tasks_err(lv, i as int, init);
                    }
                    return Err(ConversationError::UnknownTaskExit);
                }
            },
            _ => {},
        }
    }
    assert(lv.take(log.len() as int) =~= lv);
    Ok(ts)
}

proof fn lemma_close_tasks_err(lv: Seq<(Seq<char>, TaskActionView)>, i: int, init: Seq<TaskInfoView>)
    requires
        0 <= i < lv.len(),
        close_tasks(lv.take(i + 1), init) is Err,
    ensures
        close_tasks(lv, init) == close_tasks(lv.take(i + 1), init),
    decreases lv.len() - i,
{
    if i + 1 < lv.len() {
        assert(lv.take(i + 2).drop_last() =~= lv.take(i + 1));
        lemma_close_tasks_err(lv, i + 1, init);
    } else {
        assert(lv.take(i + 1) =~= lv);
    }
}

/// The open tasks in the order of the `Enter` actions of a log.
fn enter_pass(log: &Vec<(String, TaskAction)>, ts: &Vec<TaskInfo>) -> (r: Result<Vec<TaskInfo>, ConversationError>)
    ensures
        tasks_result_view(r) == open_stack(log_view(log@), tasks_view(ts@)),
{
    let ghost lv = log_view(log@);
    let ghost tv = tasks_view(ts@);
    let mut stack: Vec<TaskInfo> = Vec::new();
    assert(tasks_view(stack@) =~= seq![]);
    assert(lv.take(0) =~= Seq::<(Seq<char>, TaskActionView)>::empty());
    for i in 0..log.len()
        invariant
            lv == log_view(log@),
            tv == tasks_view(ts@),
            open_stack(lv.take(i as int), tv) == Ok::<Seq<TaskInfoView>, ConversationError>(tasks_view(stack@)),
    {
        assert(lv.take(i + 1).drop_last() =~= lv.take(i as int));
        let entry = &log[i];
        assert(lv.take(i + 1).last() == (entry.0@, entry.1@));
        match &entry.1 {
            TaskAction::Enter { id } => {
                let k = find_task(ts, id);
                if k < ts.len() {
                    if !ts[k].done {
                        let ghost sv = stack@;
                        stack.push(ts[k].clone());
                        assert(tasks_view(stack@) =~= tasks_view(sv).push(tv[k as int]));
                    }
                } else {
                    proof {
                        lemma_open_stack_err(lv, i as int, tv);
                    }
                    return Err(ConversationError::UnknownTaskEnter);
                }
            },
            _ => {},
        }
    }
    assert(lv.take(log.len() as int) =~= lv);
    Ok(stack)
}

proof fn lemma_open_stack_err(lv: Seq<(Seq<char>, TaskActionView)>, i: int, ts: Seq<TaskInfoView>)
    requires
        0 <= i < lv.len(),
        open_stack(lv.take(i + 1), ts) is Err,
    ensures
        open_stack(lv, ts) == open_stack(lv.take(i + 1), ts),
    decreases lv.len() - i,
{
    if i + 1 < lv.len() {
        assert(lv.take(i + 2).drop_last() =~= lv.take(i + 1));
        lemma_open_stack_err(lv, i + 1, ts);
    } else {
        assert(lv.take(i + 1) =~= lv);
    }
}

/// The log creates no task with id `id`.
pub open spec fn never_created(log: Seq<(Seq<char>, TaskActionView)>, id: Seq<char>) -> bool {
    forall|j: int|
        0 <= j < log.len() ==> match #[trigger] log[j].1 {
            TaskActionView::Create { id: c, .. } => c != id,
            _ => true,
        }
}

proof fn lemma_created_lacks(log: Seq<(Seq<char>, TaskActionView)>, id: Seq<char>)
    requires
        never_created(log, id),
    ensures
        forall|k: int| 0 <= k < created_tasks(log).len() ==> #[trigger] created_tasks(log)[k].id != id,
    decreases log.len(),
{
    if log.len() > 0 {
        let pre = log.drop_last();
        assert forall|j: int| 0 <= j < pre.len() implies match #[trigger] pre[j].1 {
            TaskActionView::Create { id: c, .. } => c != id,
            _ => true,
        } by {
            assert(pre[j] == log[j]);
        }
        lemma_created_lacks(pre, id);
        let ts = created_tasks(pre);
        match log.last().1 {
            TaskActionView::Create { id: c, name } => {
                assert(log[log.len() - 1].1 == log.last().1);
                lemma_first_index_bound(task_ids(ts), c);
            },
            _ => {},
        }
    }
}

proof fn lemma_close_keeps_ids(log: Seq<(Seq<char>, TaskActionView)>, ts: Seq<TaskInfoView>)
    ensures
        close_tasks(log, ts) is Ok ==> task_ids(close_tasks(log, ts).unwrap()) == task_ids(ts),
        close_tasks(log, ts) is Err ==> close_tasks(log, ts) == Err::<Seq<TaskInfoView>, ConversationError>(
            ConversationError::UnknownTaskExit,
        ),
    decreases log.len(),
{
    if log.len() > 0 {
        lemma_close_keeps_ids(log.drop_last(), ts);
        match close_tasks(log.drop_last(), ts) {
            Ok(cur) => match log.last().1 {
                TaskActionView::Exit { id, summary } => {
                    let k = first_index(task_ids(cur), id);
                    if k < cur.len() {
                        let nxt = close_tasks(log, ts).unwrap();
                        assert(task_ids(nxt) =~= task_ids(cur));
                    }
                },
                _ => {},
            },
            Err(_) => {},
        }
    }
}

/// Deriving tasks fails, and so does deriving the task stack, when the log exits a task that
/// no `Create` of the log made.
pub proof fn lemma_exit_without_create_fails(log: Seq<(Seq<char>, TaskActionView)>, i: int, id: Seq<char>, summary: Seq<char>)
    requires
        0 <= i < log.len(),
        log[i].1 == (TaskActionView::Exit { id, summary }),
        never_created(log, id),
    ensures
        derive_tasks(log) == Err::<Seq<TaskInfoView>, ConversationError>(ConversationError::UnknownTaskExit),
        derive_stack(log) == Err::<Seq<TaskInfoView>, ConversationError>(ConversationError::UnknownTaskExit),
{
    let ts = created_tasks(log);
    lemma_created_lacks(log, id);
    let pre = log.take(i + 1);
    assert(pre.drop_last() =~= log.take(i));
    assert(pre.last() == log[i]);
    lemma_close_keeps_ids(log.take(i), ts);
    match close_tasks(log.take(i), ts) {
        Ok(cur) => {
            assert forall|j: int| 0 <= j < task_ids(cur).len() implies task_ids(cur)[j] != id by {
                assert(task_ids(cur)[j] == task_ids(ts)[j]);
            }
            lemma_first_index(task_ids(cur), id, task_ids(cur).len() as int);
        },
        Err(_) => {},
    }
    lemma_close_tasks_err(log, i, ts);
}

proof fn lemma_created_distinct(log: Seq<(Seq<char>, TaskActionView)>)
    ensures
        all_distinct(task_ids(created_tasks(log))),
    decreases log.len(),
{
    if log.len() > 0 {
        lemma_created_distinct(log.drop_last());
        let ts = created_tasks(log.drop_last());
        match log.last().1 {
            TaskActionView::Create { id, name } => {
                lemma_first_index_bound(task_ids(ts), id);
                let nt = created_tasks(log);
                assert forall|i: int, j: int| 0 <= i < nt.len() && 0 <= j < nt.len() && i != j implies task_ids(nt)[i]
                    != task_ids(nt)[j] by {
                    if i < ts.len() && j < ts.len() {
                        assert(task_ids(ts)[i] == ts[i].id && task_ids(ts)[j] == ts[j].id);
                    } else if i < ts.len() {
                        assert(task_ids(ts)[i] == ts[i].id);
                    } else {
                        assert(task_ids(ts)[j] == ts[j].id);
                    }
                }
            },
            _ => {},
        }
    }
}

proof fn lemma_open_error_kind(log: Seq<(Seq<char>, TaskActionView)>, ts: Seq<TaskInfoView>)
    ensures
        open_stack(log, ts) is Err ==> open_stack(log, ts) == Err::<Seq<TaskInfoView>, ConversationError>(
            ConversationError::UnknownTaskEnter,
        ),
    decreases log.len(),
{
    if log.len() > 0 {
        lemma_open_error_kind(log.drop_last(), ts);
    }
}

/// Deriving the task stack fails only on an unknown task: an `Exit` or an `Enter` that
/// names a task no `Create` made.
pub proof fn lemma_stack_error_kinds(log: Seq<(Seq<char>, TaskActionView)>)
    ensures
        derive_stack(log) is Err ==> derive_stack(log) == Err::<Seq<TaskInfoView>, ConversationError>(
            ConversationError::UnknownTaskExit,
        ) || derive_stack(log) == Err::<Seq<TaskInfoView>, ConversationError>(ConversationError::UnknownTaskEnter),
{
    lemma_close_keeps_ids(log, created_tasks(log));
    match derive_tasks(log) {
        Ok(ts) => lemma_open_error_kind(log, ts),
        Err(_) => {},
    }
}

/// Derived tasks carry pairwise distinct ids: one entry per task.
pub proof fn lemma_derived_task_ids_distinct(log: Seq<(Seq<char>, TaskActionView)>)
    ensures
        derive_tasks(log) matches Ok(ts) ==> all_distinct(task_ids(ts)),
{
    lemma_created_distinct(log);
    lemma_close_keeps_ids(log, created_tasks(log));
}

/// Some task of `ts` has id `x`.
pub open spec fn task_in(ts: Seq<TaskInfoView>, x: Seq<char>) -> bool {
    exists|i: int| 0 <= i < ts.len() && #[trigger] ts[i].id == x
}

/// Some `Create` of the log makes a task with id `x`.
pub open spec fn has_create(log: Seq<(Seq<char>, TaskActionView)>, x: Seq<char>) -> bool {
    exists|j: int| 0 <= j < log.len() && #[trigger] creates(log[j].1, x)
}

pub open spec fn creates(a: TaskActionView, x: Seq<char>) -> bool {
    match a {
        TaskActionView::Create { id, .. } => id == x,
        _ => false,
    }
}

/// The id that an `Exit` names, if the action is one.
pub open spec fn exit_id(a: TaskActionView) -> Option<Seq<char>> {
    match a {
        TaskActionView::Exit { id, .. } => Some(id),
        _ => None,
    }
}

/// The id that an `Enter` names, if the action is one.
pub open spec fn enter_id(a: TaskActionView) -> Option<Seq<char>> {
    match a {
        TaskActionView::Enter { id } => Some(id),
        _ => None,
    }
}

/// Entry `j` of the log exits or enters a task that no `Create` of the log makes.
pub open spec fn dangling_at(log: Seq<(Seq<char>, TaskActionView)>, j: int) -> bool {
    match exit_id(log[j].1) {
        Some(x) => !has_create(log, x),
        None => match enter_id(log[j].1) {
            Some(x) => !has_create(log, x),
            None => false,
        },
    }
}

/// The action exits a task that `ts` lacks.
pub open spec fn bad_exit(a: TaskActionView, ts: Seq<TaskInfoView>) -> bool {
    match exit_id(a) {
        Some(x) => !task_in(ts, x),
        None => false,
    }
}

/// The action enters a task that `ts` lacks.
pub open spec fn bad_enter(a: TaskActionView, ts: Seq<TaskInfoView>) -> bool {
    match enter_id(a) {
        Some(x) => !task_in(ts, x),
        None => false,
    }
}

proof fn lemma_task_in_index(ts: Seq<TaskInfoView>, x: Seq<char>)
    ensures
        (first_index(task_ids(ts), x) < ts.len()) == task_in(ts, x),
{
    lemma_first_index_bound(task_ids(ts), x);
    if first_index(task_ids(ts), x) < ts.len() {
        let k = first_index(task_ids(ts), x) as int;
        assert(task_ids(ts)[k] == ts[k].id);
    }
    if task_in(ts, x) {
        let i = choose|i: int| 0 <= i < ts.len() && #[trigger] ts[i].id == x;
        assert(task_ids(ts)[i] == ts[i].id);
    }
}

proof fn lemma_same_ids_in(a: Seq<TaskInfoView>, b: Seq<TaskInfoView>, x: Seq<char>)
    requires
        task_ids(a) == task_ids(b),
    ensures
        task_in(a, x) == task_in(b, x),
{
    assert(a.len() == task_ids(a).len() && b.len() == task_ids(b).len());
    if task_in(a, x) {
        let i = choose|i: int| 0 <= i < a.len() && #[trigger] a[i].id == x;
        assert(task_ids(a)[i] == a[i].id && task_ids(b)[i] == b[i].id);
    }
    if task_in(b, x) {
        let i = choose|i: int| 0 <= i < b.len() && #[trigger] b[i].id == x;
        assert(task_ids(a)[i] == a[i].id && task_ids(b)[i] == b[i].id);
    }
}

proof fn lemma_created_in(log: Seq<(Seq<char>, TaskActionView)>, x: Seq<char>)
    ensures
        task_in(created_tasks(log), x) == has_create(log, x),
    decreases log.len(),
{
    if log.len() > 0 {
        let pre = log.drop_last();
        lemma_created_in(pre, x);
        let ts = created_tasks(pre);
        let nt = created_tasks(log);
        assert(has_create(log, x) == (has_create(pre, x) || creates(log.last().1, x))) by {
            if has_create(pre, x) {
                let j = choose|j: int| 0 <= j < pre.len() && #[trigger] creates(pre[j].1, x);
                assert(log[j] == pre[j]);
            }
            if has_create(log, x) {
                let j = choose|j: int| 0 <= j < log.len() && #[trigger] creates(log[j].1, x);
                if j < pre.len() {
                    assert(log[j] == pre[j]);
                }
            }
            if creates(log.last().1, x) {
                assert(creates(log[log.len() - 1].1, x));
            }
        }
        match log.last().1 {
            TaskActionView::Create { id, name } => {
                lemma_first_index_bound(task_ids(ts), id);
                let k = first_index(task_ids(ts), id);
                if k < ts.len() {
                    assert(task_ids(ts)[k as int] == ts[k as int].id);
                    if task_in(nt, x) {
                        let i = choose|i: int| 0 <= i < nt.len() && #[trigger] nt[i].id == x;
                        assert(ts[i].id == x);
                    }
                    if task_in(ts, x) {
                        let i = choose|i: int| 0 <= i < ts.len() && #[trigger] ts[i].id == x;
                        assert(nt[i].id == x);
                    }
                } else {
                    if task_in(nt, x) {
                        let i = choose|i: int| 0 <= i < nt.len() && #[trigger] nt[i].id == x;
                        if i < ts.len() {
                            assert(ts[i].id == x);
                        }
                    }
                    if task_in(ts, x) {
                        let i = choose|i: int| 0 <= i < ts.len() && #[trigger] ts[i].id == x;
                        assert(nt[i].id == x);
                    }
                    if id == x {
                        assert(nt[ts.len() as int].id == x);
                    }
                }
            },
            _ => {},
        }
    }
}

proof fn lemma_close_err_iff(log: Seq<(Seq<char>, TaskActionView)>, ts: Seq<TaskInfoView>)
    ensures
        close_tasks(log, ts) is Err == exists|j: int|
            0 <= j < log.len() && #[trigger] bad_exit(log[j].1, ts),
    decreases log.len(),
{
    if log.len() > 0 {
        let pre = log.drop_last();
        lemma_close_err_iff(pre, ts);
        lemma_close_keeps_ids(pre, ts);
        let bad = exists|j: int| 0 <= j < log.len() && #[trigger] bad_exit(log[j].1, ts);
        let bad_pre = exists|j: int| 0 <= j < pre.len() && #[trigger] bad_exit(pre[j].1, ts);
        let last_bad = bad_exit(log.last().1, ts);
        assert(bad == (bad_pre || last_bad)) by {
            if bad_pre {
                let j = choose|j: int| 0 <= j < pre.len() && #[trigger] bad_exit(pre[j].1, ts);
                assert(log[j] == pre[j]);
            }
            if bad {
                let j = choose|j: int| 0 <= j < log.len() && #[trigger] bad_exit(log[j].1, ts);
                if j < pre.len() {
                    assert(log[j] == pre[j]);
                }
            }
            if last_bad {
                assert(log[log.len() - 1] == log.last());
            }
        }
        match close_tasks(pre, ts) {
            Ok(cur) => match log.last().1 {
                TaskActionView::Exit { id, summary } => {
                    lemma_task_in_index(cur, id);
                    lemma_same_ids_in(cur, ts, id);
                },
                _ => {},
            },
            Err(_) => {},
        }
    }
}

proof fn lemma_open_err_iff(log: Seq<(Seq<char>, TaskActionView)>, ts: Seq<TaskInfoView>)
    ensures
        open_stack(log, ts) is Err == exists|j: int|
            0 <= j < log.len() && #[trigger] bad_enter(log[j].1, ts),
    decreases log.len(),
{
    if log.len() > 0 {
        let pre = log.drop_last();
        lemma_open_err_iff(pre, ts);
        let bad = exists|j: int| 0 <= j < log.len() && #[trigger] bad_enter(log[j].1, ts);
        let bad_pre = exists|j: int| 0 <= j < pre.len() && #[trigger] bad_enter(pre[j].1, ts);
        let last_bad = bad_enter(log.last().1, ts);
        assert(bad == (bad_pre || last_bad)) by {
            if bad_pre {
                let j = choose|j: int| 0 <= j < pre.len() && #[trigger] bad_enter(pre[j].1, ts);
                assert(log[j] == pre[j]);
            }
            if bad {
                let j = choose|j: int| 0 <= j < log.len() && #[trigger] bad_enter(log[j].1, ts);
                if j < pre.len() {
                    assert(log[j] == pre[j]);
                }
            }
            if last_bad {
                assert(log[log.len() - 1] == log.last());
            }
        }
        match log.last().1 {
            TaskActionView::Enter { id } => {
                lemma_task_in_index(ts, id);
            },
            _ => {},
        }
    }
}

/// Deriving the task stack fails exactly when the log exits or enters a task that no
/// `Create` of the log makes; such a dangling reference is never ignored.
pub proof fn lemma_stack_fails_iff_dangling(log: Seq<(Seq<char>, TaskActionView)>)
    ensures
        derive_stack(log) is Err == exists|j: int| 0 <= j < log.len() && #[trigger] dangling_at(log, j),
{
    let ct = created_tasks(log);
    lemma_close_err_iff(log, ct);
    lemma_close_keeps_ids(log, ct);
    let some_dangling = exists|j: int| 0 <= j < log.len() && #[trigger] dangling_at(log, j);
    match derive_tasks(log) {
        Err(_) => {
            let j = choose|j: int| 0 <= j < log.len() && #[trigger] bad_exit(log[j].1, ct);
            let x = exit_id(log[j].1).unwrap();
            lemma_created_in(log, x);
            assert(dangling_at(log, j));
        },
        Ok(ts) => {
            lemma_open_err_iff(log, ts);
            if some_dangling {
                let j = choose|j: int| 0 <= j < log.len() && #[trigger] dangling_at(log, j);
                match exit_id(log[j].1) {
                    Some(x) => {
                        lemma_created_in(log, x);
                        assert(bad_exit(log[j].1, ct));
                        assert(derive_tasks(log) is Err);
                    },
                    None => {
                        let x = enter_id(log[j].1).unwrap();
                        lemma_created_in(log, x);
                        lemma_same_ids_in(ts, ct, x);
                        assert(bad_enter(log[j].1, ts));
                    },
                }
            }
            if open_stack(log, ts) is Err {
                let j = choose|j: int| 0 <= j < log.len() && #[trigger] bad_enter(log[j].1, ts);
                let x = enter_id(log[j].1).unwrap();
                lemma_created_in(log, x);
                lemma_same_ids_in(ts, ct, x);
                assert(exit_id(log[j].1) is None);
                assert(dangling_at(log, j));
            }
        },
    }
}

/// An ordered log of conversational turns.
#[derive(Debug, PartialEq, Eq)]
pub struct Conversation {
    /// The key under which the conversation is stored; absent until first stored.
    pub id: Option<String>,
    pub messages: Vec<Message>,
    pub time: Timestamp,
}

fn clone_messages(v: &Vec<Message>) -> (r: Vec<Message>)
    ensures
        messages_view(r@) == messages_view(v@),
{
    let mut r: Vec<Message> = Vec::new();
    for i in 0..v.len()
        invariant
            messages_view(r@) == messages_view(v@).take(i as int),
    {
        let ghost rv = r@;
        r.push(v[i].clone());
        assert(messages_view(r@) =~= messages_view(rv).push(v[i as int]@));
        assert(messages_view(r@) =~= messages_view(v@).take(i + 1));
    }
    assert(messages_view(v@).take(v.len() as int) =~= messages_view(v@));
    r
}

impl Clone for Conversation {
    fn clone(&self) -> (r: Conversation)
        ensures
            r.id == self.id,
            r.msgs() == self.msgs(),
            r.time == self.time,
    {
        Conversation { id: self.id.clone(), messages: clone_messages(&self.messages), time: self.time }
    }
}

impl Default for Conversation {
    /// An empty conversation, not yet stored, created now.
    fn default() -> (r: Conversation)
        ensures
            r.id is None,
            r.messages@.len() == 0,
    {
        Conversation::new()
    }
}

impl Conversation {
    /// An empty conversation, not yet stored, created now.
    pub fn new() -> (r: Conversation)
        ensures
            r.id is None,
            r.messages@.len() == 0,
    {
        Conversation { id: None, messages: Vec::new(), time: now() }
    }

    /// The key under which the conversation is stored: its id, or a fresh random one that it
    /// then keeps when it has none yet. The messages stay as they were.
    pub fn ensure_id(&mut self) -> (r: String)
        ensures
            final(self).id == Some(r),
            old(self).id matches Some(x) ==> r == x,
            final(self).messages == old(self).messages,
            final(self).time == old(self).time,
    {
        match &self.id {
            Some(id) => id.clone(),
            None => {
                let fresh = crate::message::new_id();
                self.id = Some(fresh.clone());
                fresh
            },
        }
    }

    pub open spec fn msgs(&self) -> Seq<MessageView> {
        messages_view(self.messages@)
    }

    /// The messages before the first message with id `msgid`, and that message too when
    /// `inclusive`; all messages when none has that id.
    pub fn get_msgs_till(&self, msgid: &str, inclusive: bool) -> (r: Vec<Message>)
        ensures
            messages_view(r@) == visible_messages(self.msgs(), msgid@, inclusive),
    {
        let target = String::from_str(msgid);
        let ghost ids = message_ids(self.msgs());
        let mut result: Vec<Message> = Vec::new();
        let mut i: usize = 0;
        assert(messages_view(result@) =~= self.msgs().take(0));
        while i < self.messages.len()
            invariant
                i <= self.messages.len(),
                target@ == msgid@,
                ids == message_ids(self.msgs()),
                forall|j: int| 0 <= j < i ==> ids[j] != msgid@,
                messages_view(result@) == self.msgs().take(i as int),
            decreases self.messages.len() - i,
        {
            let msg = &self.messages[i];
            if msg.id == target {
                proof {
                    lemma_first_index(ids, msgid@, i as int);
                }
                if inclusive {
                    let ghost rv = result@;
                    result.push(msg.clone());
                    assert(messages_view(result@) =~= messages_view(rv).push(msg@));
                    assert(messages_view(result@) =~= self.msgs().take(i + 1));
                }
                return result;
            }
            let ghost rv = result@;
            result.push(msg.clone());
            assert(messages_view(result@) =~= messages_view(rv).push(msg@));
            assert(messages_view(result@) =~= self.msgs().take(i + 1));
            i = i + 1;
        }
        proof {
            lemma_first_index(ids, msgid@, i as int);
        }
        result
    }

    /// All tasks that the task log visible at the cut creates, one per id in order of first
    /// creation, with their completion; fails when an `Exit` names a task that no visible
    /// `Create` made.
    pub fn get_tasks_till(&self, msgid: &str, inclusive: bool) -> (r: Result<Vec<TaskInfo>, ConversationError>)
        ensures
            tasks_result_view(r) == derive_tasks(task_log(visible_messages(self.msgs(), msgid@, inclusive))),
            r matches Ok(v) ==> all_distinct(task_ids(tasks_view(v@))),
    {
        proof {
            lemma_derived_task_ids_distinct(task_log(visible_messages(self.msgs(), msgid@, inclusive)));
        }
        let visible = self.get_msgs_till(msgid, inclusive);
        let log = collect_log(&visible);
        let created = create_pass(&log);
        exit_pass(&log, created)
    }

    /// The open tasks at the cut, oldest entered first; fails when the visible task log
    /// names a task that no visible `Create` made. Each `Enter` of a task that is not done
    /// pushes it, so a task entered twice before its exit stands twice on the stack.
    pub fn get_task_stack(&self, msgid: &str, inclusive: bool) -> (r: Result<Vec<TaskInfo>, ConversationError>)
        ensures
            tasks_result_view(r) == derive_stack(task_log(visible_messages(self.msgs(), msgid@, inclusive))),
    {
        let visible = self.get_msgs_till(msgid, inclusive);
        let log = collect_log(&visible);
        let created = create_pass(&log);
        match exit_pass(&log, created) {
            Err(e) => Err(e),
            Ok(tasks) => enter_pass(&log, &tasks),
        }
    }
}

} // verus!
