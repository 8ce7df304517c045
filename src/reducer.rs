use vstd::prelude::*;

use crate::backend::{outputs_texts, BackendRequest, DockerResult};
use crate::command::commands_in;
use crate::conversation::{
    all_distinct, derive_stack, first_index, lemma_first_index, lemma_first_index_bound, message_ids,
    task_log, visible_messages, Conversation, ConversationError,
};
use crate::eval::{
    eval_step_matches, follow_up_of, follow_ups_view, lemma_task_ids_only_name_tasks, message_evaluation, outcomes_match,
    EvalStep, EvaluationView,
};
use crate::message::{empty_metadata, messages_view, Message, MessageView, MetadataView, User};

verus! {

/// A change to a conversation.
#[derive(Debug, PartialEq, Eq)]
pub enum ConversationAction {
    /// Removes every message with this id.
    DeleteMessage { id: String },
    /// Inserts a fresh empty message by `user` at `index`, or appends it.
    AddMessage { index: Option<usize>, user: User },
    /// Evaluates the message with this id; `outputs` holds the backend's answers to the
    /// requests that this evaluation has made so far.
    EvalMessage { id: String, outputs: Vec<DockerResult> },
    /// Replaces the message whose id is that of `new_message`.
    MutateMessage { new_message: Message },
}

/// The messages whose id is not `id`, in order.
pub open spec fn without_id(ms: Seq<MessageView>, id: Seq<char>) -> Seq<MessageView>
    decreases ms.len(),
{
    if ms.len() == 0 {
        seq![]
    } else {
        let rest = without_id(ms.drop_last(), id);
        if ms.last().id == id {
            rest
        } else {
            rest.push(ms.last())
        }
    }
}

/// The messages after evaluating the message at `k` to `meta` and inserting `inserted` after it.
pub open spec fn spliced(ms: Seq<MessageView>, k: int, meta: MetadataView, inserted: Seq<MessageView>) -> Seq<MessageView> {
    ms.take(k) + seq![MessageView { meta, ..ms[k] }] + inserted + ms.skip(k + 1)
}

/// The messages have pairwise distinct ids.
pub open spec fn ids_distinct(ms: Seq<MessageView>) -> bool {
    all_distinct(message_ids(ms))
}

/// The ids of `ins` are pairwise distinct and none is an id of `ms`.
pub open spec fn fresh_ids_for(ins: Seq<MessageView>, ms: Seq<MessageView>) -> bool {
    &&& ids_distinct(ins)
    &&& forall|i: int, j: int| 0 <= i < ins.len() && 0 <= j < ms.len() ==> ins[i].id != ms[j].id
}

proof fn lemma_distinct_insert(ms: Seq<MessageView>, pos: int, x: MessageView)
    requires
        ids_distinct(ms),
        0 <= pos <= ms.len(),
        forall|j: int| 0 <= j < ms.len() ==> ms[j].id != x.id,
    ensures
        ids_distinct(ms.insert(pos, x)),
{
    let t = ms.insert(pos, x);
    assert forall|i: int, j: int| 0 <= i < t.len() && 0 <= j < t.len() && i != j implies message_ids(t)[i]
        != message_ids(t)[j] by {
        let oi = if i < pos { i } else { i - 1 };
        let oj = if j < pos { j } else { j - 1 };
        if i != pos && j != pos {
            assert(message_ids(ms)[oi] != message_ids(ms)[oj]);
        }
    }
}

proof fn lemma_distinct_update(ms: Seq<MessageView>, k: int, x: MessageView)
    requires
        ids_distinct(ms),
        0 <= k < ms.len(),
        ms[k].id == x.id,
    ensures
        ids_distinct(ms.update(k, x)),
{
    let t = ms.update(k, x);
    assert forall|i: int, j: int| 0 <= i < t.len() && 0 <= j < t.len() && i != j implies message_ids(t)[i]
        != message_ids(t)[j] by {
        assert(message_ids(ms)[i] != message_ids(ms)[j]);
    }
}

proof fn lemma_distinct_spliced(ms: Seq<MessageView>, k: int, meta: MetadataView, ins: Seq<MessageView>)
    requires
        ids_distinct(ms),
        0 <= k < ms.len(),
        fresh_ids_for(ins, ms),
    ensures
        ids_distinct(spliced(ms, k, meta, ins)),
{
    let t = spliced(ms, k, meta, ins);
    let n = ins.len();
    assert forall|i: int, j: int| 0 <= i < t.len() && 0 <= j < t.len() && i != j implies message_ids(t)[i]
        != message_ids(t)[j] by {
        let ti = t[i];
        let tj = t[j];
        if k < i <= k + n && k < j <= k + n {
            assert(ti == ins[i - k - 1] && tj == ins[j - k - 1]);
            assert(message_ids(ins)[i - k - 1] != message_ids(ins)[j - k - 1]);
        } else if k < i <= k + n {
            let oj = if j <= k { j } else { j - n };
            assert(ti == ins[i - k - 1]);
            assert(tj.id == ms[oj].id);
        } else if k < j <= k + n {
            let oi = if i <= k { i } else { i - n };
            assert(tj == ins[j - k - 1]);
            assert(ti.id == ms[oi].id);
        } else {
            let oi = if i <= k { i } else { i - n };
            let oj = if j <= k { j } else { j - n };
            assert(ti.id == ms[oi].id);
            assert(tj.id == ms[oj].id);
            assert(message_ids(ms)[oi] != message_ids(ms)[oj]);
        }
    }
}

/// Some message of `ms` has id `x`.
pub open spec fn id_in(ms: Seq<MessageView>, x: Seq<char>) -> bool {
    exists|j: int| 0 <= j < ms.len() && #[trigger] ms[j].id == x
}

proof fn lemma_distinct_without(ms: Seq<MessageView>, id: Seq<char>)
    requires
        ids_distinct(ms),
    ensures
        ids_distinct(without_id(ms, id)),
        forall|i: int| 0 <= i < without_id(ms, id).len() ==> id_in(ms, #[trigger] without_id(ms, id)[i].id),
    decreases ms.len(),
{
    if ms.len() > 0 {
        let pre = ms.drop_last();
        assert forall|i: int, j: int| 0 <= i < pre.len() && 0 <= j < pre.len() && i != j implies message_ids(pre)[i]
            != message_ids(pre)[j] by {
            assert(message_ids(ms)[i] != message_ids(ms)[j]);
        }
        lemma_distinct_without(pre, id);
        let rest = without_id(pre, id);
        let w = without_id(ms, id);
        assert forall|i: int| 0 <= i < w.len() implies id_in(ms, #[trigger] w[i].id) by {
            if i < rest.len() {
                let j0 = choose|j: int| 0 <= j < pre.len() && #[trigger] pre[j].id == rest[i].id;
                assert(ms[j0].id == w[i].id);
            } else {
                assert(ms[ms.len() - 1].id == w[i].id);
            }
        }
        if ms.last().id != id {
            assert forall|i: int, j: int| 0 <= i < w.len() && 0 <= j < w.len() && i != j implies message_ids(w)[i]
                != message_ids(w)[j] by {
                if i < rest.len() && j < rest.len() {
                    assert(message_ids(rest)[i] != message_ids(rest)[j]);
                } else if i < rest.len() {
                    let j0 = choose|q: int| 0 <= q < pre.len() && #[trigger] pre[q].id == rest[i].id;
                    assert(message_ids(ms)[j0] != message_ids(ms)[ms.len() - 1]);
                } else if j < rest.len() {
                    let j0 = choose|q: int| 0 <= q < pre.len() && #[trigger] pre[q].id == rest[j].id;
                    assert(message_ids(ms)[j0] != message_ids(ms)[ms.len() - 1]);
                }
            }
        }
    }
}

/// `after` and `r` are what applying an evaluation with outcome `ev` to the message at `k` gives.
pub open spec fn eval_applied(
    before: Seq<MessageView>,
    k: int,
    ev: EvaluationView,
    after: Seq<MessageView>,
    r: Result<Option<BackendRequest>, ConversationError>,
) -> bool {
    match ev {
        EvaluationView::Done { meta, follow_ups } => exists|inserted: Seq<MessageView>|
            #![trigger fresh_ids_for(inserted, before)]
            inserted.map_values(|m: MessageView| follow_up_of(m)) == follow_ups && if fresh_ids_for(inserted, before) {
                r == Ok::<Option<BackendRequest>, ConversationError>(None) && after == spliced(before, k, meta, inserted)
            } else {
                r == Err::<Option<BackendRequest>, ConversationError>(ConversationError::DuplicateId) && after == before
            },
        EvaluationView::NeedsBackend(req) => match r {
            Ok(Some(q)) => q@ == req && after == before,
            _ => false,
        },
        EvaluationView::Failed(e) => r == Err::<Option<BackendRequest>, ConversationError>(e) && after == before,
    }
}

/// Deleting an id that no message carries leaves the messages as they were.
pub proof fn lemma_delete_absent_id(ms: Seq<MessageView>, id: Seq<char>)
    requires
        forall|j: int| 0 <= j < ms.len() ==> #[trigger] ms[j].id != id,
    ensures
        without_id(ms, id) == ms,
    decreases ms.len(),
{
    if ms.len() > 0 {
        let pre = ms.drop_last();
        assert forall|j: int| 0 <= j < pre.len() implies #[trigger] pre[j].id != id by {
            assert(pre[j] == ms[j]);
        }
        lemma_delete_absent_id(pre, id);
        assert(ms[ms.len() - 1].id != id);
        assert(pre.push(ms.last()) =~= ms);
    }
}

/// Evaluating a message again after its evaluation was applied, with the same backend outputs
/// and task ids, has the same outcome: the same metadata and the same follow-up messages.
/// The message at `k` must be the first with its id, as the one that an evaluation finds.
pub proof fn lemma_reevaluation_same_outcome(
    ms: Seq<MessageView>,
    k: int,
    meta: MetadataView,
    inserted: Seq<MessageView>,
    outs: Seq<Seq<char>>,
    ids: Seq<Seq<char>>,
)
    requires
        0 <= k < ms.len(),
        first_index(message_ids(ms), ms[k].id) == k,
    ensures
        message_evaluation(spliced(ms, k, meta, inserted), spliced(ms, k, meta, inserted)[k], outs, ids)
            == message_evaluation(ms, ms[k], outs, ids),
{
    let after = spliced(ms, k, meta, inserted);
    let id = ms[k].id;
    lemma_first_index_bound(message_ids(ms), id);
    assert(after.take(k) =~= ms.take(k));
    assert(after[k] == MessageView { meta, ..ms[k] });
    assert forall|j: int| 0 <= j < k implies message_ids(after)[j] != id by {
        assert(message_ids(after)[j] == after[j].id);
        assert(after[j] == ms[j]);
        assert(message_ids(ms)[j] == ms[j].id);
    }
    lemma_first_index(message_ids(after), id, k);
    lemma_first_index(message_ids(ms), id, k);
    assert(visible_messages(after, id, false) =~= visible_messages(ms, id, false));
}

/// Evaluating a message again after its evaluation was applied, with the same backend outputs
/// and any fresh task ids, gives the same follow-up messages, as many as before, and metadata
/// that differ only in the ids of the tasks started. The message at `k` must be the first with
/// its id, as the one that an evaluation finds.
pub proof fn lemma_reevaluation_matches(
    ms: Seq<MessageView>,
    k: int,
    meta: MetadataView,
    inserted: Seq<MessageView>,
    outs: Seq<Seq<char>>,
    ids1: Seq<Seq<char>>,
    ids2: Seq<Seq<char>>,
)
    requires
        0 <= k < ms.len(),
        first_index(message_ids(ms), ms[k].id) == k,
    ensures
        outcomes_match(
            message_evaluation(ms, ms[k], outs, ids1),
            message_evaluation(spliced(ms, k, meta, inserted), spliced(ms, k, meta, inserted)[k], outs, ids2),
        ),
{
    lemma_reevaluation_same_outcome(ms, k, meta, inserted, outs, ids2);
    lemma_task_ids_only_name_tasks(
        commands_in(ms[k].msg),
        0,
        outs,
        0,
        derive_stack(task_log(visible_messages(ms, ms[k].id, false))),
        ids1,
        ids2,
        seq![],
        seq![],
        seq![],
    );
}

/// The position of the first message with id `id`, or the number of messages when there is none.
fn find_message(ms: &Vec<Message>, id: &String) -> (r: usize)
    ensures
        r == first_index(message_ids(messages_view(ms@)), id@),
{
    let ghost ids = message_ids(messages_view(ms@));
    let mut i: usize = 0;
    while i < ms.len()
        invariant
            i <= ms.len(),
            ids == message_ids(messages_view(ms@)),
            forall|j: int| 0 <= j < i ==> ids[j] != id@,
        decreases ms.len() - i,
    {
        if ms[i].id == *id {
            proof {
                lemma_first_index(ids, id@, i as int);
            }
            return i;
        }
        i = i + 1;
    }
    proof {
        lemma_first_index(ids, id@, i as int);
    }
    i
}

proof fn lemma_absent(ms: Seq<MessageView>, x: Seq<char>)
    requires
        first_index(message_ids(ms), x) >= ms.len(),
    ensures
        forall|j: int| 0 <= j < ms.len() ==> #[trigger] ms[j].id != x,
{
    lemma_first_index_bound(message_ids(ms), x);
    assert forall|j: int| 0 <= j < ms.len() implies #[trigger] ms[j].id != x by {
        assert(message_ids(ms)[j] == ms[j].id);
    }
}

impl Conversation {
    /// Whether the ids of `fresh` are pairwise distinct and none is the id of a message here.
    fn all_fresh(&self, fresh: &Vec<Message>) -> (r: bool)
        ensures
            r == fresh_ids_for(messages_view(fresh@), self.msgs()),
    {
        let ghost fv = messages_view(fresh@);
        let mut j: usize = 0;
        while j < fresh.len()
            invariant
                j <= fresh.len(),
                fv == messages_view(fresh@),
                forall|a: int, b: int| 0 <= a < j && 0 <= b < self.msgs().len() ==> fv[a].id != self.msgs()[b].id,
                forall|a: int, b: int| 0 <= a < j && 0 <= b < j && a != b ==> fv[a].id != fv[b].id,
            decreases fresh.len() - j,
        {
            let in_conversation = find_message(&self.messages, &fresh[j].id);
            let first = find_message(fresh, &fresh[j].id);
            proof {
                lemma_first_index_bound(message_ids(self.msgs()), fv[j as int].id);
                lemma_first_index_bound(message_ids(fv), fv[j as int].id);
                assert(message_ids(fv)[j as int] == fv[j as int].id);
            }
            if in_conversation < self.messages.len() || first != j {
                proof {
                    if in_conversation < self.messages.len() {
                        assert(message_ids(self.msgs())[in_conversation as int] == self.msgs()[in_conversation as int].id);
                    } else {
                        assert(message_ids(fv)[first as int] == fv[first as int].id);
                        assert(!ids_distinct(fv));
                    }
                }
                return false;
            }
            proof {
                lemma_absent(self.msgs(), fv[j as int].id);
                assert forall|a: int| 0 <= a < j implies fv[a].id != fv[j as int].id by {
                    assert(message_ids(fv)[a] == fv[a].id);
                }
            }
            j = j + 1;
        }
        assert forall|a: int, b: int| 0 <= a < fv.len() && 0 <= b < fv.len() && a != b implies message_ids(fv)[a]
            != message_ids(fv)[b] by {
            assert(message_ids(fv)[a] == fv[a].id);
            assert(message_ids(fv)[b] == fv[b].id);
        }
        true
    }

    /// Inserts `msg` at `pos`, unless a message here already has its id.
    pub fn insert_new(&mut self, pos: usize, msg: Message) -> (r: Result<(), ConversationError>)
        requires
            pos <= old(self).messages.len(),
        ensures
            final(self).id == old(self).id,
            final(self).time == old(self).time,
            r is Err <==> id_in(old(self).msgs(), msg@.id),
            r is Err ==> r == Err::<(), ConversationError>(ConversationError::DuplicateId) && final(self).msgs()
                == old(self).msgs(),
            r is Ok ==> final(self).msgs() == old(self).msgs().insert(pos as int, msg@),
            r is Ok && ids_distinct(old(self).msgs()) ==> ids_distinct(final(self).msgs()),
    {
        let ghost before = self.msgs();
        let ghost mv = msg@;
        let k = find_message(&self.messages, &msg.id);
        proof {
            lemma_first_index_bound(message_ids(before), mv.id);
        }
        if k < self.messages.len() {
            proof {
                assert(message_ids(before)[k as int] == before[k as int].id);
                assert(id_in(before, mv.id));
            }
            return Err(ConversationError::DuplicateId);
        }
        proof {
            lemma_absent(before, mv.id);
        }
        self.messages.insert(pos, msg);
        assert(self.msgs() =~= before.insert(pos as int, mv));
        proof {
            if ids_distinct(before) {
                lemma_distinct_insert(before, pos as int, mv);
            }
        }
        Ok(())
    }

    /// Applies one action, in place. On an error, and when an evaluation needs the backend,
    /// the conversation is left unchanged. A new message whose freshly drawn id is already
    /// taken makes the action fail with `DuplicateId`, so message ids that are distinct stay
    /// distinct.
    pub fn apply(&mut self, action: ConversationAction) -> (r: Result<Option<BackendRequest>, ConversationError>)
        ensures
            final(self).id == old(self).id,
            final(self).time == old(self).time,
            r is Ok && ids_distinct(old(self).msgs()) ==> ids_distinct(final(self).msgs()),
            match action {
                ConversationAction::DeleteMessage { id } => r == Ok::<Option<BackendRequest>, ConversationError>(None)
                    && final(self).msgs() == without_id(old(self).msgs(), id@),
                ConversationAction::AddMessage { index, user } => match index {
                    Some(k) if k > old(self).messages.len() => r == Err::<Option<BackendRequest>, ConversationError>(
                        ConversationError::IndexOutOfRange,
                    ) && final(self).msgs() == old(self).msgs(),
                    _ => {
                        let pos = match index {
                            Some(k) => k as int,
                            None => old(self).messages.len() as int,
                        };
                        &&& old(self).msgs().len() == 0 ==> r == Ok::<Option<BackendRequest>, ConversationError>(None)
                        &&& exists|m: MessageView|
                            #![trigger id_in(old(self).msgs(), m.id)]
                            m.user == user && m.msg == Seq::<char>::empty() && m.meta == empty_metadata() && if id_in(
                                old(self).msgs(),
                                m.id,
                            ) {
                                r == Err::<Option<BackendRequest>, ConversationError>(ConversationError::DuplicateId)
                                    && final(self).msgs() == old(self).msgs()
                            } else {
                                r == Ok::<Option<BackendRequest>, ConversationError>(None) && final(self).msgs()
                                    == old(self).msgs().insert(pos, m)
                            }
                    },
                },
                ConversationAction::MutateMessage { new_message } => {
                    let k = first_index(message_ids(old(self).msgs()), new_message.id@);
                    if k < old(self).msgs().len() {
                        r == Ok::<Option<BackendRequest>, ConversationError>(None) && final(self).msgs()
                            == old(self).msgs().update(k as int, new_message@)
                    } else {
                        r == Err::<Option<BackendRequest>, ConversationError>(ConversationError::MessageNotFound)
                            && final(self).msgs() == old(self).msgs()
                    }
                },
                ConversationAction::EvalMessage { id, outputs } => {
                    let k = first_index(message_ids(old(self).msgs()), id@);
                    if k < old(self).msgs().len() {
                        &&& commands_in(old(self).msgs()[k as int].msg).len() == 0 ==> {
                            &&& r == Ok::<Option<BackendRequest>, ConversationError>(None)
                            &&& final(self).msgs() == old(self).msgs().update(
                                k as int,
                                MessageView { meta: empty_metadata(), ..old(self).msgs()[k as int] },
                            )
                        }
                        &&& exists|ids: Seq<Seq<char>>|
                            ids.len() == commands_in(old(self).msgs()[k as int].msg).len() && eval_applied(
                                old(self).msgs(),
                                k as int,
                                #[trigger] message_evaluation(
                                    old(self).msgs(),
                                    old(self).msgs()[k as int],
                                    outputs_texts(outputs@),
                                    ids,
                                ),
                                final(self).msgs(),
                                r,
                            )
                    } else {
                        r == Err::<Option<BackendRequest>, ConversationError>(ConversationError::MessageNotFound)
                            && final(self).msgs() == old(self).msgs()
                    }
                },
            },
    {
        let ghost before = self.msgs();
        match action {
            ConversationAction::AddMessage { index, user } => {
                let msg = Message::new(user);
                let pos = match index {
                    Some(k) => {
                        if k > self.messages.len() {
                            return Err(ConversationError::IndexOutOfRange);
                        }
                        k
                    },
                    None => self.messages.len(),
                };
                match self.insert_new(pos, msg) {
                    Ok(()) => Ok(None),
                    Err(e) => Err(e),
                }
            },
            ConversationAction::MutateMessage { new_message } => {
                let k = find_message(&self.messages, &new_message.id);
                proof {
                    lemma_first_index_bound(message_ids(before), new_message.id@);
                }
                if k == self.messages.len() {
                    return Err(ConversationError::MessageNotFound);
                }
                let ghost nv = new_message@;
                self.messages.set(k, new_message);
                assert(self.msgs() =~= before.update(k as int, nv));
                proof {
                    assert(message_ids(before)[k as int] == before[k as int].id);
                    if ids_distinct(before) {
                        lemma_distinct_update(before, k as int, nv);
                    }
                }
                Ok(None)
            },
            ConversationAction::EvalMessage { id, outputs } => {
                let k = find_message(&self.messages, &id);
                proof {
                    lemma_first_index_bound(message_ids(before), id@);
                }
                if k == self.messages.len() {
                    return Err(ConversationError::MessageNotFound);
                }
                let mut msg = self.messages[k].clone();
                let ghost m0 = msg@;
                let step = msg.eval(self, &outputs);
                proof {
                    if commands_in(m0.msg).len() == 0 {
                        let ids = choose|ids: Seq<Seq<char>>|
                            ids.len() == commands_in(m0.msg).len() && eval_step_matches(
                                step,
                                m0,
                                msg@,
                                #[trigger] message_evaluation(self.msgs(), m0, outputs_texts(outputs@), ids),
                            );
                        assert(message_evaluation(self.msgs(), m0, outputs_texts(outputs@), ids) == EvaluationView::Done {
                            meta: empty_metadata(),
                            follow_ups: seq![],
                        });
                    }
                }
                match step {
                    Err(e) => Err(e),
                    Ok(EvalStep::NeedsBackend(req)) => Ok(Some(req)),
                    Ok(EvalStep::Finished(follow_ups)) => {
                        let ghost mv = msg@;
                        let ghost fv = messages_view(follow_ups@);
                        assert(follow_ups_view(follow_ups@) =~= fv.map_values(|m: MessageView| follow_up_of(m)));
                        if !self.all_fresh(&follow_ups) {
                            return Err(ConversationError::DuplicateId);
                        }
                        proof {
                            if fv.len() == 0 {
                                assert(spliced(before, k as int, mv.meta, fv) =~= before.update(
                                    k as int,
                                    MessageView { meta: mv.meta, ..before[k as int] },
                                ));
                            }
                        }
                        let mut follow_ups = follow_ups;
                        let mut tail = self.messages.split_off(k + 1);
                        self.messages.set(k, msg);
                        self.messages.append(&mut follow_ups);
                        self.messages.append(&mut tail);
                        assert(self.msgs() =~= spliced(before, k as int, mv.meta, fv));
                        proof {
                            if ids_distinct(before) {
                                lemma_distinct_spliced(before, k as int, mv.meta, fv);
                            }
                        }
                        Ok(None)
                    },
                }
            },
            ConversationAction::DeleteMessage { id } => {
                let mut kept: Vec<Message> = Vec::new();
                assert(messages_view(kept@) =~= without_id(before.take(0), id@));
                for i in 0..self.messages.len()
                    invariant
                        before == self.msgs(),
                        messages_view(kept@) == without_id(before.take(i as int), id@),
                {
                    assert(before.take(i + 1).drop_last() =~= before.take(i as int));
                    if self.messages[i].id != id {
                        let ghost kv = kept@;
                        kept.push(self.messages[i].clone());
                        assert(messages_view(kept@) =~= messages_view(kv).push(before[i as int]));
                    }
                }
                assert(before.take(self.messages.len() as int) =~= before);
                self.messages = kept;
                proof {
                    if ids_distinct(before) {
                        lemma_distinct_without(before, id@);
                    }
                }
                Ok(None)
            },
        }
    }
}

} // verus!
