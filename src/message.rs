use vstd::prelude::*;

verus! {

/// The participants of a conversation.
#[derive(Debug, PartialEq, Eq)]
pub enum User {
    Jake,
    Zack,
    Docker,
    System,
    /// A message synthesized when a subtask completes, attributed to `creator`.
    TaskReport { creator: Box<User> },
}

/// The name under which a user's messages are shown.
pub open spec fn user_name(u: User) -> Seq<char>
    decreases u,
{
    match u {
        User::Jake => "Me"@,
        User::Zack => "Zack"@,
        User::Docker => "Docker"@,
        User::System => "System"@,
        User::TaskReport { creator } => user_name(*creator) + " (from subtask)"@,
    }
}

impl Clone for User {
    fn clone(&self) -> (r: User)
        ensures
            r == *self,
        decreases self,
    {
        match self {
            User::Jake => User::Jake,
            User::Zack => User::Zack,
            User::Docker => User::Docker,
            User::System => User::System,
            User::TaskReport { creator } => User::TaskReport {
                creator: Box::new((**creator).clone()),
            },
        }
    }
}

impl User {
    /// The name under which this user's messages are shown.
    pub fn to_string(&self) -> (r: String)
        ensures
            r@ == user_name(*self),
        decreases self,
    {
        match self {
            User::Jake => String::from_str("Me"),
            User::Zack => String::from_str("Zack"),
            User::Docker => String::from_str("Docker"),
            User::System => String::from_str("System"),
            User::TaskReport { creator } => {
                let name = (**creator).to_string();
                name.concat(" (from subtask)")
            },
        }
    }

    pub fn is_jake(&self) -> (r: bool)
        ensures
            r == (*self == User::Jake),
    {
        match self {
            User::Jake => true,
            _ => false,
        }
    }
}

/// A point in time: whole seconds and nanoseconds since the Unix epoch, in UTC.
#[derive(Debug, Clone, Copy, PartialEq, Eq)]
pub struct Timestamp {
    pub secs: i64,
    pub nanos: u32,
}

/// Relies on std's SystemTime::now and chrono's `From<SystemTime> for DateTime<Utc>`: the
/// current time since the Unix epoch, also when the clock reads before the epoch, with a
/// sub-second part under one second.
#[verifier::external_body]
pub(crate) fn now() -> (r: Timestamp)
    ensures
        r.nanos < 1_000_000_000,
{
    let t = chrono::DateTime::<chrono::Utc>::from(std::time::SystemTime::now());
    Timestamp { secs: t.timestamp(), nanos: t.timestamp_subsec_nanos() }
}

/// Relies on uuid::Uuid::new_v4 and its hyphenated text form: a fresh random identifier.
#[verifier::external_body]
pub(crate) fn new_id() -> (r: String) {
    uuid::Uuid::new_v4().to_string()
}

/// An entry of the task log carried by a message.
#[derive(Debug, PartialEq, Eq)]
pub enum TaskAction {
    Create { id: String, name: String },
    Enter { id: String },
    Exit { id: String, summary: String },
}

pub enum TaskActionView {
    Create { id: Seq<char>, name: Seq<char> },
    Enter { id: Seq<char> },
    Exit { id: Seq<char>, summary: Seq<char> },
}

impl View for TaskAction {
    type V = TaskActionView;

    open spec fn view(&self) -> TaskActionView {
        match self {
            TaskAction::Create { id, name } => TaskActionView::Create { id: id@, name: name@ },
            TaskAction::Enter { id } => TaskActionView::Enter { id: id@ },
            TaskAction::Exit { id, summary } => TaskActionView::Exit { id: id@, summary: summary@ },
        }
    }
}

impl Clone for TaskAction {
    fn clone(&self) -> (r: TaskAction)
        ensures
            r == *self,
    {
        match self {
            TaskAction::Create { id, name } => TaskAction::Create { id: id.clone(), name: name.clone() },
            TaskAction::Enter { id } => TaskAction::Enter { id: id.clone() },
            TaskAction::Exit { id, summary } => TaskAction::Exit {
                id: id.clone(),
                summary: summary.clone(),
            },
        }
    }
}

pub open spec fn actions_view(v: Seq<TaskAction>) -> Seq<TaskActionView> {
    v.map_values(|a: TaskAction| a@)
}

pub open spec fn opt_view(o: Option<String>) -> Option<Seq<char>> {
    match o {
        Some(s) => Some(s@),
        None => None,
    }
}

/// Per-message data produced by evaluating the message.
#[derive(Debug, PartialEq, Eq)]
pub struct Metadata {
    pub task_actions: Vec<TaskAction>,
    /// Training examples skip the history before this message up to the message with this id.
    pub omit_history_until: Option<String>,
    pub exclude_from_training: bool,
}

pub struct MetadataView {
    pub task_actions: Seq<TaskActionView>,
    pub omit_history_until: Option<Seq<char>>,
    pub exclude_from_training: bool,
}

impl View for Metadata {
    type V = MetadataView;

    open spec fn view(&self) -> MetadataView {
        MetadataView {
            task_actions: actions_view(self.task_actions@),
            omit_history_until: opt_view(self.omit_history_until),
            exclude_from_training: self.exclude_from_training,
        }
    }
}

pub open spec fn empty_metadata() -> MetadataView {
    MetadataView { task_actions: seq![], omit_history_until: None, exclude_from_training: false }
}

fn clone_actions(v: &Vec<TaskAction>) -> (r: Vec<TaskAction>)
    ensures
        r@ == v@,
{
    let mut r: Vec<TaskAction> = Vec::new();
    for i in 0..v.len()
        invariant
            r@ == v@.take(i as int),
    {
        r.push(v[i].clone());
        assert(r@ =~= v@.take(i + 1));
    }
    assert(r@ =~= v@);
    r
}

impl Clone for Metadata {
    fn clone(&self) -> (r: Metadata)
        ensures
            r@ == self@,
    {
        Metadata {
            task_actions: clone_actions(&self.task_actions),
            omit_history_until: self.omit_history_until.clone(),
            exclude_from_training: self.exclude_from_training,
        }
    }
}

impl Default for Metadata {
    /// Metadata with no task actions, no omission marker and training allowed.
    fn default() -> (r: Metadata)
        ensures
            r@ == empty_metadata(),
    {
        Metadata::new()
    }
}

impl Metadata {
    /// Metadata with no task actions, no omission marker and training allowed.
    pub fn new() -> (r: Metadata)
        ensures
            r@ == empty_metadata(),
    {
        let r = Metadata { task_actions: Vec::new(), omit_history_until: None, exclude_from_training: false };
        assert(r@.task_actions =~= seq![]);
        r
    }
}

/// One turn of a conversation.
#[derive(Debug, PartialEq, Eq)]
pub struct Message {
    pub time: Timestamp,
    pub meta: Metadata,
    pub user: User,
    pub msg: String,
    pub id: String,
}

pub struct MessageView {
    pub time: Timestamp,
    pub meta: MetadataView,
    pub user: User,
    pub msg: Seq<char>,
    pub id: Seq<char>,
}

impl View for Message {
    type V = MessageView;

    open spec fn view(&self) -> MessageView {
        MessageView { time: self.time, meta: self.meta@, user: self.user, msg: self.msg@, id: self.id@ }
    }
}

impl Clone for Message {
    fn clone(&self) -> (r: Message)
        ensures
            r@ == self@,
    {
        Message {
            time: self.time,
            meta: self.meta.clone(),
            user: self.user.clone(),
            msg: self.msg.clone(),
            id: self.id.clone(),
        }
    }
}

pub open spec fn messages_view(v: Seq<Message>) -> Seq<MessageView> {
    v.map_values(|m: Message| m@)
}

impl Message {
    /// A fresh empty message by `user`, with a new id and the current time.
    pub fn new(user: User) -> (r: Message)
        ensures
            r.user == user,
            r@.msg == Seq::<char>::empty(),
            r@.meta == empty_metadata(),
    {
        Message { id: new_id(), time: now(), user, meta: Metadata::new(), msg: String::new() }
    }

    /// A fresh message by `user` with text `msg`, a new id and the current time.
    pub fn new_with_msg(user: User, msg: String) -> (r: Message)
        ensures
            r.user == user,
            r@.msg == msg@,
            r@.meta == empty_metadata(),
    {
        let mut new = Self::new(user);
        new.msg = msg;
        new
    }
}

} // verus!
