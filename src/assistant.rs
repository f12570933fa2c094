//! The conversation orchestrator: generation settings, the requests it
//! sends, and the rules that turn streamed chunks into store writes.

use vstd::prelude::*;
use vstd::string::*;
use crate::database::{append_message, has_thread, move_front, Database};
use crate::error::Error;
use crate::models::{message_views, Message as StoredMessage, MessageView, ThreadView};
use crate::prompts::THREAD_TITLE_PROMPT;
use crate::text::{
    lemma_without_newlines_clean, lemma_without_think, no_newline_char, occurs, remove_newlines,
    remove_think_tags, think_close, think_open, without_newlines, without_think,
};
use crate::types::{ChatOptions, ChatRequest, ChatResponse, Message, Role};

verus! {

/// Largest value of a fraction given in thousandths.
pub const MILLI_ONE: u32 = 1000;

/// Largest number of candidate tokens the sampler may keep.
pub const TOP_K_MAX: u64 = 100;

/// Generation settings. Temperature and top-p are fractions in [0, 1],
/// given in thousandths.
#[derive(Debug)]
pub struct AssistantParameters {
    pub model: Option<String>,
    pub temperature_milli: u32,
    pub top_k: u64,
    pub top_p_milli: u32,
    pub seed: u64,
}

impl AssistantParameters {
    /// Settings within their ranges.
    pub open spec fn in_range(&self) -> bool {
        self.temperature_milli <= MILLI_ONE && self.top_k <= TOP_K_MAX && self.top_p_milli
            <= MILLI_ONE
    }

    /// The sampling settings that a reset restores.
    pub open spec fn has_default_sampling(&self) -> bool {
        &&& self.temperature_milli == 500
        &&& self.top_k == 40
        &&& self.top_p_milli == 900
        &&& self.seed == 42
    }
}

impl Default for AssistantParameters {
    fn default() -> (r: Self)
        ensures
            r.model is None,
            r.has_default_sampling(),
    {
        AssistantParameters {
            model: None,
            temperature_milli: 500,
            top_k: 40,
            top_p_milli: 900,
            seed: 42,
        }
    }
}

/// The roles of a sequence of stored messages.
pub open spec fn roles_of(s: Seq<MessageView>) -> Seq<Role> {
    s.map_values(|m: MessageView| m.role)
}

/// How many entries of `s` are `r`.
pub open spec fn count_role(s: Seq<Role>, r: Role) -> nat
    decreases s.len(),
{
    if s.len() == 0 {
        0
    } else {
        count_role(s.drop_last(), r) + if s.last() == r {
            1nat
        } else {
            0nat
        }
    }
}

/// A thread is due for a title exactly when its first exchange is complete:
/// one user message and one assistant message.
pub open spec fn title_due(roles: Seq<Role>) -> bool {
    count_role(roles, Role::User) == 1 && count_role(roles, Role::Assistant) == 1
}

/// The chat messages a stored history is sent as.
pub open spec fn as_chat(s: Seq<MessageView>) -> Seq<(Role, Seq<char>)> {
    s.map_values(|m: MessageView| (m.role, m.content))
}

/// The role and content of each chat message.
pub open spec fn chat_view(s: Seq<Message>) -> Seq<(Role, Seq<char>)> {
    s.map_values(|m: Message| (m.role, m.content@))
}

/// The query sent to name a thread after the user's first message.
pub open spec fn title_query(content: Seq<char>) -> Seq<char> {
    seq!['<', 'q', 'u', 'e', 'r', 'y', '>'] + content + seq![
        '<',
        '/',
        'q',
        'u',
        'e',
        'r',
        'y',
        '>',
    ]
}

/// A thread title made from a model's answer: line breaks and every
/// reasoning trace removed.
pub open spec fn clean_title(raw: Seq<char>) -> Seq<char> {
    without_think(without_newlines(raw))
}

/// A cleaned title holds no reasoning-trace marker and no line break.
pub proof fn lemma_clean_title(raw: Seq<char>)
    ensures
        !occurs(clean_title(raw), think_open()),
        !occurs(clean_title(raw), think_close()),
        no_newline_char(clean_title(raw)),
{
    lemma_without_newlines_clean(raw);
    lemma_without_think(without_newlines(raw));
}

proof fn lemma_count_add(s: Seq<Role>, t: Seq<Role>, r: Role)
    ensures
        count_role(s + t, r) == count_role(s, r) + count_role(t, r),
    decreases t.len(),
{
    if t.len() == 0 {
        assert(s + t =~= s);
    } else {
        lemma_count_add(s, t.drop_last(), r);
        assert((s + t).drop_last() =~= s + t.drop_last());
    }
}

proof fn lemma_count_exchange(t: Seq<Role>)
    requires
        forall|k: int| 0 <= k < t.len() ==> #[trigger] t[k] == Role::User || t[k] == Role::Assistant,
    ensures
        count_role(t, Role::User) + count_role(t, Role::Assistant) == t.len(),
    decreases t.len(),
{
    if t.len() > 0 {
        lemma_count_exchange(t.drop_last());
    }
}

/// Title generation runs once per thread: once the first exchange is
/// complete, adding any further user or assistant messages never makes the
/// thread due again.
pub proof fn lemma_title_once(roles: Seq<Role>, more: Seq<Role>)
    requires
        title_due(roles),
        more.len() > 0,
        forall|k: int|
            0 <= k < more.len() ==> #[trigger] more[k] == Role::User || more[k] == Role::Assistant,
    ensures
        !title_due(roles + more),
{
    lemma_count_add(roles, more, Role::User);
    lemma_count_add(roles, more, Role::Assistant);
    lemma_count_exchange(more);
}

/// Whether a thread's history is due for a title.
pub fn needs_title(history: &Vec<StoredMessage>) -> (r: bool)
    ensures
        r == title_due(roles_of(message_views(history@))),
{
    let ghost roles = roles_of(message_views(history@));
    let mut users: usize = 0;
    let mut assistants: usize = 0;
    let mut i: usize = 0;
    while i < history.len()
        invariant
            i <= history@.len(),
            roles == roles_of(message_views(history@)),
            users == count_role(roles.subrange(0, i as int), Role::User),
            assistants == count_role(roles.subrange(0, i as int), Role::Assistant),
            users <= i,
            assistants <= i,
        decreases history@.len() - i,
    {
        assert(roles.subrange(0, i + 1).drop_last() =~= roles.subrange(0, i as int));
        match history[i].role {
            Role::User => {
                users = users + 1;
            },
            Role::Assistant => {
                assistants = assistants + 1;
            },
            _ => {},
        }
        i = i + 1;
    }
    assert(roles.subrange(0, i as int) =~= roles);
    users == 1 && assistants == 1
}

/// Converts stored messages to the chat messages sent to the backend.
pub fn to_chat_messages(history: &Vec<StoredMessage>) -> (r: Vec<Message>)
    ensures
        chat_view(r@) == as_chat(message_views(history@)),
{
    let mut out: Vec<Message> = Vec::new();
    let mut i: usize = 0;
    while i < history.len()
        invariant
            i <= history@.len(),
            out@.len() == i,
            forall|k: int|
                0 <= k < i ==> #[trigger] out@[k].role == history@[k].role && out@[k].content@
                    == history@[k].content@,
        decreases history@.len() - i,
    {
        out.push(Message::new(history[i].role, history[i].content.clone()));
        i = i + 1;
    }
    assert(chat_view(out@) =~= as_chat(message_views(history@)));
    out
}

/// The conversation orchestrator: owns the generation settings and turns
/// user input and streamed chunks into store writes.
#[derive(Debug)]
pub struct Assistant {
    parameters: AssistantParameters,
}

impl Assistant {
    /// The current settings.
    pub closed spec fn params(&self) -> AssistantParameters {
        self.parameters
    }

    pub open spec fn wf(&self) -> bool {
        self.params().in_range()
    }

    /// An orchestrator with default settings and no model selected.
    pub fn new() -> (r: Assistant)
        ensures
            r.wf(),
            r.params().model is None,
            r.params().has_default_sampling(),
    {
        Assistant { parameters: AssistantParameters::default() }
    }

    /// The current settings.
    pub fn parameters(&self) -> (r: &AssistantParameters)
        ensures
            *r == self.params(),
    {
        &self.parameters
    }

    pub fn set_model(&mut self, model: String)
        requires
            old(self).wf(),
        ensures
            final(self).wf(),
            final(self).params() == (AssistantParameters { model: Some(model), ..old(self).params() }),
    {
        self.parameters.model = Some(model);
    }

    pub fn set_temperature(&mut self, value: u32)
        requires
            old(self).wf(),
            value <= MILLI_ONE,
        ensures
            final(self).wf(),
            final(self).params() == (AssistantParameters {
                temperature_milli: value,
                ..old(self).params()
            }),
    {
        self.parameters.temperature_milli = value;
    }

    pub fn set_top_k(&mut self, value: u64)
        requires
            old(self).wf(),
            value <= TOP_K_MAX,
        ensures
            final(self).wf(),
            final(self).params() == (AssistantParameters { top_k: value, ..old(self).params() }),
    {
        self.parameters.top_k = value;
    }

    pub fn set_top_p(&mut self, value: u32)
        requires
            old(self).wf(),
            value <= MILLI_ONE,
        ensures
            final(self).wf(),
            final(self).params() == (AssistantParameters { top_p_milli: value, ..old(self).params() }),
    {
        self.parameters.top_p_milli = value;
    }

    /// Restores the default sampling settings; the selected model stays.
    pub fn reset_parameters(&mut self)
        requires
            old(self).wf(),
        ensures
            final(self).wf(),
            final(self).params().model == old(self).params().model,
            final(self).params().has_default_sampling(),
    {
        let model = self.parameters.model.take();
        self.parameters = AssistantParameters { model, ..AssistantParameters::default() };
    }

    /// The sampling options sent with each chat request.
    pub fn options(&self) -> (r: ChatOptions)
        ensures
            r.temperature_milli == self.params().temperature_milli,
            r.top_k == self.params().top_k,
            r.top_p_milli == self.params().top_p_milli,
            r.seed == self.params().seed,
    {
        ChatOptions {
            temperature_milli: self.parameters.temperature_milli,
            top_k: self.parameters.top_k,
            top_p_milli: self.parameters.top_p_milli,
            seed: self.parameters.seed,
        }
    }

    /// The streamed chat request for `messages` with the selected model and
    /// the current settings; refused while no model is selected.
    pub fn generate_answer(&self, messages: Vec<Message>) -> (r: Result<ChatRequest, Error>)
        ensures
            self.params().model is None ==> r == Err::<ChatRequest, Error>(Error::ModelNotSelected),
            self.params().model matches Some(m) ==> (r matches Ok(req) && req.model == m
                && req.messages == messages && req.stream && req.options == (ChatOptions {
                temperature_milli: self.params().temperature_milli,
                top_k: self.params().top_k,
                top_p_milli: self.params().top_p_milli,
                seed: self.params().seed,
            })),
    {
        match &self.parameters.model {
            Some(m) => Ok(
                ChatRequest { model: m.clone(), messages, stream: true, options: self.options() },
            ),
            None => Err(Error::ModelNotSelected),
        }
    }

    /// The request that names a thread after the user's message: the
    /// summarisation instruction, then the message wrapped in query tags.
    pub fn generate_thread_title(&self, message: &Message) -> (r: Result<ChatRequest, Error>)
        ensures
            self.params().model is None ==> r == Err::<ChatRequest, Error>(Error::ModelNotSelected),
            self.params().model matches Some(m) ==> (r matches Ok(req) && req.model == m
                && req.stream && req.options == (ChatOptions {
                temperature_milli: self.params().temperature_milli,
                top_k: self.params().top_k,
                top_p_milli: self.params().top_p_milli,
                seed: self.params().seed,
            }) && chat_view(req.messages@) == seq![
                (Role::System, THREAD_TITLE_PROMPT@),
                (Role::User, title_query(message.content@)),
            ]),
    {
        proof {
            reveal_strlit("<query>");
            reveal_strlit("</query>");
        }
        let system = Message::new(Role::System, String::from_str(THREAD_TITLE_PROMPT));
        let query = String::from_str("<query>").concat(message.content.as_str()).concat(
            "</query>",
        );
        assert(query@ =~= title_query(message.content@));
        let mut messages: Vec<Message> = Vec::new();
        messages.push(system);
        messages.push(Message::new(Role::User, query));
        let r = self.generate_answer(messages);
        assert(chat_view(messages@) =~= seq![
            (Role::System, THREAD_TITLE_PROMPT@),
            (Role::User, title_query(message.content@)),
        ]);
        r
    }
}

/// The empty assistant message that `begin_answer` adds to a thread.
pub open spec fn placeholder(id: i64, thread_id: i64, at: i64) -> MessageView {
    MessageView { id, thread_id, created_at: at, content: Seq::empty(), role: Role::Assistant }
}

impl Assistant {
    /// Starts an answer in a thread: reads its history, then adds an empty
    /// assistant message (so listeners see the answer coming before any
    /// token), and returns that message's id with the chat request for the
    /// history as it was before. Refused while no model is selected.
    pub fn begin_answer(&self, db: &mut Database, thread_id: i64) -> (r: Result<
        (i64, ChatRequest),
        Error,
    >)
        requires
            old(db).wf(),
        ensures
            final(db).wf(),
            r is Err ==> final(db)@ == old(db)@ && final(db).events() == old(db).events(),
            self.params().model is None ==> r == Err::<(i64, ChatRequest), Error>(
                Error::ModelNotSelected,
            ),
            self.params().model is Some && !has_thread(old(db)@, thread_id) ==> r == Err::<
                (i64, ChatRequest),
                Error,
            >(Error::Storage(crate::error::StorageError::ThreadNotFound(thread_id))),
            self.params().model is Some && has_thread(old(db)@, thread_id) && old(db).clock()
                < i64::MAX && old(db).next_message_id() < i64::MAX ==> r is Ok,
            r matches Ok((id, req)) ==> {
                &&& id == old(db).next_message_id()
                &&& self.params().model == Some(req.model)
                &&& req.stream
                &&& req.options == self.options_spec()
                &&& exists|i: int|
                    0 <= i < old(db)@.len() && #[trigger] old(db)@[i].0.id == thread_id && {
                        let at = (old(db).clock() + 1) as i64;
                        &&& chat_view(req.messages@) == as_chat(old(db)@[i].1)
                        &&& final(db).events() == crate::notification::publish(
                            old(db).events(),
                            crate::notification::EventView::NewMessage(
                                placeholder(id, thread_id, at),
                            ),
                        )
                        &&& final(db)@ == move_front(
                            old(db)@,
                            i,
                            (
                                ThreadView { last_updated_at: at, ..old(db)@[i].0 },
                                old(db)@[i].1.push(placeholder(id, thread_id, at)),
                            ),
                        )
                    }
            },
    {
        if self.parameters.model.is_none() {
            return Err(Error::ModelNotSelected);
        }
        let history = match db.thread_history(thread_id) {
            Some(h) => h,
            None => {
                return Err(Error::Storage(crate::error::StorageError::ThreadNotFound(thread_id)));
            },
        };
        let ghost old_v = db@;
        proof {
            crate::database::lemma_thread_ids_unique(db);
        }
        let messages = to_chat_messages(&history);
        let created = db.create_message(thread_id, String::new(), Role::Assistant);
        let placeholder_msg = match created {
            Ok(m) => m,
            Err(e) => {
                return Err(e);
            },
        };
        let request = match self.generate_answer(messages) {
            Ok(req) => req,
            Err(e) => {
                return Err(e);
            },
        };
        proof {
            let i = choose|i: int| 0 <= i < old_v.len() && #[trigger] old_v[i].0.id == thread_id
                && message_views(history@) == old_v[i].1;
            assert(placeholder_msg@ == placeholder(
                placeholder_msg.id,
                thread_id,
                (old(db).clock() + 1) as i64,
            ));
            let j = choose|j: int| 0 <= j < old_v.len() && #[trigger] old_v[j].0.id == thread_id
                && db@ == move_front(
                old_v,
                j,
                (
                    ThreadView { last_updated_at: (old(db).clock() + 1) as i64, ..old_v[j].0 },
                    old_v[j].1.push(placeholder_msg@),
                ),
            );
            assert(i == j);
        }
        Ok((placeholder_msg.id, request))
    }

    /// The sampling options as plain values.
    pub open spec fn options_spec(&self) -> ChatOptions {
        ChatOptions {
            temperature_milli: self.params().temperature_milli,
            top_k: self.params().top_k,
            top_p_milli: self.params().top_p_milli,
            seed: self.params().seed,
        }
    }
}

/// Names a thread from a model's raw answer: the reasoning trace and line
/// breaks are removed and the rest becomes the title.
pub fn finish_title(db: &mut Database, thread_id: i64, raw: &str) -> (r: Result<(), Error>)
    requires
        old(db).wf(),
    ensures
        final(db).wf(),
        !has_thread(old(db)@, thread_id) ==> r == Err::<(), Error>(
            Error::Storage(crate::error::StorageError::ThreadNotFound(thread_id)),
        ),
        has_thread(old(db)@, thread_id) && old(db).clock() < i64::MAX ==> r is Ok,
        r is Err ==> final(db)@ == old(db)@ && final(db).events() == old(db).events(),
        !occurs(clean_title(raw@), think_open()) && !occurs(clean_title(raw@), think_close())
            && no_newline_char(clean_title(raw@)),
        r is Ok ==> exists|i: int|
            0 <= i < old(db)@.len() && #[trigger] old(db)@[i].0.id == thread_id && {
                let t = ThreadView {
                    title: clean_title(raw@),
                    last_updated_at: (old(db).clock() + 1) as i64,
                    ..old(db)@[i].0
                };
                &&& final(db)@ == move_front(old(db)@, i, (t, old(db)@[i].1))
                &&& final(db).events() == crate::notification::publish(
                    old(db).events(),
                    crate::notification::EventView::UpdateThread(t),
                )
            },
{
    let joined = remove_newlines(raw);
    let title = remove_think_tags(joined.as_str());
    proof {
        lemma_clean_title(raw@);
    }
    db.update_thread_title(thread_id, title)
}

proof fn lemma_count_positive(s: Seq<Role>, r: Role)
    requires
        count_role(s, r) > 0,
    ensures
        exists|k: int| 0 <= k < s.len() && s[k] == r,
    decreases s.len(),
{
    if s.last() != r {
        lemma_count_positive(s.drop_last(), r);
        let k = choose|k: int| 0 <= k < s.drop_last().len() && s.drop_last()[k] == r;
        assert(s[k] == r);
    } else {
        assert(s[s.len() - 1] == r);
    }
}

impl Assistant {
    /// The request that names a thread, made from its user message, when its
    /// history has just completed the first exchange; `None` otherwise.
    pub fn title_request(&self, history: &Vec<StoredMessage>) -> (r: Option<Result<ChatRequest, Error>>)
        ensures
            !title_due(roles_of(message_views(history@))) ==> r is None,
            title_due(roles_of(message_views(history@))) ==> exists|k: int|
                0 <= k < history@.len() && #[trigger] history@[k].role == Role::User && {
                    &&& self.params().model is None ==> r == Some(
                        Err::<ChatRequest, Error>(Error::ModelNotSelected),
                    )
                    &&& self.params().model matches Some(m) ==> (r matches Some(Ok(req))
                        && req.model == m && req.stream && req.options == self.options_spec()
                        && chat_view(req.messages@) == seq![
                        (Role::System, THREAD_TITLE_PROMPT@),
                        (Role::User, title_query(history@[k].content@)),
                    ])
                },
    {
        if !needs_title(history) {
            return None;
        }
        let ghost roles = roles_of(message_views(history@));
        proof {
            lemma_count_positive(roles, Role::User);
        }
        let mut i: usize = 0;
        while i < history.len()
            invariant
                i <= history@.len(),
                roles == roles_of(message_views(history@)),
                title_due(roles),
                exists|k: int| i <= k < history@.len() && roles[k] == Role::User,
            decreases history@.len() - i,
        {
            if history[i].role == Role::User {
                let message = Message::new(Role::User, history[i].content.clone());
                return Some(self.generate_thread_title(&message));
            }
            i = i + 1;
        }
        None
    }
}

/// Progress of a model pull.
#[derive(Debug, Clone, Copy, PartialEq, Eq, Structural)]
pub enum PullState {
    Running,
    Succeeded,
    Failed(Error),
}

/// One thing that happens while a model is pulled.
#[derive(Debug)]
pub enum PullEvent {
    /// A progress line arrived.
    Progress(crate::types::PullModelResponse),
    /// The request or a line failed.
    Failed(Error),
    /// The backend closed the stream.
    Finished,
}

/// The decisions of one model pull: counts progress lines, stops at the
/// first failure, succeeds when the stream ends without one.
#[derive(Debug)]
pub struct ModelPull {
    pub model: String,
    pub progress: u64,
    pub state: PullState,
}

impl ModelPull {
    pub fn new(model: String) -> (r: ModelPull)
        ensures
            r.model == model,
            r.progress == 0,
            r.state == PullState::Running,
    {
        ModelPull { model, progress: 0, state: PullState::Running }
    }

    /// Takes one event; a finished pull ignores further events.
    pub fn on_event(&mut self, event: PullEvent)
        ensures
            final(self).model == old(self).model,
            old(self).state != PullState::Running ==> *final(self) == *old(self),
            old(self).state == PullState::Running ==> match event {
                PullEvent::Progress(_) => final(self).state == PullState::Running
                    && final(self).progress == if old(self).progress < u64::MAX {
                    (old(self).progress + 1) as u64
                } else {
                    old(self).progress
                },
                PullEvent::Failed(e) => final(self).state == PullState::Failed(e)
                    && final(self).progress == old(self).progress,
                PullEvent::Finished => final(self).state == PullState::Succeeded
                    && final(self).progress == old(self).progress,
            },
    {
        if self.state != PullState::Running {
            return;
        }
        match event {
            PullEvent::Progress(_) => {
                if self.progress < u64::MAX {
                    self.progress = self.progress + 1;
                }
            },
            PullEvent::Failed(e) => {
                self.state = PullState::Failed(e);
            },
            PullEvent::Finished => {
                self.state = PullState::Succeeded;
            },
        }
    }
}

impl Assistant {
    /// Ends a model pull: on success the pulled model becomes the selected
    /// one; on failure the selection stays as it was and the failure is
    /// returned.
    pub fn pull_model(&mut self, pull: ModelPull) -> (r: Result<(), Error>)
        requires
            old(self).wf(),
            pull.state != PullState::Running,
        ensures
            final(self).wf(),
            pull.state == PullState::Succeeded ==> r is Ok && final(self).params() == (
            AssistantParameters { model: Some(pull.model), ..old(self).params() }),
            pull.state matches PullState::Failed(e) ==> r == Err::<(), Error>(e)
                && final(self).params() == old(self).params(),
    {
        match pull.state {
            PullState::Failed(e) => Err(e),
            _ => {
                self.set_model(pull.model);
                Ok(())
            },
        }
    }
}

/// Where the answer being generated stands.
#[derive(Debug, Clone, Copy, PartialEq, Eq, Structural)]
pub enum AnswerState {
    Streaming,
    Done,
    Failed(Error),
}

/// One thing that happens while an answer streams in.
#[derive(Debug)]
pub enum AnswerEvent {
    /// A line of the answer was decoded.
    Chunk(ChatResponse),
    /// The connection or a line failed.
    Failed(Error),
    /// The backend closed the stream.
    Ended,
}

/// The answer being generated into one assistant message. Text is appended
/// in the order chunks arrive; the final chunk, or the end of the stream,
/// completes it; a failure stops it and keeps what was already stored.
#[derive(Debug)]
pub struct Answer {
    pub message_id: i64,
    pub state: AnswerState,
}

impl Answer {
    pub fn new(message_id: i64) -> (r: Answer)
        ensures
            r.message_id == message_id,
            r.state == AnswerState::Streaming,
    {
        Answer { message_id, state: AnswerState::Streaming }
    }

    /// Takes one event; a finished answer ignores further events and leaves
    /// the store alone. Returns the text appended to the answer message, if
    /// any.
    pub fn on_event(&mut self, db: &mut Database, event: AnswerEvent) -> (r: Option<String>)
        requires
            old(db).wf(),
        ensures
            final(db).wf(),
            final(self).message_id == old(self).message_id,
            text_of(r) == if old(self).state == AnswerState::Streaming {
                event_delta(event)
            } else {
                None
            },
            old(self).state != AnswerState::Streaming ==> *final(self) == *old(self) && final(db)@
                == old(db)@ && final(db).events() == old(db).events(),
            old(self).state == AnswerState::Streaming ==> final(self).state == next_answer_state(
                event,
            ),
            old(self).state == AnswerState::Streaming ==> match event_delta(event) {
                None => final(db)@ == old(db)@ && final(db).events() == old(db).events(),
                Some(d) => final(db)@ == append_message(old(db)@, old(self).message_id, d)
                    && final(db).events() == crate::notification::publish(
                    old(db).events(),
                    crate::notification::EventView::UpdateMessage(d),
                ),
            },
    {
        if self.state != AnswerState::Streaming {
            return None;
        }
        match event {
            AnswerEvent::Chunk(c) => {
                if c.done {
                    self.state = AnswerState::Done;
                    None
                } else if c.message.content.as_str().unicode_len() == 0 {
                    None
                } else {
                    let delta = c.message.content.clone();
                    db.update_message(self.message_id, c.message.content);
                    Some(delta)
                }
            },
            AnswerEvent::Failed(e) => {
                self.state = AnswerState::Failed(e);
                None
            },
            AnswerEvent::Ended => {
                self.state = AnswerState::Done;
                None
            },
        }
    }
}

/// The text of an optional string.
pub open spec fn text_of(r: Option<String>) -> Option<Seq<char>> {
    match r {
        Some(s) => Some(s@),
        None => None,
    }
}

/// The text a streamed event adds to the answer: the content of a chunk
/// that is not the final one, when it has any.
pub open spec fn event_delta(event: AnswerEvent) -> Option<Seq<char>> {
    match event {
        AnswerEvent::Chunk(c) => if !c.done && c.message.content@.len() > 0 {
            Some(c.message.content@)
        } else {
            None
        },
        _ => None,
    }
}

/// Where a streaming answer stands after an event.
pub open spec fn next_answer_state(event: AnswerEvent) -> AnswerState {
    match event {
        AnswerEvent::Chunk(c) => if c.done {
            AnswerState::Done
        } else {
            AnswerState::Streaming
        },
        AnswerEvent::Failed(e) => AnswerState::Failed(e),
        AnswerEvent::Ended => AnswerState::Done,
    }
}

/// The state and text of an answer after a run of events, in order; a
/// finished answer takes no more.
pub open spec fn answer_after(
    start: (AnswerState, Seq<char>),
    events: Seq<AnswerEvent>,
) -> (AnswerState, Seq<char>)
    decreases events.len(),
{
    if events.len() == 0 {
        start
    } else {
        let before = answer_after(start, events.drop_last());
        if before.0 == AnswerState::Streaming {
            (
                next_answer_state(events.last()),
                before.1 + match event_delta(events.last()) {
                    Some(d) => d,
                    None => Seq::empty(),
                },
            )
        } else {
            before
        }
    }
}

/// The text of a run of chunks: each chunk's content, in order.
pub open spec fn chunks_text(chunks: Seq<ChatResponse>) -> Seq<char>
    decreases chunks.len(),
{
    if chunks.len() == 0 {
        Seq::empty()
    } else {
        chunks_text(chunks.drop_last()) + chunks.last().message.content@
    }
}

/// A streamed answer is the in-order concatenation of its chunks: after a
/// run of chunks that are not final, the answer is still streaming and its
/// text is the text it had followed by every chunk's content, in the order
/// the chunks arrived; nothing is lost, repeated or reordered.
pub proof fn lemma_answer_concatenates(text: Seq<char>, chunks: Seq<ChatResponse>)
    requires
        forall|k: int| 0 <= k < chunks.len() ==> !(#[trigger] chunks[k]).done,
    ensures
        answer_after(
            (AnswerState::Streaming, text),
            chunks.map_values(|c: ChatResponse| AnswerEvent::Chunk(c)),
        ) == (AnswerState::Streaming, text + chunks_text(chunks)),
    decreases chunks.len(),
{
    let events = chunks.map_values(|c: ChatResponse| AnswerEvent::Chunk(c));
    if chunks.len() == 0 {
        assert(text + Seq::<char>::empty() =~= text);
    } else {
        let init = chunks.drop_last();
        assert(events.drop_last() =~= init.map_values(|c: ChatResponse| AnswerEvent::Chunk(c)));
        lemma_answer_concatenates(text, init);
        let c = chunks.last();
        assert(events.last() == AnswerEvent::Chunk(c));
        if c.message.content@.len() == 0 {
            assert(c.message.content@ =~= Seq::<char>::empty());
        }
        assert(text + chunks_text(init) + c.message.content@ =~= text + (chunks_text(init)
            + c.message.content@));
    }
}

proof fn lemma_answer_one(start: (AnswerState, Seq<char>), e: AnswerEvent)
    ensures
        answer_after(start, seq![e]) == if start.0 == AnswerState::Streaming {
            (
                next_answer_state(e),
                start.1 + match event_delta(e) {
                    Some(d) => d,
                    None => Seq::empty(),
                },
            )
        } else {
            start
        },
{
    assert(seq![e].drop_last() =~= Seq::<AnswerEvent>::empty());
    assert(seq![e].last() == e);
    assert(answer_after(start, Seq::<AnswerEvent>::empty()) == start);
}

/// The answer that names a thread, gathered as it streams in; it is not
/// stored.
#[derive(Debug)]
pub struct TitleDraft {
    pub text: String,
    pub state: AnswerState,
}

impl TitleDraft {
    pub fn new() -> (r: TitleDraft)
        ensures
            r.text@.len() == 0,
            r.state == AnswerState::Streaming,
    {
        TitleDraft { text: String::new(), state: AnswerState::Streaming }
    }

    /// Takes one event, as `Answer::on_event` does, gathering the text
    /// instead of storing it.
    pub fn on_event(&mut self, event: AnswerEvent)
        ensures
            (final(self).state, final(self).text@) == answer_after(
                (old(self).state, old(self).text@),
                seq![event],
            ),
    {
        proof {
            lemma_answer_one((self.state, self.text@), event);
        }
        if self.state != AnswerState::Streaming {
            return;
        }
        match event {
            AnswerEvent::Chunk(c) => {
                if c.done {
                    self.state = AnswerState::Done;
                    assert(self.text@ =~= old(self).text@ + Seq::<char>::empty());
                } else if c.message.content.as_str().unicode_len() == 0 {
                    assert(self.text@ =~= old(self).text@ + Seq::<char>::empty());
                } else {
                    self.text.append(c.message.content.as_str());
                }
            },
            AnswerEvent::Failed(e) => {
                self.state = AnswerState::Failed(e);
                assert(self.text@ =~= old(self).text@ + Seq::<char>::empty());
            },
            AnswerEvent::Ended => {
                self.state = AnswerState::Done;
                assert(self.text@ =~= old(self).text@ + Seq::<char>::empty());
            },
        }
    }
}

} // verus!
