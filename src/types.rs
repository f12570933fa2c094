//! Roles, chat messages and the backend's request and response bodies.

use vstd::prelude::*;
use vstd::string::*;
use crate::text::same_text;

verus! {

/// The author of a chat message.
#[derive(Debug, Clone, Copy, PartialEq, Eq, Structural)]
pub enum Role {
    System,
    User,
    Assistant,
    Tool,
}

/// The literal text a role is stored and sent as.
pub open spec fn role_text(r: Role) -> Seq<char> {
    match r {
        Role::System => seq!['s', 'y', 's', 't', 'e', 'm'],
        Role::User => seq!['u', 's', 'e', 'r'],
        Role::Assistant => seq!['a', 's', 's', 'i', 's', 't', 'a', 'n', 't'],
        Role::Tool => seq!['t', 'o', 'o', 'l'],
    }
}

impl Role {
    /// The stored text of this role.
    pub fn as_str(&self) -> (r: &'static str)
        ensures
            r@ == role_text(*self),
    {
        proof {
            reveal_strlit("system");
            reveal_strlit("user");
            reveal_strlit("assistant");
            reveal_strlit("tool");
        }
        match self {
            Role::System => "system",
            Role::User => "user",
            Role::Assistant => "assistant",
            Role::Tool => "tool",
        }
    }

    /// Decodes a role read from the store; any text other than the four
    /// role names is a storage error.
    pub fn decode(text: &str) -> (r: Result<Role, crate::error::Error>)
        ensures
            match r {
                Ok(role) => role_text(role) == text@,
                Err(e) => e == crate::error::Error::Storage(crate::error::StorageError::UnknownRole)
                    && forall|role: Role| role_text(role) != text@,
            },
    {
        match Role::parse(text) {
            Some(role) => Ok(role),
            None => Err(crate::error::Error::Storage(crate::error::StorageError::UnknownRole)),
        }
    }

    /// Decodes a stored role; any text other than the four role names is
    /// refused.
    pub fn parse(text: &str) -> (r: Option<Role>)
        ensures
            match r {
                Some(role) => role_text(role) == text@,
                None => forall|role: Role| role_text(role) != text@,
            },
    {
        if same_text(text, Role::User.as_str()) {
            Some(Role::User)
        } else if same_text(text, Role::Assistant.as_str()) {
            Some(Role::Assistant)
        } else if same_text(text, Role::System.as_str()) {
            Some(Role::System)
        } else if same_text(text, Role::Tool.as_str()) {
            Some(Role::Tool)
        } else {
            None
        }
    }
}

} // verus!

verus! {

/// One chat message as exchanged with the backend.
#[derive(Debug)]
pub struct Message {
    pub role: Role,
    pub content: String,
}

impl Clone for Message {
    fn clone(&self) -> (r: Self)
        ensures
            r == *self,
    {
        Message { role: self.role, content: self.content.clone() }
    }
}

impl Message {
    pub fn new(role: Role, content: String) -> (r: Message)
        ensures
            r.role == role,
            r.content == content,
    {
        Message { role, content }
    }

    /// Appends the content of a part of the same role to this message. A part
    /// of another role is refused and leaves this message as it was.
    pub fn update(&mut self, other: &Self) -> (r: Result<(), crate::error::Error>)
        ensures
            old(self).role == other.role ==> {
                &&& r is Ok
                &&& final(self).role == old(self).role
                &&& final(self).content@ == old(self).content@ + other.content@
            },
            old(self).role != other.role ==> {
                &&& r == Err::<(), crate::error::Error>(crate::error::Error::RoleMismatch)
                &&& *final(self) == *old(self)
            },
    {
        if self.role != other.role {
            return Err(crate::error::Error::RoleMismatch);
        }
        self.content.append(other.content.as_str());
        Ok(())
    }
}

/// Body of a model pull request.
#[derive(Debug)]
pub struct PullModelRequest {
    pub model: String,
    pub insecure: bool,
    pub stream: bool,
}

impl PullModelRequest {
    /// A streamed, verified-transport pull of `model`.
    pub fn for_model(model: String) -> (r: PullModelRequest)
        ensures
            r.model == model,
            !r.insecure,
            r.stream,
    {
        PullModelRequest { model, insecure: false, stream: true }
    }
}

/// One progress line of a model pull.
#[derive(Debug)]
pub struct PullModelResponse {
    pub status: String,
    pub digest: Option<String>,
    pub total: Option<u64>,
    pub completed: Option<u64>,
}

/// The list of models the backend holds locally.
#[derive(Debug)]
pub struct ListModelResponse {
    pub models: Vec<ListModelSingleModelResponse>,
}

/// One locally held model.
#[derive(Debug)]
pub struct ListModelSingleModelResponse {
    pub name: String,
    pub modified_at: String,
    pub size: u64,
    pub digest: String,
    pub details: ModelDetails,
}

#[derive(Debug)]
pub struct ModelDetails {
    pub format: String,
    pub family: String,
    pub families: Option<Vec<String>>,
    pub parameter_size: String,
    pub quantization_level: String,
}

impl ListModelResponse {
    /// The model names, in the order the backend listed them.
    pub fn model_names(&self) -> (r: Vec<String>)
        ensures
            r@.len() == self.models@.len(),
            forall|i: int| 0 <= i < r@.len() ==> r@[i] == self.models@[i].name,
    {
        let mut names: Vec<String> = Vec::new();
        let mut i: usize = 0;
        while i < self.models.len()
            invariant
                i <= self.models@.len(),
                names@.len() == i,
                forall|k: int| 0 <= k < i ==> names@[k] == self.models@[k].name,
            decreases self.models@.len() - i,
        {
            names.push(self.models[i].name.clone());
            i = i + 1;
        }
        names
    }
}

/// Sampling options sent along with a chat request. The two fractions are
/// given in thousandths.
#[derive(Debug, Clone, Copy, PartialEq, Eq, Structural)]
pub struct ChatOptions {
    pub temperature_milli: u32,
    pub top_k: u64,
    pub top_p_milli: u32,
    pub seed: u64,
}

/// Body of a chat request.
#[derive(Debug)]
pub struct ChatRequest {
    pub model: String,
    pub messages: Vec<Message>,
    pub stream: bool,
    pub options: ChatOptions,
}

/// One streamed line of a chat answer.
#[derive(Debug)]
pub struct ChatResponse {
    pub model: String,
    pub created_at: String,
    pub message: Message,
    pub done: bool,
    pub total_duration: Option<u64>,
    pub load_duration: Option<u64>,
    pub prompt_eval_count: Option<u64>,
    pub prompt_eval_duration: Option<u64>,
    pub eval_count: Option<u64>,
    pub eval_duration: Option<u64>,
}

/// Answer of the liveness probe.
#[derive(Debug)]
pub struct VersionResponse {
    pub version: String,
}

} // verus!
