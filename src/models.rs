//! Stored threads and messages, and their views as plain values.

use vstd::prelude::*;
use crate::types::Role;

verus! {

/// A stored conversation thread. Timestamps are ticks of the store's own
/// clock, which grows with every write.
#[derive(Debug)]
pub struct Thread {
    pub id: i64,
    pub title: String,
    pub created_at: i64,
    pub last_updated_at: i64,
}

/// A stored message of a thread.
#[derive(Debug)]
pub struct Message {
    pub id: i64,
    pub thread_id: i64,
    pub created_at: i64,
    pub content: String,
    pub role: Role,
}

/// What a stored thread holds, as plain values.
pub struct ThreadView {
    pub id: i64,
    pub title: Seq<char>,
    pub created_at: i64,
    pub last_updated_at: i64,
}

/// What a stored message holds, as plain values.
pub struct MessageView {
    pub id: i64,
    pub thread_id: i64,
    pub created_at: i64,
    pub content: Seq<char>,
    pub role: Role,
}

impl View for Thread {
    type V = ThreadView;

    open spec fn view(&self) -> ThreadView {
        ThreadView {
            id: self.id,
            title: self.title@,
            created_at: self.created_at,
            last_updated_at: self.last_updated_at,
        }
    }
}

impl View for Message {
    type V = MessageView;

    open spec fn view(&self) -> MessageView {
        MessageView {
            id: self.id,
            thread_id: self.thread_id,
            created_at: self.created_at,
            content: self.content@,
            role: self.role,
        }
    }
}

impl Clone for Thread {
    fn clone(&self) -> (r: Self)
        ensures
            r == *self,
    {
        Thread {
            id: self.id,
            title: self.title.clone(),
            created_at: self.created_at,
            last_updated_at: self.last_updated_at,
        }
    }
}

impl Clone for Message {
    fn clone(&self) -> (r: Self)
        ensures
            r == *self,
    {
        Message {
            id: self.id,
            thread_id: self.thread_id,
            created_at: self.created_at,
            content: self.content.clone(),
            role: self.role,
        }
    }
}

/// The views of a sequence of stored messages.
pub open spec fn message_views(s: Seq<Message>) -> Seq<MessageView> {
    s.map_values(|m: Message| m@)
}

/// The views of a sequence of stored threads.
pub open spec fn thread_views(s: Seq<Thread>) -> Seq<ThreadView> {
    s.map_values(|t: Thread| t@)
}

/// Copies a list of stored messages.
pub fn copy_messages(v: &Vec<Message>) -> (r: Vec<Message>)
    ensures
        r@ == v@,
{
    let mut out: Vec<Message> = Vec::new();
    let mut i: usize = 0;
    while i < v.len()
        invariant
            i <= v@.len(),
            out@ == v@.subrange(0, i as int),
        decreases v@.len() - i,
    {
        out.push(v[i].clone());
        i = i + 1;
    }
    assert(out@ =~= v@);
    out
}

} // verus!
