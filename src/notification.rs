//! Fan-out of store changes to listeners, each with a bounded queue.

use vstd::prelude::*;
use crate::models::{copy_messages, message_views, Message, MessageView, Thread, ThreadView};

verus! {

/// How many undelivered events one listener may hold; further events for it
/// are dropped until it drains its queue.
pub const LISTENER_CAPACITY: usize = 100;

/// A change of the conversation store, as handed to listeners.
#[derive(Debug)]
pub enum DatabaseNotifierMessage {
    NewMessage(Message),
    /// Text appended to the message being generated: the delta alone.
    UpdateMessage(String),
    NewThread(Thread),
    UpdateThread(Thread),
    GetThreadMessages(Vec<Message>),
}

/// What an event carries, as plain values.
pub enum EventView {
    NewMessage(MessageView),
    UpdateMessage(Seq<char>),
    NewThread(ThreadView),
    UpdateThread(ThreadView),
    GetThreadMessages(Seq<MessageView>),
}

impl View for DatabaseNotifierMessage {
    type V = EventView;

    open spec fn view(&self) -> EventView {
        match self {
            DatabaseNotifierMessage::NewMessage(m) => EventView::NewMessage(m@),
            DatabaseNotifierMessage::UpdateMessage(s) => EventView::UpdateMessage(s@),
            DatabaseNotifierMessage::NewThread(t) => EventView::NewThread(t@),
            DatabaseNotifierMessage::UpdateThread(t) => EventView::UpdateThread(t@),
            DatabaseNotifierMessage::GetThreadMessages(v) => EventView::GetThreadMessages(
                message_views(v@),
            ),
        }
    }
}

/// The views of a sequence of events.
pub open spec fn event_views(s: Seq<DatabaseNotifierMessage>) -> Seq<EventView> {
    s.map_values(|e: DatabaseNotifierMessage| e@)
}

impl Clone for DatabaseNotifierMessage {
    fn clone(&self) -> (r: Self)
        ensures
            r@ == self@,
    {
        match self {
            DatabaseNotifierMessage::NewMessage(m) => DatabaseNotifierMessage::NewMessage(m.clone()),
            DatabaseNotifierMessage::UpdateMessage(s) => DatabaseNotifierMessage::UpdateMessage(s.clone()),
            DatabaseNotifierMessage::NewThread(t) => DatabaseNotifierMessage::NewThread(t.clone()),
            DatabaseNotifierMessage::UpdateThread(t) => DatabaseNotifierMessage::UpdateThread(t.clone()),
            DatabaseNotifierMessage::GetThreadMessages(v) => {
                let c = copy_messages(v);
                DatabaseNotifierMessage::GetThreadMessages(c)
            },
        }
    }
}

/// The undelivered events of each listener ever attached, by listener id;
/// `None` for a listener that has been detached.
pub type Queues = Seq<Option<Seq<EventView>>>;

/// One listener's queue after `e` is published: appended while there is
/// room, dropped when full, nothing for a detached listener.
pub open spec fn offer(
    q: Option<Seq<EventView>>,
    e: EventView,
) -> Option<Seq<EventView>> {
    match q {
        Some(p) => if p.len() < LISTENER_CAPACITY {
            Some(p.push(e))
        } else {
            Some(p)
        },
        None => None,
    }
}

/// All queues after `e` is published.
pub open spec fn publish(qs: Queues, e: EventView) -> Queues {
    Seq::new(qs.len(), |i: int| offer(qs[i], e))
}

/// All queues after `es` are published, in order.
pub open spec fn publish_all(qs: Queues, es: Seq<EventView>) -> Queues
    decreases es.len(),
{
    if es.len() == 0 {
        qs
    } else {
        publish(publish_all(qs, es.drop_last()), es.last())
    }
}

/// Whether a queue takes the next published event.
pub open spec fn has_room(q: Option<Seq<EventView>>) -> bool {
    q matches Some(p) && p.len() < LISTENER_CAPACITY
}

/// Whether publishing reaches at least one listener.
pub open spec fn has_taker(qs: Queues) -> bool {
    exists|i: int| 0 <= i < qs.len() && #[trigger] has_room(qs[i])
}

proof fn lemma_publish_all_len(qs: Queues, es: Seq<EventView>)
    ensures
        publish_all(qs, es).len() == qs.len(),
    decreases es.len(),
{
    if es.len() > 0 {
        lemma_publish_all_len(qs, es.drop_last());
    }
}

/// A listener with room for a run of events holds them, after its earlier
/// ones, in publishing order.
proof fn lemma_queue_receives(qs: Queues, es: Seq<EventView>, i: int, p: Seq<EventView>)
    requires
        0 <= i < qs.len(),
        qs[i] == Some(p),
        p.len() + es.len() <= LISTENER_CAPACITY,
    ensures
        publish_all(qs, es)[i] == Some(p + es),
    decreases es.len(),
{
    if es.len() == 0 {
        assert(p + es =~= p);
    } else {
        let init = es.drop_last();
        lemma_queue_receives(qs, init, i, p);
        lemma_publish_all_len(qs, init);
        assert(p + init + seq![es.last()] =~= p + es);
    }
}

/// Every listener attached before a run of events and with room for it
/// receives each of those events, in the order they were published; a
/// listener attached in between receives exactly the events published after
/// it was attached.
pub proof fn lemma_fan_out(
    qs: Queues,
    before: Seq<EventView>,
    after: Seq<EventView>,
    i: int,
    p: Seq<EventView>,
)
    requires
        0 <= i < qs.len(),
        qs[i] == Some(p),
        p.len() + before.len() + after.len() <= LISTENER_CAPACITY,
    ensures
        publish_all(publish_all(qs, before).push(Some(Seq::empty())), after)[i] == Some(
            p + before + after,
        ),
        publish_all(publish_all(qs, before).push(Some(Seq::empty())), after)[qs.len() as int]
            == Some(after),
{
    lemma_queue_receives(qs, before, i, p);
    lemma_publish_all_len(qs, before);
    let mid = publish_all(qs, before).push(Some(Seq::empty()));
    lemma_queue_receives(mid, after, i, p + before);
    lemma_queue_receives(mid, after, qs.len() as int, Seq::empty());
    assert(Seq::<EventView>::empty() + after =~= after);
}

struct Listener {
    active: bool,
    pending: Vec<DatabaseNotifierMessage>,
}

/// Fans store changes out to any number of listeners, each with its own
/// bounded queue. Publishing never waits for a listener.
pub struct DatabaseNotifier {
    listeners: Vec<Listener>,
}

impl View for DatabaseNotifier {
    type V = Queues;

    closed spec fn view(&self) -> Queues {
        Seq::new(
            self.listeners@.len(),
            |i: int|
                if self.listeners@[i].active {
                    Some(event_views(self.listeners@[i].pending@))
                } else {
                    None
                },
        )
    }
}

impl DatabaseNotifier {
    pub closed spec fn wf(&self) -> bool {
        forall|i: int|
            0 <= i < self.listeners@.len() ==> (!self.listeners@[i].active
                ==> self.listeners@[i].pending@.len() == 0)
    }

    pub fn new() -> (r: DatabaseNotifier)
        ensures
            r.wf(),
            r@.len() == 0,
    {
        DatabaseNotifier { listeners: Vec::new() }
    }

    /// Publishes one event to every attached listener with room for it.
    /// Returns whether any listener took it; when none did, the event is
    /// dropped.
    pub fn notify(&mut self, message: DatabaseNotifierMessage) -> (r: bool)
        requires
            old(self).wf(),
        ensures
            final(self).wf(),
            final(self)@ == publish(old(self)@, message@),
            r == has_taker(old(self)@),
    {
        let ghost old_q = self@;
        let mut taken = false;
        let mut i: usize = 0;
        while i < self.listeners.len()
            invariant
                i <= self.listeners@.len(),
                self.wf(),
                self@.len() == old_q.len(),
                forall|k: int| 0 <= k < i ==> self@[k] == offer(old_q[k], message@),
                forall|k: int| i <= k < old_q.len() ==> self@[k] == old_q[k],
                taken == exists|k: int| 0 <= k < i && #[trigger] has_room(old_q[k]),
            decreases self.listeners@.len() - i,
        {
            assert(self@[i as int] == old_q[i as int]);
            let ghost before_all = self@;
            if self.listeners[i].active && self.listeners[i].pending.len() < LISTENER_CAPACITY {
                let c = message.clone();
                let mut l = Listener { active: true, pending: Vec::new() };
                self.listeners.set_and_swap(i, &mut l);
                let ghost before = l.pending@;
                l.pending.push(c);
                assert(event_views(l.pending@) =~= event_views(before).push(message@));
                self.listeners.set_and_swap(i, &mut l);
                taken = true;
                assert(has_room(old_q[i as int]));
            } else {
                assert(!has_room(old_q[i as int]));
            }
            assert(self@[i as int] == offer(old_q[i as int], message@));
            assert(forall|k: int| 0 <= k < self@.len() && k != i ==> self@[k] == before_all[k]);
            assert forall|k: int| 0 <= k < i + 1 implies self@[k] == offer(old_q[k], message@) by {
                if k < i {
                    assert(before_all[k] == offer(old_q[k], message@));
                }
            }
            i = i + 1;
        }
        assert(self@ =~= publish(old_q, message@));
        taken
    }

    /// Attaches a listener that receives every event published from now on.
    /// Returns its id.
    pub fn subscribe(&mut self) -> (r: usize)
        requires
            old(self).wf(),
        ensures
            final(self).wf(),
            r == old(self)@.len(),
            final(self)@ == old(self)@.push(Some(Seq::empty())),
    {
        let r = self.listeners.len();
        self.listeners.push(Listener { active: true, pending: Vec::new() });
        assert(event_views(Seq::<DatabaseNotifierMessage>::empty()) =~= Seq::empty());
        assert(self@ =~= old(self)@.push(Some(Seq::empty())));
        r
    }

    /// Detaches a listener; its undelivered events are discarded.
    pub fn unsubscribe(&mut self, id: usize)
        requires
            old(self).wf(),
        ensures
            final(self).wf(),
            id < old(self)@.len() ==> final(self)@ == old(self)@.update(id as int, None),
            id >= old(self)@.len() ==> final(self)@ == old(self)@,
    {
        if id < self.listeners.len() {
            self.listeners.set(id, Listener { active: false, pending: Vec::new() });
            assert(self@ =~= old(self)@.update(id as int, None));
        }
    }

    /// Hands a listener its undelivered events, oldest first, and empties its
    /// queue. A detached or unknown listener gets nothing.
    pub fn receive(&mut self, id: usize) -> (r: Vec<DatabaseNotifierMessage>)
        requires
            old(self).wf(),
        ensures
            final(self).wf(),
            match (if id < old(self)@.len() { old(self)@[id as int] } else { None }) {
                Some(p) => event_views(r@) == p && final(self)@ == old(self)@.update(
                    id as int,
                    Some(Seq::empty()),
                ),
                None => r@.len() == 0 && final(self)@ == old(self)@,
            },
    {
        if id < self.listeners.len() && self.listeners[id].active {
            let mut taken = Listener { active: true, pending: Vec::new() };
            self.listeners.set_and_swap(id, &mut taken);
            assert(event_views(Seq::<DatabaseNotifierMessage>::empty()) =~= Seq::empty());
            assert(self@ =~= old(self)@.update(id as int, Some(Seq::empty())));
            taken.pending
        } else {
            Vec::new()
        }
    }
}

} // verus!
