//! The conversation store: threads and their messages, kept under the
//! store's invariant, with every change reported to listeners.

use vstd::prelude::*;
use vstd::string::*;
use crate::error::{Error, StorageError};
use crate::models::{copy_messages, message_views, thread_views, Message, MessageView, Thread, ThreadView};
use crate::notification::{event_views, publish, Queues, DatabaseNotifier, DatabaseNotifierMessage, EventView};
use crate::prompts::ASSISTANT_SYSTEM_PROMPT;
use crate::types::Role;

verus! {

/// Number of schema steps a fully migrated store has applied.
pub const SCHEMA_VERSION: u64 = 2;

/// The store's contents: each thread with its messages in creation order,
/// threads most recently updated first.
pub type StoreView = Seq<(ThreadView, Seq<MessageView>)>;

/// Whether a thread with `id` is stored.
pub open spec fn has_thread(v: StoreView, id: i64) -> bool {
    exists|i: int| 0 <= i < v.len() && #[trigger] v[i].0.id == id
}

/// The store after the thread at `i` is replaced by `x` and moved to the
/// front.
pub open spec fn move_front(
    v: StoreView,
    i: int,
    x: (ThreadView, Seq<MessageView>),
) -> StoreView {
    seq![x] + v.subrange(0, i) + v.subrange(i + 1, v.len() as int)
}

/// A message after `delta` is appended to it when its id is `id`.
pub open spec fn append_to(m: MessageView, id: i64, delta: Seq<char>) -> MessageView {
    if m.id == id {
        MessageView { content: m.content + delta, ..m }
    } else {
        m
    }
}

/// The store after `delta` is appended to the message with id `id`; every
/// other message, and every role, stays as it was.
pub open spec fn append_message(v: StoreView, id: i64, delta: Seq<char>) -> StoreView {
    Seq::new(
        v.len(),
        |i: int| (v[i].0, Seq::new(v[i].1.len(), |j: int| append_to(v[i].1[j], id, delta))),
    )
}

/// The message that opens every thread.
pub open spec fn system_message(id: i64, thread_id: i64, at: i64) -> MessageView {
    MessageView {
        id,
        thread_id,
        created_at: at,
        content: ASSISTANT_SYSTEM_PROMPT@,
        role: Role::System,
    }
}

/// What a well-kept store holds: unique thread ids below the next one,
/// threads ordered by last update (newest first, none later than the
/// clock), and in each thread a first message of role system, all its
/// messages pointing back at it, in creation order (ids ascending, stamps
/// not decreasing, none later than the clock), with ids below the next
/// message id and never shared with another thread.
pub open spec fn store_invariant(v: StoreView, next_thread: i64, next_message: i64, clock: i64) -> bool {
    &&& next_thread >= 1
    &&& next_message >= 1
    &&& clock >= 0
    &&& forall|i: int| 0 <= i < v.len() ==> 0 < #[trigger] v[i].0.id < next_thread
    &&& forall|i: int| 0 <= i < v.len() ==> #[trigger] v[i].0.last_updated_at <= clock
    &&& forall|i: int, j: int| 0 <= i < j < v.len() ==> #[trigger] v[i].0.id != #[trigger] v[j].0.id
    &&& forall|i: int, j: int|
        0 <= i < j < v.len() ==> #[trigger] v[i].0.last_updated_at
            >= #[trigger] v[j].0.last_updated_at
    &&& forall|i: int| 0 <= i < v.len() ==> thread_ok(#[trigger] v[i], next_message)
    &&& forall|i: int, j: int|
        0 <= i < v.len() && 0 <= j < v[i].1.len() ==> #[trigger] v[i].1[j].created_at <= clock
    &&& messages_disjoint(v)
}

/// No message id is shared between two threads.
pub open spec fn messages_disjoint(v: StoreView) -> bool {
    forall|a: int, b: int, j1: int, j2: int|
        0 <= a < v.len() && 0 <= b < v.len() && a != b && 0 <= j1 < v[a].1.len() && 0 <= j2
            < v[b].1.len() ==> #[trigger] v[a].1[j1].id != #[trigger] v[b].1[j2].id
}

/// One thread's messages: non-empty, opened by a system message, each
/// pointing back at the thread, with ids in range, in creation order.
pub open spec fn thread_ok(c: (ThreadView, Seq<MessageView>), next_message: i64) -> bool {
    &&& c.1.len() > 0
    &&& c.1[0].role == Role::System
    &&& forall|j: int|
        0 <= j < c.1.len() ==> (#[trigger] c.1[j]).thread_id == c.0.id && 0 < c.1[j].id
            < next_message
    &&& forall|j: int, k: int|
        0 <= j < k < c.1.len() ==> #[trigger] c.1[j].id < #[trigger] c.1[k].id && c.1[j].created_at
            <= c.1[k].created_at
}

/// Where the thread at position `k` of `move_front(v, i, x)` came from in
/// `v` (position 0 holds `x`, which replaces `v[i]`).
spec fn moved_from(i: int, k: int) -> int {
    if k == 0 {
        i
    } else if k <= i {
        k - 1
    } else {
        k
    }
}

proof fn lemma_move_front(
    v: StoreView,
    i: int,
    x: (ThreadView, Seq<MessageView>),
    nt: i64,
    nm: i64,
    clock: i64,
    clock2: i64,
)
    requires
        store_invariant(v, nt, nm, clock),
        0 <= i < v.len(),
        x.0.id == v[i].0.id,
        clock < x.0.last_updated_at == clock2,
        thread_ok(x, nm),
        forall|j: int| 0 <= j < x.1.len() ==> #[trigger] x.1[j].created_at <= clock2,
        forall|k: int, j1: int, j2: int|
            0 <= k < v.len() && k != i && 0 <= j1 < x.1.len() && 0 <= j2 < v[k].1.len()
                ==> #[trigger] x.1[j1].id != #[trigger] v[k].1[j2].id,
    ensures
        store_invariant(move_front(v, i, x), nt, nm, clock2),
{
    let w = move_front(v, i, x);
    assert(w.len() == v.len());
    assert forall|k: int| 1 <= k < w.len() implies #[trigger] w[k] == v[moved_from(i, k)] by {}
    assert forall|a: int, b: int| 0 <= a < b < w.len() implies #[trigger] w[a].0.id
        != #[trigger] w[b].0.id by {
        assert(w[b] == v[moved_from(i, b)]);
        if a > 0 {
            assert(w[a] == v[moved_from(i, a)]);
        }
    }
    assert forall|a: int, b: int| 0 <= a < b < w.len() implies #[trigger] w[a].0.last_updated_at
        >= #[trigger] w[b].0.last_updated_at by {
        assert(w[b] == v[moved_from(i, b)]);
        if a > 0 {
            assert(w[a] == v[moved_from(i, a)]);
        }
    }
    assert forall|k: int| 0 <= k < w.len() implies thread_ok(#[trigger] w[k], nm) && 0 < w[k].0.id
        < nt && w[k].0.last_updated_at <= clock2 by {
        if k > 0 {
            assert(w[k] == v[moved_from(i, k)]);
        }
    }
    assert forall|k: int, j: int| 0 <= k < w.len() && 0 <= j < w[k].1.len() implies #[trigger] w[k].1[
        j].created_at <= clock2 by {
        if k > 0 {
            assert(w[k] == v[moved_from(i, k)]);
            assert(v[moved_from(i, k)].1[j].created_at <= clock);
        }
    }
    assert forall|a: int, b: int, j1: int, j2: int|
        0 <= a < w.len() && 0 <= b < w.len() && a != b && 0 <= j1 < w[a].1.len() && 0 <= j2
            < w[b].1.len() implies #[trigger] w[a].1[j1].id != #[trigger] w[b].1[j2].id by {
        if a == 0 {
            assert(w[b] == v[moved_from(i, b)]);
            assert(x.1[j1].id != v[moved_from(i, b)].1[j2].id);
        } else if b == 0 {
            assert(w[a] == v[moved_from(i, a)]);
            assert(x.1[j2].id != v[moved_from(i, a)].1[j1].id);
        } else {
            assert(w[a] == v[moved_from(i, a)]);
            assert(w[b] == v[moved_from(i, b)]);
            assert(v[moved_from(i, a)].1[j1].id != v[moved_from(i, b)].1[j2].id);
        }
    }
}

/// The rows of `ms` that belong to thread `id`, in their order.
pub open spec fn rows_of(ms: Seq<MessageView>, id: i64) -> Seq<MessageView>
    decreases ms.len(),
{
    if ms.len() == 0 {
        ms
    } else {
        rows_of(ms.drop_last(), id) + if ms.last().thread_id == id {
            seq![ms.last()]
        } else {
            Seq::empty()
        }
    }
}

/// Whether `next` is one more than the largest of `ids`, or 1 when there
/// are none.
pub open spec fn resumes_after(ids: Seq<i64>, next: i64) -> bool {
    &&& forall|a: int| 0 <= a < ids.len() ==> #[trigger] ids[a] < next
    &&& (next == 1 || exists|a: int| 0 <= a < ids.len() && #[trigger] ids[a] == next - 1)
}

/// The store that persisted thread and message rows describe.
pub open spec fn restored(ts: Seq<ThreadView>, ms: Seq<MessageView>) -> StoreView {
    Seq::new(ts.len(), |i: int| (ts[i], rows_of(ms, ts[i].id)))
}

/// Whether persisted rows obey the store's rules: see the four parts.
pub open spec fn rows_valid(ts: Seq<ThreadView>, ms: Seq<MessageView>) -> bool {
    &&& threads_valid(ts)
    &&& messages_valid(ts, ms)
    &&& messages_ordered(ms)
    &&& openings_valid(ts, ms)
}

/// Message rows in creation order: ids strictly ascending, stamps not
/// decreasing.
pub open spec fn messages_ordered(ms: Seq<MessageView>) -> bool {
    forall|a: int, b: int|
        0 <= a < b < ms.len() ==> #[trigger] ms[a].id < #[trigger] ms[b].id && ms[a].created_at
            <= ms[b].created_at
}

/// The clock a restored store resumes from: the latest stamp among the
/// newest thread and the last message, and never below 0.
pub open spec fn restored_clock(ts: Seq<ThreadView>, ms: Seq<MessageView>) -> i64 {
    let t = if ts.len() > 0 && ts[0].last_updated_at > 0 {
        ts[0].last_updated_at
    } else {
        0
    };
    if ms.len() > 0 && ms.last().created_at > t {
        ms.last().created_at
    } else {
        t
    }
}

/// Thread ids positive, below the largest value and unique; threads ordered
/// by last update, newest first.
pub open spec fn threads_valid(ts: Seq<ThreadView>) -> bool {
    &&& forall|i: int| 0 <= i < ts.len() ==> 0 < #[trigger] ts[i].id < i64::MAX
    &&& forall|i: int, j: int| 0 <= i < j < ts.len() ==> #[trigger] ts[i].id != #[trigger] ts[j].id
    &&& forall|i: int, j: int|
        0 <= i < j < ts.len() ==> #[trigger] ts[i].last_updated_at >= #[trigger] ts[j].last_updated_at
}

/// Every message is valid.
pub open spec fn messages_valid(ts: Seq<ThreadView>, ms: Seq<MessageView>) -> bool {
    forall|j: int| 0 <= j < ms.len() ==> message_valid(ts, #[trigger] ms[j])
}

/// A message id positive and below the largest value, and the message
/// belonging to a listed thread.
pub open spec fn message_valid(ts: Seq<ThreadView>, m: MessageView) -> bool {
    &&& 0 < m.id < i64::MAX
    &&& exists|i: int| 0 <= i < ts.len() && #[trigger] ts[i].id == m.thread_id
}

/// Each thread is opened by a system message.
pub open spec fn openings_valid(ts: Seq<ThreadView>, ms: Seq<MessageView>) -> bool {
    forall|i: int|
        0 <= i < ts.len() ==> rows_of(ms, #[trigger] ts[i].id).len() > 0 && rows_of(ms, ts[i].id)[0].role
            == Role::System
}

proof fn lemma_rows_of(ms: Seq<MessageView>, id: i64, nm: i64)
    requires
        forall|j: int| 0 <= j < ms.len() ==> 0 < #[trigger] ms[j].id < nm,
    ensures
        forall|k: int|
            0 <= k < rows_of(ms, id).len() ==> (#[trigger] rows_of(ms, id)[k]).thread_id == id && 0
                < rows_of(ms, id)[k].id < nm,
    decreases ms.len(),
{
    if ms.len() > 0 {
        lemma_rows_of(ms.drop_last(), id, nm);
        assert forall|k: int| 0 <= k < rows_of(ms, id).len() implies (#[trigger] rows_of(
            ms,
            id,
        )[k]).thread_id == id && 0 < rows_of(ms, id)[k].id < nm by {
            if k < rows_of(ms.drop_last(), id).len() {
                assert(rows_of(ms, id)[k] == rows_of(ms.drop_last(), id)[k]);
            } else {
                assert(ms.last() == ms[ms.len() - 1]);
            }
        }
    }
}

proof fn lemma_rows_of_ordered(ms: Seq<MessageView>, id: i64)
    requires
        messages_ordered(ms),
    ensures
        forall|k: int|
            0 <= k < rows_of(ms, id).len() ==> exists|p: int|
                0 <= p < ms.len() && ms[p] == #[trigger] rows_of(ms, id)[k],
        forall|k1: int, k2: int|
            0 <= k1 < k2 < rows_of(ms, id).len() ==> #[trigger] rows_of(ms, id)[k1].id
                < #[trigger] rows_of(ms, id)[k2].id && rows_of(ms, id)[k1].created_at <= rows_of(
                ms,
                id,
            )[k2].created_at,
    decreases ms.len(),
{
    if ms.len() > 0 {
        let init = ms.drop_last();
        assert(messages_ordered(init)) by {
            assert forall|a: int, b: int| 0 <= a < b < init.len() implies #[trigger] init[a].id
                < #[trigger] init[b].id && init[a].created_at <= init[b].created_at by {
                assert(init[a] == ms[a] && init[b] == ms[b]);
            }
        }
        lemma_rows_of_ordered(init, id);
        let r = rows_of(ms, id);
        let ri = rows_of(init, id);
        assert forall|k: int| 0 <= k < r.len() implies exists|p: int|
            0 <= p < ms.len() && ms[p] == #[trigger] r[k] by {
            if k < ri.len() {
                assert(r[k] == ri[k]);
                let p = choose|p: int| 0 <= p < init.len() && init[p] == #[trigger] ri[k];
                assert(ms[p] == init[p]);
            } else {
                assert(r[k] == ms[ms.len() - 1]);
            }
        }
        assert forall|k1: int, k2: int| 0 <= k1 < k2 < r.len() implies #[trigger] r[k1].id
            < #[trigger] r[k2].id && r[k1].created_at <= r[k2].created_at by {
            assert(r[k1] == ri[k1]);
            if k2 < ri.len() {
                assert(r[k2] == ri[k2]);
            } else {
                assert(r[k2] == ms[ms.len() - 1]);
                let p = choose|p: int| 0 <= p < init.len() && init[p] == #[trigger] ri[k1];
                assert(ms[p] == init[p]);
                assert(ms[p].id < ms[ms.len() - 1].id);
            }
        }
    }
}

fn collect_rows(messages: &Vec<Message>, id: i64) -> (r: Vec<Message>)
    ensures
        message_views(r@) == rows_of(message_views(messages@), id),
{
    let ghost ms = message_views(messages@);
    let mut out: Vec<Message> = Vec::new();
    let mut j: usize = 0;
    while j < messages.len()
        invariant
            j <= messages@.len(),
            ms == message_views(messages@),
            message_views(out@) == rows_of(ms.subrange(0, j as int), id),
        decreases messages@.len() - j,
    {
        assert(ms.subrange(0, j + 1).drop_last() =~= ms.subrange(0, j as int));
        let ghost before = out@;
        if messages[j].thread_id == id {
            out.push(messages[j].clone());
            assert(message_views(out@) =~= message_views(before) + seq![ms[j as int]]);
        } else {
            assert(message_views(out@) =~= message_views(before) + Seq::<MessageView>::empty());
        }
        j = j + 1;
    }
    assert(ms.subrange(0, j as int) =~= ms);
    out
}

struct Conversation {
    thread: Thread,
    messages: Vec<Message>,
}

impl Conversation {
    spec fn view(&self) -> (ThreadView, Seq<MessageView>) {
        (self.thread@, message_views(self.messages@))
    }
}

/// The conversation store: threads and their messages, with the notifier
/// that reports every change.
pub struct Database {
    database_url: String,
    conversations: Vec<Conversation>,
    next_thread_id: i64,
    next_message_id: i64,
    clock: i64,
    schema_version: u64,
    notifier: DatabaseNotifier,
}

impl View for Database {
    type V = StoreView;

    closed spec fn view(&self) -> StoreView {
        self.conversations@.map_values(|c: Conversation| c.view())
    }
}

impl Database {
    /// The id the next thread will get.
    pub closed spec fn next_thread_id(&self) -> i64 {
        self.next_thread_id
    }

    /// The id the next message will get.
    pub closed spec fn next_message_id(&self) -> i64 {
        self.next_message_id
    }

    /// The tick of the latest write.
    pub closed spec fn clock(&self) -> i64 {
        self.clock
    }

    /// Number of schema steps applied so far.
    pub closed spec fn schema_version(&self) -> u64 {
        self.schema_version
    }

    /// The undelivered change events of each listener.
    pub closed spec fn events(&self) -> Queues {
        self.notifier@
    }

    /// Where the store is kept.
    pub closed spec fn url(&self) -> Seq<char> {
        self.database_url@
    }

    pub closed spec fn wf(&self) -> bool {
        &&& self.notifier.wf()
        &&& store_invariant(self@, self.next_thread_id(), self.next_message_id(), self.clock())
    }

    /// An empty store, not yet migrated.
    pub fn new(database_url: String) -> (r: Database)
        ensures
            r.wf(),
            r@.len() == 0,
            r.url() == database_url@,
            r.schema_version() == 0,
            r.events().len() == 0,
            r.next_thread_id() == 1,
            r.next_message_id() == 1,
            r.clock() == 0,
    {
        let r = Database {
            database_url,
            conversations: Vec::new(),
            next_thread_id: 1,
            next_message_id: 1,
            clock: 0,
            schema_version: 0,
            notifier: DatabaseNotifier::new(),
        };
        assert(r@ =~= Seq::empty());
        r
    }

    /// Rebuilds a store from persisted rows: threads most recently updated
    /// first, messages in creation order. Rows that break the store's rules
    /// are refused. Counters resume after the largest id and timestamp
    /// found.
    pub fn restore(database_url: String, threads: Vec<Thread>, messages: Vec<Message>) -> (r: Result<
        Database,
        Error,
    >)
        ensures
            r is Ok <==> rows_valid(thread_views(threads@), message_views(messages@)),
            r is Err ==> r == Err::<Database, Error>(Error::Storage(StorageError::Inconsistent)),
            r matches Ok(db) ==> {
                &&& db.wf()
                &&& db@ == restored(thread_views(threads@), message_views(messages@))
                &&& db.url() == database_url@
                &&& db.schema_version() == 0
                &&& db.events().len() == 0
                &&& resumes_after(
                    thread_views(threads@).map_values(|t: ThreadView| t.id),
                    db.next_thread_id(),
                )
                &&& resumes_after(
                    message_views(messages@).map_values(|m: MessageView| m.id),
                    db.next_message_id(),
                )
                &&& db.clock() == restored_clock(thread_views(threads@), message_views(messages@))
            },
    {
        let ghost ts = thread_views(threads@);
        let ghost ms = message_views(messages@);
        let mut max_t: i64 = 0;
        let mut i: usize = 0;
        while i < threads.len()
            invariant
                i <= threads@.len(),
                ts == thread_views(threads@),
                0 <= max_t < i64::MAX,
                forall|a: int| 0 <= a < i ==> 0 < #[trigger] ts[a].id < i64::MAX && ts[a].id <= max_t,
                max_t == 0 || exists|a: int| 0 <= a < i && #[trigger] ts[a].id == max_t,
                forall|a: int, b: int| 0 <= a < b < i ==> #[trigger] ts[a].id != #[trigger] ts[b].id,
                forall|a: int, b: int|
                    0 <= a < b < i ==> #[trigger] ts[a].last_updated_at >= #[trigger] ts[b].last_updated_at,
            decreases threads@.len() - i,
        {
            let id = threads[i].id;
            if id <= 0 || id == i64::MAX {
                assert(ts[i as int].id == id);
                return Err(Error::Storage(StorageError::Inconsistent));
            }
            if i > 0 && threads[i - 1].last_updated_at < threads[i].last_updated_at {
                assert(ts[i - 1].last_updated_at < ts[i as int].last_updated_at);
                return Err(Error::Storage(StorageError::Inconsistent));
            }
            let mut k: usize = 0;
            while k < i
                invariant
                    k <= i < threads@.len(),
                    ts == thread_views(threads@),
                    id == ts[i as int].id,
                    forall|a: int| 0 <= a < k ==> #[trigger] ts[a].id != id,
                decreases i - k,
            {
                if threads[k].id == id {
                    assert(ts[k as int].id == ts[i as int].id);
                    return Err(Error::Storage(StorageError::Inconsistent));
                }
                k = k + 1;
            }
            if id > max_t {
                max_t = id;
            }
            proof {
                assert forall|a: int, b: int| 0 <= a < b < i + 1 implies #[trigger] ts[a].last_updated_at
                    >= #[trigger] ts[b].last_updated_at by {
                    if b == i && a < i - 1 {
                        assert(ts[a].last_updated_at >= ts[i - 1].last_updated_at);
                    }
                }
            }
            i = i + 1;
        }
        let mut max_m: i64 = 0;
        let mut j: usize = 0;
        while j < messages.len()
            invariant
                j <= messages@.len(),
                ts == thread_views(threads@),
                ms == message_views(messages@),
                threads_valid(ts),
                0 <= max_m < i64::MAX,
                forall|a: int| 0 <= a < j ==> message_valid(ts, #[trigger] ms[a]) && ms[a].id <= max_m,
                max_m == 0 || exists|a: int| 0 <= a < j && #[trigger] ms[a].id == max_m,
                forall|a: int, b: int|
                    0 <= a < b < j ==> #[trigger] ms[a].id < #[trigger] ms[b].id && ms[a].created_at
                        <= ms[b].created_at,
            decreases messages@.len() - j,
        {
            let id = messages[j].id;
            if id <= 0 || id == i64::MAX {
                assert(ms[j as int].id == id);
                return Err(Error::Storage(StorageError::Inconsistent));
            }
            if j > 0 && (messages[j - 1].id >= id || messages[j - 1].created_at
                > messages[j].created_at) {
                assert(ms[j - 1].id == messages@[j - 1].id);
                assert(ms[j as int].id == id);
                assert(!messages_ordered(ms)) by {
                    assert(!(ms[j - 1].id < ms[j as int].id && ms[j - 1].created_at
                        <= ms[j as int].created_at));
                }
                return Err(Error::Storage(StorageError::Inconsistent));
            }
            let owner = messages[j].thread_id;
            let mut found = false;
            let mut k: usize = 0;
            while k < threads.len()
                invariant
                    k <= threads@.len(),
                    ts == thread_views(threads@),
                    owner == ms[j as int].thread_id,
                    j < ms.len(),
                    found ==> exists|b: int| 0 <= b < ts.len() && ts[b].id == owner,
                    !found ==> forall|b: int| 0 <= b < k ==> #[trigger] ts[b].id != owner,
                decreases threads@.len() - k,
            {
                if threads[k].id == owner {
                    assert(ts[k as int].id == owner);
                    found = true;
                }
                k = k + 1;
            }
            if !found {
                assert(!(exists|b: int| 0 <= b < ts.len() && ts[b].id == #[trigger] ms[j as int].thread_id));
                return Err(Error::Storage(StorageError::Inconsistent));
            }
            assert(ms[j as int].id == id);
            if id > max_m {
                max_m = id;
            }
            proof {
                assert forall|a: int, b: int| 0 <= a < b < j + 1 implies #[trigger] ms[a].id
                    < #[trigger] ms[b].id && ms[a].created_at <= ms[b].created_at by {
                    if b == j && a < j - 1 {
                        assert(ms[a].id < ms[j - 1].id && ms[a].created_at <= ms[j - 1].created_at);
                    }
                }
            }
            j = j + 1;
        }
        assert(ms.len() == messages@.len());
        assert(messages_valid(ts, ms));
        assert(messages_ordered(ms));
        let mut conversations: Vec<Conversation> = Vec::new();
        let mut i: usize = 0;
        while i < threads.len()
            invariant
                i <= threads@.len(),
                ts == thread_views(threads@),
                ms == message_views(messages@),
                conversations@.len() == i,
                threads_valid(ts),
                messages_valid(ts, ms),
                messages_ordered(ms),
                forall|a: int|
                    0 <= a < i ==> (#[trigger] conversations@[a]).view() == (ts[a], rows_of(ms, ts[a].id)),
                forall|a: int|
                    0 <= a < i ==> rows_of(ms, #[trigger] ts[a].id).len() > 0 && rows_of(ms, ts[a].id)[0].role
                        == Role::System,
            decreases threads@.len() - i,
        {
            let rows = collect_rows(&messages, threads[i].id);
            if rows.len() == 0 || rows[0].role != Role::System {
                assert(message_views(rows@) == rows_of(ms, ts[i as int].id));
                if rows.len() > 0 {
                    assert(message_views(rows@)[0] == rows@[0]@);
                }
                return Err(Error::Storage(StorageError::Inconsistent));
            }
            assert(message_views(rows@)[0] == rows@[0]@);
            conversations.push(Conversation { thread: threads[i].clone(), messages: rows });
            i = i + 1;
        }
        let mut clock: i64 = if threads.len() > 0 && threads[0].last_updated_at > 0 {
            threads[0].last_updated_at
        } else {
            0
        };
        if messages.len() > 0 && messages[messages.len() - 1].created_at > clock {
            clock = messages[messages.len() - 1].created_at;
        }
        assert(ms.len() > 0 ==> ms.last() == messages@[messages@.len() - 1]@);
        let db = Database {
            database_url,
            conversations,
            next_thread_id: max_t + 1,
            next_message_id: max_m + 1,
            clock,
            schema_version: 0,
            notifier: DatabaseNotifier::new(),
        };
        assert(rows_valid(ts, ms));
        proof {
            let v = db@;
            assert(v =~= restored(ts, ms));
            let tids = ts.map_values(|t: ThreadView| t.id);
            let mids = ms.map_values(|m: MessageView| m.id);
            assert forall|a: int| 0 <= a < tids.len() implies #[trigger] tids[a] < db.next_thread_id by {
                assert(tids[a] == ts[a].id);
            }
            if max_t != 0 {
                let a = choose|a: int| 0 <= a < ts.len() && #[trigger] ts[a].id == max_t;
                assert(tids[a] == max_t);
            }
            assert forall|a: int| 0 <= a < mids.len() implies #[trigger] mids[a] < db.next_message_id by {
                assert(mids[a] == ms[a].id);
            }
            if max_m != 0 {
                let a = choose|a: int| 0 <= a < ms.len() && #[trigger] ms[a].id == max_m;
                assert(mids[a] == max_m);
            }
            assert forall|a: int| 0 <= a < v.len() implies thread_ok(#[trigger] v[a], db.next_message_id) by {
                lemma_rows_of(ms, ts[a].id, db.next_message_id);
                lemma_rows_of_ordered(ms, ts[a].id);
                assert(v[a] == (ts[a], rows_of(ms, ts[a].id)));
            }
            assert forall|a: int, k: int| 0 <= a < v.len() && 0 <= k < v[a].1.len() implies #[trigger] v[
                a].1[k].created_at <= clock by {
                lemma_rows_of_ordered(ms, ts[a].id);
                assert(v[a] == (ts[a], rows_of(ms, ts[a].id)));
                let p = choose|p: int| 0 <= p < ms.len() && ms[p] == #[trigger] rows_of(ms, ts[a].id)[k];
                if p < ms.len() - 1 {
                    assert(ms[p].created_at <= ms[ms.len() - 1].created_at);
                }
            }
            assert forall|a: int, b: int, j1: int, j2: int|
                0 <= a < v.len() && 0 <= b < v.len() && a != b && 0 <= j1 < v[a].1.len() && 0 <= j2
                    < v[b].1.len() implies #[trigger] v[a].1[j1].id != #[trigger] v[b].1[j2].id by {
                lemma_rows_of(ms, ts[a].id, db.next_message_id);
                lemma_rows_of(ms, ts[b].id, db.next_message_id);
                lemma_rows_of_ordered(ms, ts[a].id);
                lemma_rows_of_ordered(ms, ts[b].id);
                assert(v[a] == (ts[a], rows_of(ms, ts[a].id)));
                assert(v[b] == (ts[b], rows_of(ms, ts[b].id)));
                let p = choose|p: int| 0 <= p < ms.len() && ms[p] == #[trigger] rows_of(ms, ts[a].id)[j1];
                let q = choose|q: int| 0 <= q < ms.len() && ms[q] == #[trigger] rows_of(ms, ts[b].id)[j2];
                assert(ts[a].id != ts[b].id);
                assert(p != q);
                if p < q {
                    assert(ms[p].id < ms[q].id);
                } else {
                    assert(ms[q].id < ms[p].id);
                }
            }
            assert forall|a: int| 0 <= a < v.len() implies #[trigger] v[a].0.last_updated_at <= clock by {
                if a > 0 {
                    assert(ts[0].last_updated_at >= ts[a].last_updated_at);
                }
            }
        }
        Ok(db)
    }

    /// Where the store is kept.
    pub fn database_url(&self) -> (r: &str)
        ensures
            r@ == self.url(),
    {
        self.database_url.as_str()
    }

    /// Applies the schema steps not applied yet and returns how many there
    /// were; on a migrated store this is 0 and nothing changes.
    pub fn run_migrations(&mut self) -> (r: u64)
        requires
            old(self).wf(),
        ensures
            final(self).wf(),
            r == pending_migrations(old(self).schema_version()),
            final(self).schema_version() == SCHEMA_VERSION,
            final(self)@ == old(self)@,
            final(self).events() == old(self).events(),
            final(self).next_thread_id() == old(self).next_thread_id(),
            final(self).next_message_id() == old(self).next_message_id(),
            final(self).clock() == old(self).clock(),
    {
        let applied = if self.schema_version < SCHEMA_VERSION {
            SCHEMA_VERSION - self.schema_version
        } else {
            0
        };
        self.schema_version = SCHEMA_VERSION;
        applied
    }

    fn find_thread(&self, id: i64) -> (r: Option<usize>)
        ensures
            match r {
                Some(i) => i < self@.len() && self@[i as int].0.id == id,
                None => !has_thread(self@, id),
            },
    {
        let mut i: usize = 0;
        while i < self.conversations.len()
            invariant
                i <= self@.len(),
                self@.len() == self.conversations@.len(),
                forall|k: int| 0 <= k < i ==> self@[k].0.id != id,
            decreases self.conversations@.len() - i,
        {
            if self.conversations[i].thread.id == id {
                return Some(i);
            }
            i = i + 1;
        }
        None
    }

    /// Creates a thread together with its opening system message, both
    /// stamped with the next tick, and reports the new thread.
    pub fn create_thread(&mut self, title: &str) -> (r: Result<Thread, Error>)
        requires
            old(self).wf(),
        ensures
            final(self).wf(),
            final(self).schema_version() == old(self).schema_version(),
            old(self).next_thread_id() < i64::MAX && old(self).next_message_id() < i64::MAX
                && old(self).clock() < i64::MAX <==> r is Ok,
            r matches Ok(t) ==> {
                &&& t@ == (ThreadView {
                    id: old(self).next_thread_id(),
                    title: title@,
                    created_at: (old(self).clock() + 1) as i64,
                    last_updated_at: (old(self).clock() + 1) as i64,
                })
                &&& final(self)@ == seq![
                    (
                        t@,
                        seq![
                            system_message(old(self).next_message_id(), t.id, (old(self).clock() + 1) as i64),
                        ],
                    ),
                ] + old(self)@
                &&& final(self).events() == publish(old(self).events(), EventView::NewThread(t@))
                &&& final(self).next_thread_id() == old(self).next_thread_id() + 1
                &&& final(self).next_message_id() == old(self).next_message_id() + 1
                &&& final(self).clock() == old(self).clock() + 1
            },
            r matches Err(e) ==> e == Error::Storage(StorageError::Exhausted) && final(self)@
                == old(self)@ && final(self).events() == old(self).events()
                && final(self).same_counters(old(self)),
    {
        if self.next_thread_id == i64::MAX || self.next_message_id == i64::MAX || self.clock
            == i64::MAX {
            return Err(Error::Storage(StorageError::Exhausted));
        }
        let now = self.clock + 1;
        let thread = Thread {
            id: self.next_thread_id,
            title: String::from_str(title),
            created_at: now,
            last_updated_at: now,
        };
        let system = Message {
            id: self.next_message_id,
            thread_id: thread.id,
            created_at: now,
            content: String::from_str(ASSISTANT_SYSTEM_PROMPT),
            role: Role::System,
        };
        let mut messages: Vec<Message> = Vec::new();
        messages.push(system);
        let ghost old_v = self@;
        let c = Conversation { thread: thread.clone(), messages };
        assert(message_views(c.messages@) =~= seq![
            system_message(self.next_message_id, thread.id, now),
        ]);
        self.conversations.insert(0, c);
        self.next_thread_id = self.next_thread_id + 1;
        self.next_message_id = self.next_message_id + 1;
        self.clock = now;
        assert(self@ =~= seq![c.view()] + old_v);
        proof {
            let v = self@;
            assert forall|k: int| 1 <= k < v.len() implies #[trigger] v[k] == old_v[k - 1] by {}
            assert forall|a: int, b: int| 0 <= a < b < v.len() implies #[trigger] v[a].0.id
                != #[trigger] v[b].0.id by {
                if a > 0 {
                    assert(v[a] == old_v[a - 1]);
                }
                assert(v[b] == old_v[b - 1]);
            }
            assert forall|a: int, b: int| 0 <= a < b < v.len() implies #[trigger] v[a].0.last_updated_at
                >= #[trigger] v[b].0.last_updated_at by {
                if a > 0 {
                    assert(v[a] == old_v[a - 1]);
                }
                assert(v[b] == old_v[b - 1]);
            }
            assert forall|k: int| 0 <= k < v.len() implies thread_ok(#[trigger] v[k], self.next_message_id)
                && 0 < v[k].0.id < self.next_thread_id && v[k].0.last_updated_at <= now by {
                if k > 0 {
                    assert(v[k] == old_v[k - 1]);
                    assert(thread_ok(old_v[k - 1], (self.next_message_id - 1) as i64));
                }
            }
        }
        self.notifier.notify(DatabaseNotifierMessage::NewThread(thread.clone()));
        Ok(thread)
    }

    /// Attaches a listener to the store's changes; returns its id.
    pub fn subscribe(&mut self) -> (r: usize)
        requires
            old(self).wf(),
        ensures
            final(self).wf(),
            r == old(self).events().len(),
            final(self).events() == old(self).events().push(Some(Seq::empty())),
            final(self)@ == old(self)@,
            final(self).same_counters(old(self)),
    {
        self.notifier.subscribe()
    }

    /// Detaches a listener.
    pub fn unsubscribe(&mut self, id: usize)
        requires
            old(self).wf(),
        ensures
            final(self).wf(),
            id < old(self).events().len() ==> final(self).events() == old(self).events().update(
                id as int,
                None,
            ),
            id >= old(self).events().len() ==> final(self).events() == old(self).events(),
            final(self)@ == old(self)@,
            final(self).same_counters(old(self)),
    {
        self.notifier.unsubscribe(id)
    }

    /// Hands a listener its undelivered change events, oldest first.
    pub fn receive(&mut self, id: usize) -> (r: Vec<DatabaseNotifierMessage>)
        requires
            old(self).wf(),
        ensures
            final(self).wf(),
            match (if id < old(self).events().len() {
                old(self).events()[id as int]
            } else {
                None
            }) {
                Some(p) => event_views(r@) == p && final(self).events() == old(self).events().update(
                    id as int,
                    Some(Seq::empty()),
                ),
                None => r@.len() == 0 && final(self).events() == old(self).events(),
            },
            final(self)@ == old(self)@,
            final(self).same_counters(old(self)),
    {
        self.notifier.receive(id)
    }

    /// Counters, schema and location unchanged.
    pub open spec fn same_counters(&self, other: &Database) -> bool {
        &&& self.next_thread_id() == other.next_thread_id()
        &&& self.next_message_id() == other.next_message_id()
        &&& self.clock() == other.clock()
        &&& self.schema_version() == other.schema_version()
        &&& self.url() == other.url()
    }

    /// Renames a thread, stamps it with the next tick, moves it to the front
    /// and reports it.
    pub fn update_thread_title(&mut self, id: i64, title: String) -> (r: Result<(), Error>)
        requires
            old(self).wf(),
        ensures
            final(self).wf(),
            final(self).schema_version() == old(self).schema_version(),
            final(self).next_thread_id() == old(self).next_thread_id(),
            final(self).next_message_id() == old(self).next_message_id(),
            !has_thread(old(self)@, id) ==> r == Err::<(), Error>(
                Error::Storage(StorageError::ThreadNotFound(id)),
            ),
            has_thread(old(self)@, id) && old(self).clock() == i64::MAX ==> r == Err::<(), Error>(
                Error::Storage(StorageError::Exhausted),
            ),
            r is Err ==> final(self)@ == old(self)@ && final(self).events() == old(self).events()
                && final(self).clock() == old(self).clock(),
            r is Ok ==> final(self).clock() == old(self).clock() + 1,
            r is Ok <==> has_thread(old(self)@, id) && old(self).clock() < i64::MAX,
            r is Ok ==> exists|i: int|
                0 <= i < old(self)@.len() && #[trigger] old(self)@[i].0.id == id && {
                    let t = ThreadView {
                        title: title@,
                        last_updated_at: (old(self).clock() + 1) as i64,
                        ..old(self)@[i].0
                    };
                    &&& final(self)@ == move_front(old(self)@, i, (t, old(self)@[i].1))
                    &&& final(self).events() == publish(old(self).events(), EventView::UpdateThread(t))
                    &&& old(self)@[i].0.last_updated_at < t.last_updated_at
                },
    {
        let found = self.find_thread(id);
        let i = match found {
            Some(i) => i,
            None => {
                return Err(Error::Storage(StorageError::ThreadNotFound(id)));
            },
        };
        if self.clock == i64::MAX {
            return Err(Error::Storage(StorageError::Exhausted));
        }
        let now = self.clock + 1;
        let ghost old_v = self@;
        let mut c = self.conversations.remove(i);
        assert(c.view() == old_v[i as int]);
        c.thread.title = title;
        c.thread.last_updated_at = now;
        let updated = c.thread.clone();
        let ghost x = c.view();
        self.conversations.insert(0, c);
        self.clock = now;
        assert(self@ =~= move_front(old_v, i as int, x));
        proof {
            lemma_move_front(old_v, i as int, x, self.next_thread_id, self.next_message_id, (now - 1) as i64, now);
        }
        self.notifier.notify(DatabaseNotifierMessage::UpdateThread(updated));
        Ok(())
    }

    /// Deletes a thread together with its messages; an unknown id changes
    /// nothing.
    pub fn delete_thread(&mut self, id: i64)
        requires
            old(self).wf(),
        ensures
            final(self).wf(),
            final(self).same_counters(old(self)),
            final(self).events() == old(self).events(),
            !has_thread(old(self)@, id) ==> final(self)@ == old(self)@,
            has_thread(old(self)@, id) ==> exists|i: int|
                0 <= i < old(self)@.len() && #[trigger] old(self)@[i].0.id == id && final(self)@
                    == old(self)@.remove(i),
            !has_thread(final(self)@, id),
    {
        match self.find_thread(id) {
            Some(i) => {
                let ghost old_v = self@;
                let _ = self.conversations.remove(i);
                assert(self@ =~= old_v.remove(i as int));
                proof {
                    let v = self@;
                    assert forall|k: int| 0 <= k < v.len() implies #[trigger] v[k] == (if k < i {
                        old_v[k]
                    } else {
                        old_v[k + 1]
                    }) by {}
                    assert forall|a: int, b: int| 0 <= a < b < v.len() implies #[trigger] v[a].0.id
                        != #[trigger] v[b].0.id && v[a].0.last_updated_at >= v[b].0.last_updated_at by {
                        assert(v[a] == (if a < i { old_v[a] } else { old_v[a + 1] }));
                        assert(v[b] == (if b < i { old_v[b] } else { old_v[b + 1] }));
                    }
                    assert forall|k: int| 0 <= k < v.len() implies v[k].0.id != id by {
                        assert(v[k] == (if k < i { old_v[k] } else { old_v[k + 1] }));
                    }
                }
            },
            None => {},
        }
    }

    /// The thread with the given id.
    pub fn get_thread(&self, id: i64) -> (r: Result<Thread, Error>)
        requires
            self.wf(),
        ensures
            !has_thread(self@, id) ==> r == Err::<Thread, Error>(
                Error::Storage(StorageError::ThreadNotFound(id)),
            ),
            has_thread(self@, id) ==> exists|i: int|
                0 <= i < self@.len() && #[trigger] self@[i].0.id == id && (r matches Ok(t) && t@
                    == self@[i].0),
    {
        match self.find_thread(id) {
            Some(i) => Ok(self.conversations[i].thread.clone()),
            None => Err(Error::Storage(StorageError::ThreadNotFound(id))),
        }
    }

    /// All threads, most recently updated first.
    pub fn get_threads(&self) -> (r: Vec<Thread>)
        requires
            self.wf(),
        ensures
            r@.len() == self@.len(),
            forall|i: int| 0 <= i < r@.len() ==> #[trigger] r@[i]@ == self@[i].0,
            forall|i: int, j: int|
                0 <= i < j < r@.len() ==> #[trigger] r@[i].last_updated_at
                    >= #[trigger] r@[j].last_updated_at,
    {
        let mut out: Vec<Thread> = Vec::new();
        let mut i: usize = 0;
        while i < self.conversations.len()
            invariant
                self.wf(),
                i <= self@.len(),
                self@.len() == self.conversations@.len(),
                out@.len() == i,
                forall|k: int| 0 <= k < i ==> #[trigger] out@[k]@ == self@[k].0,
            decreases self.conversations@.len() - i,
        {
            out.push(self.conversations[i].thread.clone());
            i = i + 1;
        }
        proof {
            let v = self@;
            assert forall|a: int, b: int| 0 <= a < b < out@.len() implies #[trigger] out@[a].last_updated_at
                >= #[trigger] out@[b].last_updated_at by {
                assert(out@[a]@ == v[a].0);
                assert(out@[b]@ == v[b].0);
                assert(v[a].0.last_updated_at >= v[b].0.last_updated_at);
            }
        }
        out
    }

    /// The messages of a thread in creation order, without reporting them;
    /// `None` for an unknown id.
    pub fn thread_history(&self, thread_id: i64) -> (r: Option<Vec<Message>>)
        requires
            self.wf(),
        ensures
            !has_thread(self@, thread_id) ==> r is None,
            has_thread(self@, thread_id) ==> exists|i: int|
                0 <= i < self@.len() && #[trigger] self@[i].0.id == thread_id
                    && (r matches Some(v) && message_views(v@) == self@[i].1),
    {
        match self.find_thread(thread_id) {
            Some(i) => Some(copy_messages(&self.conversations[i].messages)),
            None => None,
        }
    }

    /// The messages of a thread in creation order (none for an unknown id);
    /// the list is also reported to the listeners.
    pub fn get_messages(&mut self, thread_id: i64) -> (r: Vec<Message>)
        requires
            old(self).wf(),
        ensures
            final(self).wf(),
            final(self)@ == old(self)@,
            final(self).same_counters(old(self)),
            !has_thread(old(self)@, thread_id) ==> r@.len() == 0,
            has_thread(old(self)@, thread_id) ==> exists|i: int|
                0 <= i < old(self)@.len() && #[trigger] old(self)@[i].0.id == thread_id
                    && message_views(r@) == old(self)@[i].1,
            final(self).events() == publish(
                old(self).events(),
                EventView::GetThreadMessages(message_views(r@)),
            ),
            forall|a: int, b: int|
                0 <= a < b < r@.len() ==> #[trigger] r@[a].id < #[trigger] r@[b].id
                    && r@[a].created_at <= r@[b].created_at,
            forall|a: int| 0 <= a < r@.len() ==> #[trigger] r@[a].thread_id == thread_id,
    {
        let messages = match self.find_thread(thread_id) {
            Some(i) => {
                let m = copy_messages(&self.conversations[i].messages);
                proof {
                    let c = self@[i as int];
                    assert(thread_ok(c, self.next_message_id));
                    assert forall|a: int, b: int| 0 <= a < b < m@.len() implies #[trigger] m@[a].id
                        < #[trigger] m@[b].id && m@[a].created_at <= m@[b].created_at by {
                        assert(c.1[a] == m@[a]@ && c.1[b] == m@[b]@);
                    }
                    assert forall|a: int| 0 <= a < m@.len() implies #[trigger] m@[a].thread_id
                        == thread_id by {
                        assert(c.1[a] == m@[a]@);
                    }
                }
                m
            },
            None => Vec::new(),
        };
        let report = copy_messages(&messages);
        self.notifier.notify(DatabaseNotifierMessage::GetThreadMessages(report));
        messages
    }

    /// Adds a message at the end of a thread, stamps the thread with the
    /// next tick, moves it to the front and reports the message.
    pub fn create_message(&mut self, thread_id: i64, content: String, role: Role) -> (r: Result<
        Message,
        Error,
    >)
        requires
            old(self).wf(),
        ensures
            final(self).wf(),
            final(self).schema_version() == old(self).schema_version(),
            final(self).next_thread_id() == old(self).next_thread_id(),
            !has_thread(old(self)@, thread_id) ==> r == Err::<Message, Error>(
                Error::Storage(StorageError::ThreadNotFound(thread_id)),
            ),
            has_thread(old(self)@, thread_id) && (old(self).clock() == i64::MAX
                || old(self).next_message_id() == i64::MAX) ==> r == Err::<Message, Error>(
                Error::Storage(StorageError::Exhausted),
            ),
            r is Err ==> final(self)@ == old(self)@ && final(self).events() == old(self).events()
                && final(self).same_counters(old(self)),
            r is Ok ==> final(self).clock() == old(self).clock() + 1 && final(self).next_message_id()
                == old(self).next_message_id() + 1,
            r is Ok <==> has_thread(old(self)@, thread_id) && old(self).clock() < i64::MAX
                && old(self).next_message_id() < i64::MAX,
            r matches Ok(m) ==> {
                &&& m@ == (MessageView {
                    id: old(self).next_message_id(),
                    thread_id,
                    created_at: (old(self).clock() + 1) as i64,
                    content: content@,
                    role,
                })
                &&& final(self).events() == publish(old(self).events(), EventView::NewMessage(m@))
                &&& forall|i: int, j: int|
                    0 <= i < old(self)@.len() && 0 <= j < old(self)@[i].1.len()
                        ==> #[trigger] old(self)@[i].1[j].id != m.id
                &&& exists|i: int|
                    0 <= i < old(self)@.len() && #[trigger] old(self)@[i].0.id == thread_id
                        && final(self)@ == move_front(
                        old(self)@,
                        i,
                        (
                            ThreadView {
                                last_updated_at: (old(self).clock() + 1) as i64,
                                ..old(self)@[i].0
                            },
                            old(self)@[i].1.push(m@),
                        ),
                    )
            },
    {
        let i = match self.find_thread(thread_id) {
            Some(i) => i,
            None => {
                return Err(Error::Storage(StorageError::ThreadNotFound(thread_id)));
            },
        };
        if self.clock == i64::MAX || self.next_message_id == i64::MAX {
            return Err(Error::Storage(StorageError::Exhausted));
        }
        let now = self.clock + 1;
        let message = Message {
            id: self.next_message_id,
            thread_id,
            created_at: now,
            content,
            role,
        };
        let ghost old_v = self@;
        let ghost nm = self.next_message_id;
        let mut c = self.conversations.remove(i);
        assert(c.view() == old_v[i as int]);
        c.thread.last_updated_at = now;
        c.messages.push(message.clone());
        let ghost x = c.view();
        assert(x.1 =~= old_v[i as int].1.push(message@));
        self.conversations.insert(0, c);
        self.clock = now;
        self.next_message_id = self.next_message_id + 1;
        assert(self@ =~= move_front(old_v, i as int, x));
        proof {
            lemma_raise_message_bound(old_v, self.next_thread_id, nm, (nm + 1) as i64, (now - 1) as i64);
            assert(thread_ok(old_v[i as int], nm));
            assert(thread_ok(x, self.next_message_id));
            lemma_move_front(old_v, i as int, x, self.next_thread_id, self.next_message_id, (now - 1) as i64, now);
        }
        self.notifier.notify(DatabaseNotifierMessage::NewMessage(message.clone()));
        Ok(message)
    }

    /// Appends text to a message in one step and reports the appended text
    /// alone. An unknown id changes no message; the text is reported all the
    /// same.
    pub fn update_message(&mut self, message_id: i64, content_update: String)
        requires
            old(self).wf(),
        ensures
            final(self).wf(),
            final(self).same_counters(old(self)),
            final(self)@ == append_message(old(self)@, message_id, content_update@),
            final(self).events() == publish(
                old(self).events(),
                EventView::UpdateMessage(content_update@),
            ),
    {
        let ghost old_v = self@;
        let ghost target = append_message(old_v, message_id, content_update@);
        let mut i: usize = 0;
        while i < self.conversations.len()
            invariant
                i <= self@.len(),
                self@.len() == old_v.len(),
                self.conversations@.len() == old_v.len(),
                self.notifier == old(self).notifier,
                self.same_counters(old(self)),
                target == append_message(old_v, message_id, content_update@),
                forall|k: int| 0 <= k < i ==> #[trigger] self@[k] == target[k],
                forall|k: int| i <= k < old_v.len() ==> #[trigger] self@[k] == old_v[k],
            decreases old_v.len() - i,
        {
            let ghost before = self@;
            let ghost before_c = self.conversations@[i as int];
            assert(target.len() == old_v.len());
            assert(before[i as int] == old_v[i as int]);
            append_in(&mut self.conversations[i].messages, message_id, content_update.as_str());
            assert(self.conversations@[i as int].thread == before_c.thread);
            assert(self@[i as int].1 =~= target[i as int].1);
            assert(self@[i as int] == target[i as int]);
            assert(forall|k: int| 0 <= k < self@.len() && k != i ==> self@[k] == before[k]);
            assert forall|k: int| 0 <= k < i + 1 implies #[trigger] self@[k] == target[k] by {
                if k < i {
                    assert(before[k] == target[k]);
                }
            }
            assert forall|k: int| i + 1 <= k < old_v.len() implies #[trigger] self@[k] == old_v[k] by {
                assert(before[k] == old_v[k]);
            }
            i = i + 1;
        }
        assert(self@ =~= target);
        proof {
            lemma_append_keeps_invariant(old_v, message_id, content_update@, self.next_thread_id, self.next_message_id, self.clock);
        }
        self.notifier.notify(DatabaseNotifierMessage::UpdateMessage(content_update));
    }

    /// The thread a session opens on: the most recently updated one, or a
    /// new thread named after `NEW_THREAD_TITLE` when the store holds none.
    pub fn latest_or_new_thread(&mut self) -> (r: Result<Thread, Error>)
        requires
            old(self).wf(),
        ensures
            final(self).wf(),
            old(self)@.len() > 0 ==> (r matches Ok(t) && t@ == old(self)@[0].0) && final(self)@
                == old(self)@ && final(self).events() == old(self).events(),
            old(self)@.len() == 0 ==> {
                &&& r is Ok <==> old(self).next_thread_id() < i64::MAX
                    && old(self).next_message_id() < i64::MAX && old(self).clock() < i64::MAX
                &&& r matches Ok(t) ==> t@.title == NEW_THREAD_TITLE@ && final(self)@.len() == 1
                    && final(self)@[0].0 == t@
                &&& r is Err ==> final(self)@ == old(self)@
            },
    {
        if self.conversations.len() > 0 {
            return Ok(self.conversations[0].thread.clone());
        }
        self.create_thread(NEW_THREAD_TITLE)
    }
}

fn append_in(messages: &mut Vec<Message>, id: i64, delta: &str)
    ensures
        message_views(final(messages)@) == Seq::new(
            old(messages)@.len(),
            |j: int| append_to(message_views(old(messages)@)[j], id, delta@),
        ),
{
    let ghost target = Seq::new(
        old(messages)@.len(),
        |j: int| append_to(message_views(old(messages)@)[j], id, delta@),
    );
    let mut j: usize = 0;
    while j < messages.len()
        invariant
            j <= messages@.len(),
            messages@.len() == old(messages)@.len(),
            target == Seq::new(
                old(messages)@.len(),
                |j: int| append_to(message_views(old(messages)@)[j], id, delta@),
            ),
            forall|k: int| 0 <= k < j ==> #[trigger] messages@[k]@ == target[k],
            forall|k: int| j <= k < messages@.len() ==> #[trigger] messages@[k] == old(messages)@[k],
        decreases messages@.len() - j,
    {
        if messages[j].id == id {
            messages[j].content.append(delta);
        }
        j = j + 1;
    }
    assert(message_views(messages@) =~= target);
}

proof fn lemma_append_keeps_invariant(
    v: StoreView,
    id: i64,
    delta: Seq<char>,
    nt: i64,
    nm: i64,
    clock: i64,
)
    requires
        store_invariant(v, nt, nm, clock),
    ensures
        store_invariant(append_message(v, id, delta), nt, nm, clock),
{
    let w = append_message(v, id, delta);
    assert forall|i: int| 0 <= i < w.len() implies thread_ok(#[trigger] w[i], nm) by {
        assert(thread_ok(v[i], nm));
        assert(w[i].1[0] == append_to(v[i].1[0], id, delta));
        assert forall|j: int| 0 <= j < w[i].1.len() implies (#[trigger] w[i].1[j]).thread_id
            == w[i].0.id && 0 < w[i].1[j].id < nm by {
            assert(w[i].1[j] == append_to(v[i].1[j], id, delta));
        }
    }
}

/// Title of a thread before one is generated for it.
pub const NEW_THREAD_TITLE: &'static str = "New Thread";

proof fn lemma_raise_message_bound(v: StoreView, nt: i64, nm: i64, nm2: i64, clock: i64)
    requires
        store_invariant(v, nt, nm, clock),
        nm <= nm2,
    ensures
        store_invariant(v, nt, nm2, clock),
{
    assert forall|i: int| 0 <= i < v.len() implies thread_ok(#[trigger] v[i], nm2) by {
        assert(thread_ok(v[i], nm));
    }
}

/// How many schema steps a store at `version` still has to apply.
pub open spec fn pending_migrations(version: u64) -> u64 {
    if version < SCHEMA_VERSION {
        (SCHEMA_VERSION - version) as u64
    } else {
        0
    }
}

} // verus!

verus! {

/// Every stored thread opens with a system message: whatever sequence of
/// operations built a well-kept store, each of its threads has a non-empty
/// message list whose first message has role system.
pub proof fn lemma_threads_open_with_system(db: &Database)
    requires
        db.wf(),
    ensures
        forall|i: int|
            0 <= i < db@.len() ==> (#[trigger] db@[i]).1.len() > 0 && db@[i].1[0].role
                == Role::System,
{
    assert forall|i: int| 0 <= i < db@.len() implies (#[trigger] db@[i]).1.len() > 0
        && db@[i].1[0].role == Role::System by {
        assert(thread_ok(db@[i], db.next_message_id()));
    }
}

/// Message ids are unique in a well-kept store, positive and below the
/// id the next message will get.
pub proof fn lemma_message_ids_unique(db: &Database)
    requires
        db.wf(),
    ensures
        forall|a: int, b: int, j1: int, j2: int|
            0 <= a < db@.len() && 0 <= b < db@.len() && 0 <= j1 < db@[a].1.len() && 0 <= j2
                < db@[b].1.len() && #[trigger] db@[a].1[j1].id == #[trigger] db@[b].1[j2].id
                ==> a == b && j1 == j2,
        forall|a: int, j: int|
            0 <= a < db@.len() && 0 <= j < db@[a].1.len() ==> 0 < #[trigger] db@[a].1[j].id
                < db.next_message_id(),
{
    let v = db@;
    assert forall|a: int, b: int, j1: int, j2: int|
        0 <= a < v.len() && 0 <= b < v.len() && 0 <= j1 < v[a].1.len() && 0 <= j2 < v[b].1.len()
            && #[trigger] v[a].1[j1].id == #[trigger] v[b].1[j2].id implies a == b && j1 == j2 by {
        if a == b {
            assert(thread_ok(v[a], db.next_message_id()));
            if j1 < j2 {
                assert(v[a].1[j1].id < v[a].1[j2].id);
            } else if j2 < j1 {
                assert(v[a].1[j2].id < v[a].1[j1].id);
            }
        }
    }
    assert forall|a: int, j: int| 0 <= a < v.len() && 0 <= j < v[a].1.len() implies 0
        < #[trigger] v[a].1[j].id < db.next_message_id() by {
        assert(thread_ok(v[a], db.next_message_id()));
    }
}

/// No stamp in a well-kept store is later than its clock, so the stamp a
/// write takes (the clock plus one) is later than every stamp stored.
pub proof fn lemma_stamps_bounded(db: &Database)
    requires
        db.wf(),
    ensures
        db.clock() >= 0,
        forall|a: int| 0 <= a < db@.len() ==> #[trigger] db@[a].0.last_updated_at <= db.clock(),
        forall|a: int, j: int|
            0 <= a < db@.len() && 0 <= j < db@[a].1.len() ==> #[trigger] db@[a].1[j].created_at
                <= db.clock(),
{
}

/// Thread ids are unique in a well-kept store.
pub proof fn lemma_thread_ids_unique(db: &Database)
    requires
        db.wf(),
    ensures
        forall|i: int, j: int|
            0 <= i < db@.len() && 0 <= j < db@.len() && #[trigger] db@[i].0.id == #[trigger] db@[j].0.id
                ==> i == j,
{
    assert forall|i: int, j: int|
        0 <= i < db@.len() && 0 <= j < db@.len() && #[trigger] db@[i].0.id == #[trigger] db@[j].0.id
            implies i == j by {
        if i < j {
            assert(db@[i].0.id != db@[j].0.id);
        }
        if j < i {
            assert(db@[j].0.id != db@[i].0.id);
        }
    }
}

/// The store after a run of appends, each a message id and a delta, in
/// order.
pub open spec fn apply_appends(v: StoreView, ops: Seq<(i64, Seq<char>)>) -> StoreView
    decreases ops.len(),
{
    if ops.len() == 0 {
        v
    } else {
        append_message(apply_appends(v, ops.drop_last()), ops.last().0, ops.last().1)
    }
}

/// The deltas of a run of appends meant for message `id`, concatenated in
/// order.
pub open spec fn deltas_for(ops: Seq<(i64, Seq<char>)>, id: i64) -> Seq<char>
    decreases ops.len(),
{
    if ops.len() == 0 {
        Seq::empty()
    } else {
        deltas_for(ops.drop_last(), id) + if ops.last().0 == id {
            ops.last().1
        } else {
            Seq::empty()
        }
    }
}

/// Appends keep their order: after any run of appends, interleaved across
/// messages and threads in any way, each message holds its earlier content
/// followed by exactly the deltas meant for it, in the order they were
/// applied; its id, thread, timestamp and role are unchanged, as are the
/// threads.
pub proof fn lemma_append_ordering(v: StoreView, ops: Seq<(i64, Seq<char>)>, i: int, j: int)
    requires
        0 <= i < v.len(),
        0 <= j < v[i].1.len(),
    ensures
        apply_appends(v, ops).len() == v.len(),
        apply_appends(v, ops)[i].0 == v[i].0,
        apply_appends(v, ops)[i].1.len() == v[i].1.len(),
        apply_appends(v, ops)[i].1[j] == (MessageView {
            content: v[i].1[j].content + deltas_for(ops, v[i].1[j].id),
            ..v[i].1[j]
        }),
    decreases ops.len(),
{
    if ops.len() == 0 {
        assert(v[i].1[j].content + Seq::<char>::empty() =~= v[i].1[j].content);
    } else {
        lemma_append_ordering(v, ops.drop_last(), i, j);
        let m = v[i].1[j];
        let d = if ops.last().0 == m.id {
            ops.last().1
        } else {
            Seq::<char>::empty()
        };
        assert(m.content + deltas_for(ops.drop_last(), m.id) + d =~= m.content + (deltas_for(
            ops.drop_last(),
            m.id,
        ) + d));
    }
}

/// Migrating twice in a row: a store that one run has migrated has no step
/// left, so a second run applies nothing and, by the contract of
/// `run_migrations`, leaves the store as it was.
pub proof fn lemma_migrations_idempotent(db: &Database)
    requires
        db.schema_version() == SCHEMA_VERSION,
    ensures
        pending_migrations(db.schema_version()) == 0,
{
}

} // verus!

verus! {

/// Whether the store holds a message with this id and content.
pub open spec fn has_message(v: StoreView, id: i64, content: Seq<char>) -> bool {
    exists|a: int, j: int|
        0 <= a < v.len() && 0 <= j < v[a].1.len() && #[trigger] v[a].1[j].id == id
            && v[a].1[j].content == content
}

/// Whether every message of `prev` is still in `next`, with its content.
pub open spec fn keeps_messages(prev: StoreView, next: StoreView) -> bool {
    forall|id: i64, c: Seq<char>| #[trigger] has_message(prev, id, c) ==> has_message(next, id, c)
}

/// One step of a run of store writes: an append of a delta to a message
/// (`Some((id, delta))`), or a write that keeps every message and its
/// content (`None`), such as a new thread, a new message or a title update.
pub open spec fn step_ok(prev: StoreView, next: StoreView, op: Option<(i64, Seq<char>)>) -> bool {
    match op {
        Some((id, d)) => next == append_message(prev, id, d),
        None => keeps_messages(prev, next),
    }
}

/// The deltas of a run of writes meant for message `id`, in order.
pub open spec fn appended_to(ops: Seq<Option<(i64, Seq<char>)>>, id: i64) -> Seq<char>
    decreases ops.len(),
{
    if ops.len() == 0 {
        Seq::empty()
    } else {
        appended_to(ops.drop_last(), id) + match ops.last() {
            Some((k, d)) => if k == id {
                d
            } else {
                Seq::empty()
            },
            None => Seq::empty(),
        }
    }
}

/// Appends keep their order across any interleaving of writes: through a
/// run of stores `vs[0]`, ..., `vs[n]` where each step is an append or a
/// write that keeps messages (new threads, new messages, title updates, in
/// any thread), a message that held `c` at the start holds `c` followed by
/// exactly the deltas appended to it, in the order they were applied. With
/// `lemma_message_ids_unique` this is its content.
pub proof fn lemma_append_order_interleaved(
    vs: Seq<StoreView>,
    ops: Seq<Option<(i64, Seq<char>)>>,
    id: i64,
    c: Seq<char>,
)
    requires
        vs.len() == ops.len() + 1,
        forall|k: int| 0 <= k < ops.len() ==> #[trigger] step_ok(vs[k], vs[k + 1], ops[k]),
        has_message(vs[0], id, c),
    ensures
        has_message(vs.last(), id, c + appended_to(ops, id)),
    decreases ops.len(),
{
    if ops.len() == 0 {
        assert(c + Seq::<char>::empty() =~= c);
        assert(vs.last() == vs[0]);
    } else {
        let n = ops.len() - 1;
        let init_vs = vs.subrange(0, n + 1);
        let init_ops = ops.drop_last();
        assert forall|k: int| 0 <= k < init_ops.len() implies #[trigger] step_ok(
            init_vs[k],
            init_vs[k + 1],
            init_ops[k],
        ) by {
            assert(step_ok(vs[k], vs[k + 1], ops[k]));
        }
        lemma_append_order_interleaved(init_vs, init_ops, id, c);
        let before = c + appended_to(init_ops, id);
        let prev = vs[n];
        let next = vs[n + 1];
        assert(vs.last() == next);
        assert(init_vs.last() == prev);
        assert(step_ok(prev, next, ops[n]));
        assert(ops.last() == ops[n]);
        let (a, j) = choose|a: int, j: int|
            0 <= a < prev.len() && 0 <= j < prev[a].1.len() && #[trigger] prev[a].1[j].id == id
                && prev[a].1[j].content == before;
        match ops[n] {
            Some((k, d)) => {
                let extra = if k == id { d } else { Seq::<char>::empty() };
                assert(next[a].1[j] == append_to(prev[a].1[j], k, d));
                assert(next[a].1[j].content == before + extra);
                assert(c + appended_to(ops, id) =~= before + extra);
                assert(next[a].1[j].id == id);
                assert(has_message(next, id, c + appended_to(ops, id)));
            },
            None => {
                assert(has_message(prev, id, before));
                assert(c + appended_to(ops, id) =~= before);
                assert(has_message(next, id, c + appended_to(ops, id)));
            },
        }
    }
}

/// A write that replaces a thread by one whose messages extend its own (a
/// new message, a new title) and moves it to the front keeps every message.
pub proof fn lemma_move_front_keeps(v: StoreView, i: int, x: (ThreadView, Seq<MessageView>))
    requires
        0 <= i < v.len(),
        v[i].1.len() <= x.1.len(),
        x.1.subrange(0, v[i].1.len() as int) == v[i].1,
    ensures
        keeps_messages(v, move_front(v, i, x)),
{
    let w = move_front(v, i, x);
    assert forall|id: i64, c: Seq<char>| #[trigger] has_message(v, id, c) implies has_message(
        w,
        id,
        c,
    ) by {
        let (a, j) = choose|a: int, j: int|
            0 <= a < v.len() && 0 <= j < v[a].1.len() && #[trigger] v[a].1[j].id == id
                && v[a].1[j].content == c;
        if a == i {
            assert(x.1[j] == x.1.subrange(0, v[i].1.len() as int)[j]);
            assert(w[0].1[j].id == id);
        } else if a < i {
            assert(w[a + 1] == v[a]);
            assert(w[a + 1].1[j].id == id);
        } else {
            assert(w[a] == v[a]);
            assert(w[a].1[j].id == id);
        }
    }
}

/// A new thread at the front keeps every message.
pub proof fn lemma_new_thread_keeps(v: StoreView, x: (ThreadView, Seq<MessageView>))
    ensures
        keeps_messages(v, seq![x] + v),
{
    let w = seq![x] + v;
    assert forall|id: i64, c: Seq<char>| #[trigger] has_message(v, id, c) implies has_message(
        w,
        id,
        c,
    ) by {
        let (a, j) = choose|a: int, j: int|
            0 <= a < v.len() && 0 <= j < v[a].1.len() && #[trigger] v[a].1[j].id == id
                && v[a].1[j].content == c;
        assert(w[a + 1] == v[a]);
        assert(w[a + 1].1[j].id == id);
    }
}

} // verus!
