//! Per-channel chat log with idempotent, deduplicating insertion.
//!
//! The store holds the in-memory journal of one channel.  The surrounding
//! binary persists the journal by writing the full sequence out after a
//! mutation and rebuilds it through [`ChatStore::from_snapshot`] on open.

use vstd::prelude::*;
use crate::message::ChatMessage;

verus! {

/// Whether some entry of `log` carries identifier `id`.
pub open spec fn log_has_id(log: Seq<ChatMessage>, id: u128) -> bool {
    exists|i: int| 0 <= i < log.len() && log[i].id == id
}

/// Idempotent insertion: a message whose identifier is already present
/// leaves the log unchanged; any other message is appended at the tail.
pub open spec fn log_insert(log: Seq<ChatMessage>, m: ChatMessage) -> Seq<ChatMessage> {
    if log_has_id(log, m.id) {
        log
    } else {
        log.push(m)
    }
}

/// A log rebuilt by inserting each entry of `msgs` in order.
pub open spec fn replay(msgs: Seq<ChatMessage>) -> Seq<ChatMessage>
    decreases msgs.len(),
{
    if msgs.len() == 0 {
        Seq::<ChatMessage>::empty()
    } else {
        log_insert(replay(msgs.drop_last()), msgs.last())
    }
}

/// The views of a log's entries.
pub open spec fn log_views(log: Seq<ChatMessage>) -> Seq<crate::message::ChatMessageView> {
    log.map_values(|m: ChatMessage| m@)
}

/// Inserting either of two messages with the same view leaves logs with the
/// same views.
pub proof fn lemma_log_insert_views(log: Seq<ChatMessage>, a: ChatMessage, b: ChatMessage)
    requires
        a@ == b@,
    ensures
        log_views(log_insert(log, a)) == log_views(log_insert(log, b)),
{
    assert(a.id == b.id);
    if !log_has_id(log, a.id) {
        assert(log_views(log.push(a)) =~= log_views(log).push(a@));
        assert(log_views(log.push(b)) =~= log_views(log).push(b@));
    }
}

/// No two entries of the log share an identifier.
pub open spec fn unique_ids(log: Seq<ChatMessage>) -> bool {
    forall|i: int, j: int| 0 <= i < j < log.len() ==> log[i].id != log[j].id
}

/// How many entries of `log` carry identifier `id`.
pub open spec fn count_id(log: Seq<ChatMessage>, id: u128) -> nat
    decreases log.len(),
{
    if log.len() == 0 {
        0
    } else {
        count_id(log.drop_last(), id) + (if log.last().id == id {
            1nat
        } else {
            0nat
        })
    }
}

/// Append-only journal of one channel, ordered by arrival at this node.
pub struct ChatStore {
    messages: Vec<ChatMessage>,
}

impl View for ChatStore {
    type V = Seq<ChatMessage>;

    closed spec fn view(&self) -> Seq<ChatMessage> {
        self.messages@
    }
}

impl ChatStore {
    /// The store's invariant: entry identifiers are unique.
    pub open spec fn wf(&self) -> bool {
        unique_ids(self@)
    }

    /// An empty store, as created for a channel without a journal file.
    pub fn new() -> (r: ChatStore)
        ensures
            r@.len() == 0,
            r.wf(),
    {
        ChatStore { messages: Vec::new() }
    }

    /// Rebuilds a store from a persisted snapshot, inserting each entry in
    /// order; duplicate identifiers in a foreign snapshot collapse to the
    /// first occurrence.
    pub fn from_snapshot(msgs: Vec<ChatMessage>) -> (r: ChatStore)
        ensures
            r@ == replay(msgs@),
            r.wf(),
    {
        let ghost all = msgs@;
        let mut rest = msgs;
        let mut store = ChatStore { messages: Vec::new() };
        let ghost mut done: int = 0;
        proof {
            assert(all.take(0) =~= Seq::<ChatMessage>::empty());
            assert(rest@ =~= all.skip(0));
        }
        while rest.len() > 0
            invariant
                0 <= done <= all.len(),
                rest@ == all.skip(done),
                store@ == replay(all.take(done)),
                store.wf(),
            decreases rest@.len(),
        {
            let m = rest.remove(0);
            proof {
                assert(all.skip(done)[0] == all[done]);
                assert(rest@ =~= all.skip(done + 1));
            }
            store.append(m);
            proof {
                done = done + 1;
                let taken = all.take(done);
                assert(taken.drop_last() =~= all.take(done - 1));
                assert(taken.last() == all[done - 1]);
            }
        }
        proof {
            assert(all.take(all.len() as int) =~= all);
        }
        store
    }

    /// Idempotent append: if an entry with the same identifier exists, the
    /// log is unchanged; otherwise the message is appended at the tail.
    pub fn append(&mut self, message: ChatMessage)
        requires
            old(self).wf(),
        ensures
            final(self)@ == log_insert(old(self)@, message),
            final(self).wf(),
    {
        let n = self.messages.len();
        let mut i: usize = 0;
        while i < n
            invariant
                i <= n,
                n == self@.len(),
                self.wf(),
                self@ == old(self)@,
                forall|j: int| 0 <= j < i ==> self@[j].id != message.id,
            decreases n - i,
        {
            if self.messages[i].id == message.id {
                return ;
            }
            i = i + 1;
        }
        self.messages.push(message);
    }

    /// A defensive copy of the log, in order.
    pub fn messages(&self) -> (r: Vec<ChatMessage>)
        ensures
            r@.len() == self@.len(),
            forall|i: int| 0 <= i < r@.len() ==> #[trigger] r@[i]@ == self@[i]@,
    {
        let r = self.messages.clone();
        proof {
            assert forall|i: int| 0 <= i < r@.len() implies r@[i]@ == self@[i]@ by {
                assert(cloned(self.messages@[i], r@[i]));
            }
        }
        r
    }

    /// Number of entries in the log.
    pub fn len(&self) -> (r: usize)
        ensures
            r == self@.len(),
    {
        self.messages.len()
    }
}

proof fn lemma_count_id_absent(log: Seq<ChatMessage>, id: u128)
    requires
        !log_has_id(log, id),
    ensures
        count_id(log, id) == 0,
    decreases log.len(),
{
    if log.len() > 0 {
        assert(forall|i: int| 0 <= i < log.len() - 1 ==> log.drop_last()[i] == log[i]);
        lemma_count_id_absent(log.drop_last(), id);
    }
}

proof fn lemma_count_id_present(log: Seq<ChatMessage>, id: u128)
    requires
        unique_ids(log),
        log_has_id(log, id),
    ensures
        count_id(log, id) == 1,
    decreases log.len(),
{
    let rest = log.drop_last();
    assert(forall|i: int| 0 <= i < rest.len() ==> rest[i] == log[i]);
    if log.last().id == id {
        assert(!log_has_id(rest, id));
        lemma_count_id_absent(rest, id);
    } else {
        let i = choose|i: int| 0 <= i < log.len() && log[i].id == id;
        assert(0 <= i < rest.len() && rest[i].id == id);
        lemma_count_id_present(rest, id);
    }
}

/// Law: insertion is idempotent, and on a log with unique identifiers an
/// insert leaves exactly one entry bearing the inserted identifier, however
/// often the same message is inserted again.
pub proof fn lemma_append_idempotent(log: Seq<ChatMessage>, m: ChatMessage)
    ensures
        log_insert(log_insert(log, m), m) == log_insert(log, m),
        unique_ids(log) ==> count_id(log_insert(log, m), m.id) == 1,
{
    let once = log_insert(log, m);
    assert(log_has_id(once, m.id)) by {
        if log_has_id(log, m.id) {
        } else {
            assert(once[log.len() as int].id == m.id);
        }
    }
    if unique_ids(log) {
        if log_has_id(log, m.id) {
            lemma_count_id_present(log, m.id);
        } else {
            lemma_count_id_absent(log, m.id);
            assert(once.drop_last() =~= log);
            assert(once.last() == m);
        }
    }
}

/// The log after inserting the same message `n` times over.
pub open spec fn insert_times(log: Seq<ChatMessage>, m: ChatMessage, n: nat) -> Seq<ChatMessage>
    decreases n,
{
    if n == 0 {
        log
    } else {
        log_insert(insert_times(log, m, (n - 1) as nat), m)
    }
}

/// Law: inserting a message any number of times is the same as inserting it
/// once, so a log with unique identifiers keeps exactly one entry bearing
/// that identifier however often gossip redelivers the message.
pub proof fn lemma_append_many(log: Seq<ChatMessage>, m: ChatMessage, n: nat)
    requires
        n >= 1,
    ensures
        insert_times(log, m, n) == log_insert(log, m),
        unique_ids(log) ==> count_id(insert_times(log, m, n), m.id) == 1,
    decreases n,
{
    lemma_append_idempotent(log, m);
    assert(insert_times(log, m, n) == log_insert(insert_times(log, m, (n - 1) as nat), m));
    if n > 1 {
        lemma_append_many(log, m, (n - 1) as nat);
    } else {
        assert(insert_times(log, m, 0) == log);
    }
}

/// Law: a log with unique identifiers survives the persistence round trip:
/// replaying the persisted sequence rebuilds the very same sequence.
pub proof fn lemma_replay_round_trip(log: Seq<ChatMessage>)
    requires
        unique_ids(log),
    ensures
        replay(log) == log,
    decreases log.len(),
{
    if log.len() > 0 {
        let rest = log.drop_last();
        assert(forall|i: int| 0 <= i < rest.len() ==> rest[i] == log[i]);
        lemma_replay_round_trip(rest);
        assert(!log_has_id(rest, log.last().id));
        assert(rest.push(log.last()) =~= log);
    }
}

} // verus!
