//! The broadcast registry: subscriptions, their mailboxes, publish
//! fan-out, unsubscribe acknowledgment, and cleanup of dead subscribers.
//!
//! A subscription's topic is stored in the subscription itself, so the
//! topic registry of the design (topic to id set, id to mailbox) is one
//! structure here and cannot fall out of step with itself. Entries are
//! never removed: a closed subscription stays as an inactive entry, which
//! is how a subscriber keeps draining messages queued before the close.

use vstd::prelude::*;
use vstd::string::StringExecFns;

use crate::error::{KvError, KvErrorV};
use crate::pb::{CommandResponse, CommandResponseV, Value, ValueV, values_view};
use crate::text::{spec_u64_dec, u64_dec};

verus! {

/// The capacity a live mailbox channel is created with.
pub const MAILBOX_CAPACITY: usize = 128;

/// The first message of a subscription stream: it carries the id the
/// broadcaster issued, as an integer value, under status 200.
pub open spec fn subscribe_message(id: u32) -> CommandResponseV {
    CommandResponseV::ok_values(seq![ValueV::Int(id as i64)])
}

/// The message a publish fans out: the published values under status 200.
pub open spec fn publish_message(data: Seq<ValueV>) -> CommandResponseV {
    CommandResponseV::ok_values(data)
}

/// Mathematical view of one subscription.
#[verifier::ext_equal]
pub struct SubV {
    pub id: u32,
    pub topic: Seq<char>,
    pub queue: Seq<CommandResponseV>,
    pub receiver_open: bool,
    pub active: bool,
}

/// Mathematical view of the broadcaster.
#[verifier::ext_equal]
pub struct PubSubV {
    pub next_id: u32,
    pub subs: Seq<SubV>,
}

impl PubSubV {
    /// Ids are issued in strictly increasing order and never reused: each
    /// entry's id is below `next_id`, and entries are ordered by id.
    pub open spec fn wf(self) -> bool {
        &&& self.next_id >= 1
        &&& forall|j: int| 0 <= j < self.subs.len() ==> (#[trigger] self.subs[j].id) < self.next_id
        &&& forall|i: int, j: int|
            0 <= i < j < self.subs.len() ==> self.subs[i].id < self.subs[j].id
    }
}

/// The index of the entry carrying `id`, or -1.
pub open spec fn sub_index(s: Seq<SubV>, id: u32) -> int
    decreases s.len(),
{
    if s.len() == 0 {
        -1
    } else if s.last().id == id {
        s.len() - 1
    } else {
        sub_index(s.drop_last(), id)
    }
}

/// `sub_index` finds a well-placed entry and nothing else.
pub proof fn lemma_sub_index(s: Seq<SubV>, id: u32)
    ensures
        sub_index(s, id) == -1 ==> forall|j: int| 0 <= j < s.len() ==> s[j].id != id,
        sub_index(s, id) != -1 ==> 0 <= sub_index(s, id) < s.len() && s[sub_index(s, id)].id
            == id,
    decreases s.len(),
{
    if s.len() > 0 {
        assert(s.last() == s[s.len() - 1]);
        lemma_sub_index(s.drop_last(), id);
        if s.last().id != id {
            assert(forall|j: int| 0 <= j < s.len() - 1 ==> s[j] == s.drop_last()[j]);
        }
    }
}

/// With distinct ids, any entry carrying `id` is the one `sub_index`
/// finds.
pub proof fn lemma_sub_index_unique(s: Seq<SubV>, id: u32, j: int)
    requires
        forall|a: int, b: int| 0 <= a < b < s.len() ==> s[a].id < s[b].id,
        0 <= j < s.len(),
        s[j].id == id,
    ensures
        sub_index(s, id) == j,
    decreases s.len(),
{
    assert(s.last() == s[s.len() - 1]);
    if j == s.len() - 1 {
    } else {
        assert(s[j].id < s[s.len() - 1].id);
        assert(forall|a: int| 0 <= a < s.len() - 1 ==> s[a] == s.drop_last()[a]);
        lemma_sub_index_unique(s.drop_last(), id, j);
    }
}

/// Opening a subscription: the next id is issued, and a new active entry
/// appears whose mailbox already holds the id-discovery message.
pub open spec fn spec_subscribe(m: PubSubV, topic: Seq<char>) -> PubSubV {
    PubSubV {
        next_id: (m.next_id + 1) as u32,
        subs: m.subs.push(
            SubV {
                id: m.next_id,
                topic: topic,
                queue: seq![subscribe_message(m.next_id)],
                receiver_open: true,
                active: true,
            },
        ),
    }
}

/// Whether a publish to `topic` reaches this subscription's mailbox.
pub open spec fn gets_publish(sub: SubV, topic: Seq<char>) -> bool {
    sub.active && sub.topic == topic && sub.receiver_open
}

/// Publishing to a topic: every active subscription of the topic whose
/// receiver is still there gets the message appended to its mailbox; one
/// whose receiver is gone is cleaned up (deactivated, no sentinel).
pub open spec fn spec_publish(m: PubSubV, topic: Seq<char>, data: Seq<ValueV>) -> PubSubV {
    PubSubV {
        next_id: m.next_id,
        subs: Seq::new(
            m.subs.len(),
            |j: int|
                {
                    let sub = m.subs[j];
                    if gets_publish(sub, topic) {
                        SubV { queue: sub.queue.push(publish_message(data)), ..sub }
                    } else if sub.active && sub.topic == topic {
                        SubV { active: false, ..sub }
                    } else {
                        sub
                    }
                },
        ),
    }
}

/// How many subscriptions a publish to `topic` would deliver to.
pub open spec fn count_receiving(s: Seq<SubV>, topic: Seq<char>) -> nat
    decreases s.len(),
{
    if s.len() == 0 {
        0
    } else {
        count_receiving(s.drop_last(), topic) + (if gets_publish(s.last(), topic) {
            1nat
        } else {
            0nat
        })
    }
}

/// Closing a subscription by id: if an active entry carries the id, it is
/// deactivated and the status-0 sentinel is put in its mailbox; the
/// second component says whether one was found.
pub open spec fn spec_unsubscribe(m: PubSubV, id: u32) -> (PubSubV, bool) {
    let j = sub_index(m.subs, id);
    if j >= 0 && m.subs[j].active {
        (
            PubSubV {
                next_id: m.next_id,
                subs: m.subs.update(
                    j,
                    SubV {
                        active: false,
                        queue: m.subs[j].queue.push(CommandResponseV::sentinel()),
                        ..m.subs[j]
                    },
                ),
            },
            true,
        )
    } else {
        (m, false)
    }
}

/// Tearing a subscription down without an acknowledgment: the path a
/// failed send takes when the receiver is already gone. If an active
/// entry carries the id it is deactivated; no sentinel is queued.
pub open spec fn spec_remove_subscription(m: PubSubV, id: u32) -> (PubSubV, bool) {
    let j = sub_index(m.subs, id);
    if j >= 0 && m.subs[j].active {
        (
            PubSubV {
                next_id: m.next_id,
                subs: m.subs.update(j, SubV { active: false, ..m.subs[j] }),
            },
            true,
        )
    } else {
        (m, false)
    }
}

/// What one receive on a mailbox yields.
pub enum RecvOutcomeV {
    Message(CommandResponseV),
    Pending,
    Closed,
}

/// One receive: the front of the mailbox if there is one; `Closed` once
/// the mailbox is empty and the sender side is gone; `Pending` when the
/// mailbox is empty but the subscription is still live.
pub open spec fn spec_recv(m: PubSubV, id: u32) -> (PubSubV, RecvOutcomeV) {
    let j = sub_index(m.subs, id);
    if j < 0 {
        (m, RecvOutcomeV::Closed)
    } else {
        let sub = m.subs[j];
        if sub.queue.len() > 0 {
            (
                PubSubV {
                    next_id: m.next_id,
                    subs: m.subs.update(j, SubV { queue: sub.queue.drop_first(), ..sub }),
                },
                RecvOutcomeV::Message(sub.queue[0]),
            )
        } else if !sub.active {
            (m, RecvOutcomeV::Closed)
        } else {
            (m, RecvOutcomeV::Pending)
        }
    }
}

/// Dropping a receiver: the subscription's mailbox loses its reader; the
/// broadcaster notices only on the next publish.
pub open spec fn spec_drop_receiver(m: PubSubV, id: u32) -> PubSubV {
    let j = sub_index(m.subs, id);
    if j >= 0 {
        PubSubV {
            next_id: m.next_id,
            subs: m.subs.update(j, SubV { receiver_open: false, ..m.subs[j] }),
        }
    } else {
        m
    }
}

/// Subscription ids are issued in strictly increasing order and never
/// reused: a subscribe issues exactly `next_id` and raises it, no
/// existing entry carries the issued id, and no operation moves, removes
/// or renumbers an entry or lowers `next_id`.
pub proof fn lemma_subscription_ids_monotonic(
    m: PubSubV,
    topic: Seq<char>,
    id: u32,
    data: Seq<ValueV>,
)
    requires
        m.wf(),
        m.next_id < u32::MAX,
    ensures
        spec_subscribe(m, topic).next_id > m.next_id,
        spec_subscribe(m, topic).subs.last().id == m.next_id,
        forall|j: int| 0 <= j < m.subs.len() ==> (#[trigger] m.subs[j].id) != m.next_id,
        forall|j: int|
            0 <= j < m.subs.len() ==> #[trigger] spec_subscribe(m, topic).subs[j] == m.subs[j],
        spec_subscribe(m, topic).wf(),
        spec_publish(m, topic, data).next_id == m.next_id,
        spec_publish(m, topic, data).wf(),
        forall|j: int|
            0 <= j < m.subs.len() ==> (#[trigger] spec_publish(m, topic, data).subs[j].id)
                == m.subs[j].id,
        spec_unsubscribe(m, id).0.next_id == m.next_id,
        spec_unsubscribe(m, id).0.wf(),
        spec_recv(m, id).0.next_id == m.next_id,
        spec_recv(m, id).0.wf(),
        spec_drop_receiver(m, id).next_id == m.next_id,
        spec_drop_receiver(m, id).wf(),
{
    let m1 = spec_subscribe(m, topic);
    assert forall|a: int, b: int| 0 <= a < b < m1.subs.len() implies m1.subs[a].id
        < m1.subs[b].id by {
        if b < m1.subs.len() - 1 {
            assert(m1.subs[a] == m.subs[a]);
            assert(m1.subs[b] == m.subs[b]);
        } else {
            assert(m1.subs[a] == m.subs[a]);
        }
    }
    lemma_sub_index(m.subs, id);
}

/// For one subscriber that keeps draining, messages come out of the
/// mailbox in the order they were published: a publish appends to the
/// mailbox and a receive takes from its front, which this shows on two
/// publishes followed by two receives.
pub proof fn lemma_publish_order_preserved(
    m: PubSubV,
    topic: Seq<char>,
    d1: Seq<ValueV>,
    d2: Seq<ValueV>,
    id: u32,
)
    requires
        m.wf(),
        sub_index(m.subs, id) >= 0,
        gets_publish(m.subs[sub_index(m.subs, id)], topic),
        m.subs[sub_index(m.subs, id)].queue.len() == 0,
    ensures
        ({
            let m1 = spec_publish(m, topic, d1);
            let m2 = spec_publish(m1, topic, d2);
            let first = spec_recv(m2, id);
            let second = spec_recv(first.0, id);
            &&& first.1 == RecvOutcomeV::Message(publish_message(d1))
            &&& second.1 == RecvOutcomeV::Message(publish_message(d2))
        }),
{
    let j = sub_index(m.subs, id);
    lemma_sub_index(m.subs, id);
    let m1 = spec_publish(m, topic, d1);
    let m2 = spec_publish(m1, topic, d2);
    lemma_sub_index_unique(m1.subs, id, j);
    lemma_sub_index_unique(m2.subs, id, j);
    assert(m2.subs[j].queue =~= seq![publish_message(d1), publish_message(d2)]);
    let first = spec_recv(m2, id);
    assert(first.0.subs[j].queue =~= seq![publish_message(d2)]);
    lemma_sub_index_unique(first.0.subs, id, j);
}

/// Once a subscription is closed, a publish to its topic puts nothing in
/// its mailbox.
pub proof fn lemma_unsubscribe_stops_delivery(
    m: PubSubV,
    topic: Seq<char>,
    id: u32,
    data: Seq<ValueV>,
)
    requires
        m.wf(),
        spec_unsubscribe(m, id).1,
    ensures
        ({
            let m1 = spec_unsubscribe(m, id).0;
            let m2 = spec_publish(m1, topic, data);
            let j = sub_index(m.subs, id);
            &&& !m2.subs[j].active
            &&& m2.subs[j].queue == m1.subs[j].queue
        }),
{
    lemma_sub_index(m.subs, id);
}

/// A publish to a topic appends exactly one message, carrying exactly
/// the published values, to the mailbox of every subscription it reaches
/// (`count_receiving` of them), and touches no other mailbox: a publish
/// of N values to K live subscribers hands out K messages of N values
/// each.
pub proof fn lemma_publish_fanout(m: PubSubV, topic: Seq<char>, data: Seq<ValueV>)
    requires
        m.wf(),
    ensures
        forall|j: int|
            0 <= j < m.subs.len() && gets_publish(#[trigger] m.subs[j], topic) ==> spec_publish(
                m,
                topic,
                data,
            ).subs[j].queue == m.subs[j].queue.push(publish_message(data)),
        forall|j: int|
            0 <= j < m.subs.len() && !gets_publish(#[trigger] m.subs[j], topic) ==> spec_publish(
                m,
                topic,
                data,
            ).subs[j].queue == m.subs[j].queue,
        publish_message(data).values == data,
{
}

/// A subscriber that goes away without unsubscribing is cleaned up by
/// the next publish to its topic: the subscription is then closed, and a
/// later explicit unsubscribe of its id reports it as not found.
pub proof fn lemma_dropped_receiver_cleanup(m: PubSubV, topic: Seq<char>, data: Seq<ValueV>)
    requires
        m.wf(),
        m.next_id < u32::MAX,
    ensures
        ({
            let id = m.next_id;
            let m1 = spec_subscribe(m, topic);
            let m2 = spec_drop_receiver(m1, id);
            let m3 = spec_publish(m2, topic, data);
            let j = sub_index(m3.subs, id);
            &&& 0 <= j < m3.subs.len()
            &&& !m3.subs[j].active
            &&& spec_unsubscribe(m3, id) == (m3, false)
        }),
{
    let id = m.next_id;
    let m1 = spec_subscribe(m, topic);
    lemma_subscription_ids_monotonic(m, topic, id, data);
    let j = m.subs.len() as int;
    lemma_sub_index_unique(m1.subs, id, j);
    let m2 = spec_drop_receiver(m1, id);
    assert forall|a: int, b: int| 0 <= a < b < m2.subs.len() implies m2.subs[a].id
        < m2.subs[b].id by {
        assert(m2.subs[a].id == m1.subs[a].id);
        assert(m2.subs[b].id == m1.subs[b].id);
    }
    lemma_sub_index_unique(m2.subs, id, j);
    let m3 = spec_publish(m2, topic, data);
    assert forall|a: int, b: int| 0 <= a < b < m3.subs.len() implies m3.subs[a].id
        < m3.subs[b].id by {
        assert(m3.subs[a].id == m2.subs[a].id);
        assert(m3.subs[b].id == m2.subs[b].id);
    }
    lemma_sub_index_unique(m3.subs, id, j);
    assert(!m3.subs[j].active);
}

/// One subscription and its queued messages.
struct SubEntry {
    id: u32,
    topic: String,
    queue: Vec<CommandResponse>,
    receiver_open: bool,
    active: bool,
}

impl View for SubEntry {
    type V = SubV;

    closed spec fn view(&self) -> SubV {
        SubV {
            id: self.id,
            topic: self.topic@,
            queue: self.queue@.map_values(|r: CommandResponse| r@),
            receiver_open: self.receiver_open,
            active: self.active,
        }
    }
}

/// What one receive on a mailbox yields.
pub enum RecvOutcome {
    Message(CommandResponse),
    Pending,
    Closed,
}

impl View for RecvOutcome {
    type V = RecvOutcomeV;

    open spec fn view(&self) -> RecvOutcomeV {
        match self {
            RecvOutcome::Message(r) => RecvOutcomeV::Message(r@),
            RecvOutcome::Pending => RecvOutcomeV::Pending,
            RecvOutcome::Closed => RecvOutcomeV::Closed,
        }
    }
}

/// The broadcaster: the topic registry and every subscription's mailbox.
pub struct PubSub {
    next_id: u32,
    subs: Vec<SubEntry>,
}

impl View for PubSub {
    type V = PubSubV;

    closed spec fn view(&self) -> PubSubV {
        PubSubV { next_id: self.next_id, subs: self.subs@.map_values(|e: SubEntry| e@) }
    }
}

impl PubSub {
    /// A broadcaster with no subscriptions; ids start at 1.
    pub fn new() -> (r: Self)
        ensures
            r@ == (PubSubV { next_id: 1u32, subs: Seq::<SubV>::empty() }),
            r@.wf(),
    {
        let r = PubSub { next_id: 1, subs: Vec::new() };
        proof {
            assert(r@.subs =~= Seq::<SubV>::empty());
        }
        r
    }

    /// The index of the entry carrying `id`.
    fn find_sub(&self, id: u32) -> (r: Option<usize>)
        ensures
            match r {
                Some(j) => j < self@.subs.len() && self@.subs[j as int].id == id,
                None => forall|j: int| 0 <= j < self@.subs.len() ==> self@.subs[j].id != id,
            },
    {
        let mut j: usize = 0;
        while j < self.subs.len()
            invariant
                j <= self.subs@.len(),
                self@.subs.len() == self.subs@.len(),
                forall|l: int| 0 <= l < j ==> self@.subs[l].id != id,
            decreases self.subs@.len() - j,
        {
            if self.subs[j].id == id {
                return Some(j);
            }
            j = j + 1;
        }
        None
    }

    /// Opens a subscription on a topic and returns its id. The
    /// id-discovery message is already in the new mailbox.
    pub fn subscribe(&mut self, name: String) -> (id: u32)
        requires
            old(self)@.wf(),
            old(self)@.next_id < u32::MAX,
        ensures
            final(self)@ == spec_subscribe(old(self)@, name@),
            final(self)@.wf(),
            id == old(self)@.next_id,
    {
        let id = self.next_id;
        self.next_id = id + 1;
        let mut queue: Vec<CommandResponse> = Vec::new();
        queue.push(CommandResponse::of_value(Value::Int(id as i64)));
        self.subs.push(SubEntry { id, topic: name, queue, receiver_open: true, active: true });
        proof {
            let new_last = self.subs@.last()@;
            assert(new_last.queue =~= seq![subscribe_message(id)]);
            assert(self@.subs =~= old(self)@.subs.push(new_last));
            assert(new_last =~= (SubV {
                id: id,
                topic: name@,
                queue: seq![subscribe_message(id)],
                receiver_open: true,
                active: true,
            }));
            let m2 = spec_subscribe(old(self)@, name@);
            assert(self@.subs =~= m2.subs);
            assert forall|a: int, b: int|
                0 <= a < b < self@.subs.len() implies self@.subs[a].id < self@.subs[b].id by {
                if b < self@.subs.len() - 1 {
                    assert(self@.subs[a] == old(self)@.subs[a]);
                    assert(self@.subs[b] == old(self)@.subs[b]);
                } else {
                    assert(self@.subs[a] == old(self)@.subs[a]);
                }
            }
        }
        id
    }

    /// Fans a message carrying `data` out to every active subscription of
    /// the topic; a subscription whose receiver is gone is cleaned up
    /// instead. Returns how many mailboxes received the message.
    pub fn publish(&mut self, name: &str, data: Vec<Value>) -> (delivered: usize)
        requires
            old(self)@.wf(),
        ensures
            final(self)@ == spec_publish(old(self)@, name@, values_view(data@)),
            final(self)@.wf(),
            delivered == count_receiving(old(self)@.subs, name@),
    {
        let ghost m0 = self@;
        let ghost dv = values_view(data@);
        let msg = CommandResponse::of_values(data);
        let mut delivered: usize = 0;
        let mut j: usize = 0;
        let t = name.to_owned();
        while j < self.subs.len()
            invariant
                j <= self.subs@.len(),
                self.subs@.len() == m0.subs.len(),
                self@.next_id == m0.next_id,
                t@ == name@,
                msg@ == publish_message(dv),
                delivered <= j,
                delivered == count_receiving(m0.subs.take(j as int), name@),
                forall|l: int| j <= l < m0.subs.len() ==> self@.subs[l] == m0.subs[l],
                forall|l: int|
                    0 <= l < j ==> self@.subs[l] == spec_publish(m0, name@, dv).subs[l],
            decreases self.subs@.len() - j,
        {
            let ghost pre = self@.subs;
            if self.subs[j].active && String::eq(&self.subs[j].topic, &t) {
                if self.subs[j].receiver_open {
                    self.subs[j].queue.push(msg.dup());
                    delivered = delivered + 1;
                } else {
                    self.subs[j].active = false;
                }
            }
            j = j + 1;
            proof {
                assert(m0.subs.take(j as int).drop_last() =~= m0.subs.take(j - 1));
                assert(m0.subs.take(j as int).last() == m0.subs[j - 1]);
                assert forall|l: int|
                    0 <= l < j implies self@.subs[l] == spec_publish(m0, name@, dv).subs[l] by {
                    if l < j - 1 {
                        assert(self@.subs[l] == pre[l]);
                    }
                }
            }
        }
        proof {
            assert(m0.subs.take(m0.subs.len() as int) =~= m0.subs);
            assert(self@.subs =~= spec_publish(m0, name@, dv).subs);
            assert(self@ =~= spec_publish(m0, name@, dv));
        }
        delivered
    }

    /// Closes the subscription carrying `id`: its entry leaves the
    /// registry and the status-0 sentinel is put in its mailbox. An id
    /// that is not registered gives a not-found error naming the
    /// subscription.
    pub fn unsubscribe(&mut self, name: &str, id: u32) -> (r: Result<u32, KvError>)
        requires
            old(self)@.wf(),
        ensures
            final(self)@.wf(),
            match r {
                Ok(rid) => rid == id && spec_unsubscribe(old(self)@, id) == (final(self)@, true),
                Err(e) => {
                    &&& spec_unsubscribe(old(self)@, id) == (final(self)@, false)
                    &&& final(self)@ == old(self)@
                    &&& e@ == KvErrorV::NotFound(
                        name@,
                        "subscription "@ + spec_u64_dec(id as nat),
                    )
                },
            },
    {
        let ghost m0 = self@;
        proof {
            lemma_sub_index(m0.subs, id);
        }
        match self.find_sub(id) {
            Some(j) => {
                proof {
                    lemma_sub_index_unique(m0.subs, id, j as int);
                }
                if self.subs[j].active {
                    self.subs[j].queue.push(CommandResponse::unsubscribe_ack());
                    self.subs[j].active = false;
                    proof {
                        let expect = spec_unsubscribe(m0, id).0;
                        assert(self@.subs[j as int] =~= expect.subs[j as int]);
                        assert(self@.subs =~= expect.subs);
                        assert(self@ =~= expect);
                        assert forall|a: int, b: int|
                            0 <= a < b < self@.subs.len() implies self@.subs[a].id
                            < self@.subs[b].id by {
                            assert(self@.subs[a].id == m0.subs[a].id);
                            assert(self@.subs[b].id == m0.subs[b].id);
                        }
                    }
                    Ok(id)
                } else {
                    let mut detail: String = "subscription ".to_owned();
                    detail.append(u64_dec(id as u64).as_str());
                    Err(KvError::NotFound(name.to_owned(), detail))
                }
            },
            None => {
                let mut detail: String = "subscription ".to_owned();
                detail.append(u64_dec(id as u64).as_str());
                Err(KvError::NotFound(name.to_owned(), detail))
            },
        }
    }

    /// Tears the subscription carrying `id` down without queueing the
    /// acknowledgment: the cleanup a failed publish delivery runs.
    /// Answers the id when a live subscription was removed.
    pub fn remove_subscription(&mut self, id: u32) -> (r: Option<u32>)
        requires
            old(self)@.wf(),
        ensures
            final(self)@.wf(),
            match r {
                Some(rid) => rid == id && spec_remove_subscription(old(self)@, id) == (
                    final(self)@,
                    true,
                ),
                None => spec_remove_subscription(old(self)@, id) == (final(self)@, false)
                    && final(self)@ == old(self)@,
            },
    {
        let ghost m0 = self@;
        proof {
            lemma_sub_index(m0.subs, id);
        }
        match self.find_sub(id) {
            Some(j) => {
                proof {
                    lemma_sub_index_unique(m0.subs, id, j as int);
                }
                if self.subs[j].active {
                    self.subs[j].active = false;
                    proof {
                        let expect = spec_remove_subscription(m0, id).0;
                        assert(self@.subs[j as int] =~= expect.subs[j as int]);
                        assert(self@.subs =~= expect.subs);
                        assert(self@ =~= expect);
                        assert forall|a: int, b: int|
                            0 <= a < b < self@.subs.len() implies self@.subs[a].id
                            < self@.subs[b].id by {
                            assert(self@.subs[a].id == m0.subs[a].id);
                            assert(self@.subs[b].id == m0.subs[b].id);
                        }
                    }
                    Some(id)
                } else {
                    None
                }
            },
            None => None,
        }
    }

    /// One receive on the mailbox of subscription `id`.
    pub fn recv(&mut self, id: u32) -> (r: RecvOutcome)
        requires
            old(self)@.wf(),
        ensures
            final(self)@.wf(),
            (final(self)@, r@) == spec_recv(old(self)@, id),
    {
        let ghost m0 = self@;
        proof {
            lemma_sub_index(m0.subs, id);
        }
        match self.find_sub(id) {
            None => RecvOutcome::Closed,
            Some(j) => {
                proof {
                    lemma_sub_index_unique(m0.subs, id, j as int);
                }
                if self.subs[j].queue.len() > 0 {
                    let front = self.subs[j].queue.remove(0);
                    proof {
                        let expect = spec_recv(m0, id).0;
                        assert(self@.subs[j as int].queue =~= expect.subs[j as int].queue);
                        assert(self@.subs[j as int] =~= expect.subs[j as int]);
                        assert(self@.subs =~= expect.subs);
                        assert(self@ =~= expect);
                        assert forall|a: int, b: int|
                            0 <= a < b < self@.subs.len() implies self@.subs[a].id
                            < self@.subs[b].id by {
                            assert(self@.subs[a].id == m0.subs[a].id);
                            assert(self@.subs[b].id == m0.subs[b].id);
                        }
                    }
                    RecvOutcome::Message(front)
                } else if !self.subs[j].active {
                    RecvOutcome::Closed
                } else {
                    RecvOutcome::Pending
                }
            },
        }
    }

    /// Notes that the receiver of subscription `id` is gone. The entry
    /// stays until the next publish to its topic observes the loss.
    pub fn drop_receiver(&mut self, id: u32) -> (r: ())
        requires
            old(self)@.wf(),
        ensures
            final(self)@.wf(),
            final(self)@ == spec_drop_receiver(old(self)@, id),
    {
        let ghost m0 = self@;
        proof {
            lemma_sub_index(m0.subs, id);
        }
        match self.find_sub(id) {
            None => (),
            Some(j) => {
                proof {
                    lemma_sub_index_unique(m0.subs, id, j as int);
                }
                self.subs[j].receiver_open = false;
                proof {
                    let expect = spec_drop_receiver(m0, id);
                    assert(self@.subs[j as int] =~= expect.subs[j as int]);
                    assert(self@.subs =~= expect.subs);
                    assert(self@ =~= expect);
                    assert forall|a: int, b: int|
                        0 <= a < b < self@.subs.len() implies self@.subs[a].id
                        < self@.subs[b].id by {
                        assert(self@.subs[a].id == m0.subs[a].id);
                        assert(self@.subs[b].id == m0.subs[b].id);
                    }
                }
            },
        }
    }
}

} // verus!
