//! The server-side service: one store, one broadcaster, and the routing
//! of every decoded request to one of them. Also the response checks the
//! test suites are built on.

use vstd::prelude::*;

use crate::command_service::dispatch_rel;
use crate::memory::MemTable;
use crate::pb::{
    pairs_view, values_view, CommandResponse, Kvpair, Value, STATUS_OK,
};
use crate::request::RequestDataV;
use crate::storage::{Storage, StoreV};
use crate::text::{contains_str, spec_contains_seq};
use crate::topic::{spec_drop_receiver, spec_recv, PubSub, PubSubV, RecvOutcome};
use crate::topic_service::{dispatch_streaming_rel, StreamingResponse, StreamingResponseV};
use crate::request::CommandRequest;

verus! {

/// An observer the serving loop fires when a request has been decoded,
/// before it is executed.
pub trait Hook<Arg> {
    fn hook(&self, arg: &Arg);
}

/// An observer the serving loop fires on a one-shot response before it
/// is sent; it may rewrite the response.
pub trait HookMut<Arg> {
    fn hook(&self, arg: &mut Arg);
}

/// The state behind a service: the storage backend it executes one-shot
/// commands against.
pub struct ServiceInner<Store> {
    pub store: Store,
}

impl<Store: Storage> ServiceInner<Store> {
    pub fn new(store: Store) -> (r: Self)
        ensures
            r.store == store,
    {
        ServiceInner { store }
    }
}

/// What one service execution does: a streaming request goes to the
/// broadcaster and leaves the store alone; everything else goes to the
/// store as a one-shot command, answered in a single-element stream, and
/// leaves the broadcaster alone.
pub open spec fn service_rel(
    req: Option<RequestDataV>,
    store0: StoreV,
    ps0: PubSubV,
    r: StreamingResponseV,
    store1: StoreV,
    ps1: PubSubV,
) -> bool {
    if (match req {
        Some(rd) => rd.is_streaming(),
        None => false,
    }) {
        &&& store1 == store0
        &&& dispatch_streaming_rel(req, ps0, r, ps1)
    } else {
        &&& ps1 == ps0
        &&& (match r {
            StreamingResponseV::Single(resp) => dispatch_rel(req, store0, resp, store1),
            _ => false,
        })
    }
}

/// The server-side executor: routes each request to the store or to the
/// broadcaster.
pub struct Service<Store = MemTable> {
    inner: ServiceInner<Store>,
    broadcaster: PubSub,
}

impl<Store: Storage> Service<Store> {
    /// The service's internal invariant.
    pub closed spec fn inv(&self) -> bool {
        &&& self.inner.store.inv()
        &&& self.broadcaster@.wf()
    }

    /// The store the service currently holds.
    pub closed spec fn store_model(&self) -> StoreV {
        self.inner.store.model()
    }

    /// Whether the storage backend can fail.
    pub closed spec fn store_total(&self) -> bool {
        self.inner.store.total()
    }

    /// The broadcaster's state.
    pub closed spec fn broadcast_state(&self) -> PubSubV {
        self.broadcaster@
    }

    /// Whether another subscription id can still be issued.
    pub closed spec fn ids_available(&self) -> bool {
        self.broadcaster@.next_id < u32::MAX
    }

    pub fn new(store: Store) -> (r: Self)
        requires
            store.inv(),
        ensures
            r.inv(),
            r.ids_available(),
            r.store_model() == store.model(),
            r.store_total() == store.total(),
            r.broadcast_state() == (PubSubV { next_id: 1u32, subs: Seq::<
                crate::topic::SubV,
            >::empty() }),
    {
        Service { inner: ServiceInner::new(store), broadcaster: PubSub::new() }
    }

    /// Executes one request: a streaming command against the
    /// broadcaster, anything else as a one-shot command against the
    /// store.
    pub fn execute(&mut self, cmd: CommandRequest) -> (r: StreamingResponse)
        requires
            old(self).inv(),
            old(self).ids_available(),
        ensures
            final(self).inv(),
            final(self).store_total() == old(self).store_total(),
            old(self).store_total() ==> service_rel(
                cmd@,
                old(self).store_model(),
                old(self).broadcast_state(),
                r@,
                final(self).store_model(),
                final(self).broadcast_state(),
            ),
            (match cmd@ {
                Some(rd) => rd.is_streaming(),
                None => false,
            }) ==> final(self).store_model() == old(self).store_model()
                && dispatch_streaming_rel(
                cmd@,
                old(self).broadcast_state(),
                r@,
                final(self).broadcast_state(),
            ),
    {
        let is_streaming = match &cmd.request_data {
            Some(rd) => rd.is_streaming(),
            None => false,
        };
        if is_streaming {
            cmd.dispatch_streaming(&mut self.broadcaster)
        } else {
            StreamingResponse::Single(cmd.dispatch(&mut self.inner.store))
        }
    }

    /// One receive on the mailbox of subscription `id`.
    pub fn recv(&mut self, id: u32) -> (r: RecvOutcome)
        requires
            old(self).inv(),
        ensures
            final(self).inv(),
            final(self).ids_available() == old(self).ids_available(),
            final(self).store_model() == old(self).store_model(),
            final(self).store_total() == old(self).store_total(),
            (final(self).broadcast_state(), r@) == spec_recv(old(self).broadcast_state(), id),
    {
        self.broadcaster.recv(id)
    }

    /// Notes that the receiver of subscription `id` is gone.
    pub fn drop_receiver(&mut self, id: u32)
        requires
            old(self).inv(),
        ensures
            final(self).inv(),
            final(self).ids_available() == old(self).ids_available(),
            final(self).store_model() == old(self).store_model(),
            final(self).store_total() == old(self).store_total(),
            final(self).broadcast_state() == spec_drop_receiver(
                old(self).broadcast_state(),
                id,
            ),
    {
        self.broadcaster.drop_receiver(id)
    }
}

/// Elementwise equality of stored values.
fn values_eq(a: &Vec<Value>, b: &[Value]) -> (r: bool)
    ensures
        r == (values_view(a@) == values_view(b@)),
{
    if a.len() != b.len() {
        proof {
            assert(values_view(a@).len() == a@.len());
            assert(values_view(b@).len() == b@.len());
        }
        return false;
    }
    let mut i: usize = 0;
    while i < a.len()
        invariant
            i <= a@.len(),
            a@.len() == b@.len(),
            forall|j: int| 0 <= j < i ==> a@[j]@ == b@[j]@,
        decreases a@.len() - i,
    {
        if !a[i].same(&b[i]) {
            proof {
                assert(values_view(a@)[i as int] == a@[i as int]@);
                assert(values_view(b@)[i as int] == b@[i as int]@);
            }
            return false;
        }
        i = i + 1;
    }
    proof {
        assert(values_view(a@) =~= values_view(b@));
    }
    true
}

/// Elementwise equality of pairs.
fn pairs_eq(a: &Vec<Kvpair>, b: &[Kvpair]) -> (r: bool)
    ensures
        r == (pairs_view(a@) == pairs_view(b@)),
{
    if a.len() != b.len() {
        proof {
            assert(pairs_view(a@).len() == a@.len());
            assert(pairs_view(b@).len() == b@.len());
        }
        return false;
    }
    let mut i: usize = 0;
    while i < a.len()
        invariant
            i <= a@.len(),
            a@.len() == b@.len(),
            forall|j: int| 0 <= j < i ==> a@[j]@ == b@[j]@,
        decreases a@.len() - i,
    {
        if !a[i].same(&b[i]) {
            proof {
                assert(pairs_view(a@)[i as int] == a@[i as int]@);
                assert(pairs_view(b@)[i as int] == b@[i as int]@);
            }
            return false;
        }
        i = i + 1;
    }
    proof {
        assert(pairs_view(a@) =~= pairs_view(b@));
    }
    true
}

/// Whether a response is a 200 with an empty message and exactly these
/// values and pairs.
pub fn assert_res_ref_ok(res: &CommandResponse, values: &[Value], pairs: &[Kvpair]) -> (r: bool)
    ensures
        r == (res@.status == STATUS_OK && res@.message == Seq::<char>::empty() && res@.values
            == values_view(values@) && res@.pairs == pairs_view(pairs@)),
{
    if res.status != STATUS_OK {
        return false;
    }
    if !res.message.as_str().is_empty() {
        return false;
    }
    proof {
        assert(res@.message =~= Seq::<char>::empty());
    }
    values_eq(&res.values, values) && pairs_eq(&res.pairs, pairs)
}

/// Whether a response has this status, a message containing `msg`, and
/// no payload.
pub fn assert_res_ref_error(res: &CommandResponse, code: u32, msg: &str) -> (r: bool)
    ensures
        r == (res@.status == code && spec_contains_seq(res@.message, msg@) && res@.values
            == Seq::<crate::pb::ValueV>::empty() && res@.pairs == Seq::<
            crate::pb::KvpairV,
        >::empty()),
{
    if res.status != code {
        return false;
    }
    if res.values.len() != 0 || res.pairs.len() != 0 {
        proof {
            if res.values@.len() != 0 {
                assert(res@.values.len() != 0);
            } else {
                assert(res@.pairs.len() != 0);
            }
        }
        return false;
    }
    proof {
        assert(res@.values =~= Seq::<crate::pb::ValueV>::empty());
        assert(res@.pairs =~= Seq::<crate::pb::KvpairV>::empty());
    }
    contains_str(&res.message, msg)
}

/// Whether a response is a 200 with an empty message and exactly these
/// values and pairs.
pub fn assert_res_ok(res: CommandResponse, values: &[Value], pairs: &[Kvpair]) -> (r: bool)
    ensures
        r == (res@.status == STATUS_OK && res@.message == Seq::<char>::empty() && res@.values
            == values_view(values@) && res@.pairs == pairs_view(pairs@)),
{
    assert_res_ref_ok(&res, values, pairs)
}

/// Whether a response has this status, a message containing `msg`, and
/// no payload.
pub fn assert_res_error(res: CommandResponse, code: u32, msg: &str) -> (r: bool)
    ensures
        r == (res@.status == code && spec_contains_seq(res@.message, msg@) && res@.values
            == Seq::<crate::pb::ValueV>::empty() && res@.pairs == Seq::<
            crate::pb::KvpairV,
        >::empty()),
{
    assert_res_ref_error(&res, code, msg)
}

} // verus!
