//! The one-shot command executor: what each request variant does to the
//! store and what it answers.

use vstd::prelude::*;

use crate::error::{error_resp, KvError, KvErrorV};
use crate::pb::{CommandResponse, CommandResponseV, Value, ValueV};
use crate::request::{
    CommandRequest, Hdel, HdelV, Hexist, HexistV, Hget, HgetV, Hgetall, HgetallV, Hmdel, HmdelV,
    Hmexist, HmexistV, Hmget, HmgetV, Hmset, HmsetV, Hset, HsetV, RequestData, RequestDataV,
};
use crate::storage::{
    assoc_distinct, assoc_map, pairs_assoc, store_del, store_lookup, store_set, store_table,
    Storage, StoreV,
};

verus! {

/// A missing value reads as null.
pub open spec fn opt_or_null(o: Option<ValueV>) -> ValueV {
    match o {
        Some(v) => v,
        None => ValueV::Null,
    }
}

/// Hget: the value under the key, or a 404 naming table and key.
pub open spec fn hget_result(q: HgetV, m: StoreV) -> (CommandResponseV, StoreV) {
    (
        match store_lookup(m, q.table, q.key) {
            Some(v) => CommandResponseV::ok_values(seq![v]),
            None => error_resp(KvErrorV::NotFound(q.table, q.key)),
        },
        m,
    )
}

/// Hset: binds the pair and answers with the previous value (null when
/// there was none); a request without a pair stores nothing and answers
/// null.
pub open spec fn hset_result(q: HsetV, m: StoreV) -> (CommandResponseV, StoreV) {
    match q.pair {
        Some(p) => (
            CommandResponseV::ok_values(seq![opt_or_null(store_lookup(m, q.table, p.key))]),
            store_set(m, q.table, p.key, p.value),
        ),
        None => (CommandResponseV::ok_values(seq![ValueV::Null]), m),
    }
}

/// Hdel: unbinds the key and answers with the previous value or null.
pub open spec fn hdel_result(q: HdelV, m: StoreV) -> (CommandResponseV, StoreV) {
    (
        CommandResponseV::ok_values(seq![opt_or_null(store_lookup(m, q.table, q.key))]),
        store_del(m, q.table, q.key),
    )
}

/// Hexist: answers whether the key is bound.
pub open spec fn hexist_result(q: HexistV, m: StoreV) -> (CommandResponseV, StoreV) {
    (
        CommandResponseV::ok_values(seq![ValueV::Bool(store_lookup(m, q.table, q.key) is Some)]),
        m,
    )
}

/// Hmget: the values under the keys, in input order, null where missing.
pub open spec fn hmget_result(q: HmgetV, m: StoreV) -> (CommandResponseV, StoreV) {
    (
        CommandResponseV::ok_values(
            Seq::new(q.keys.len(), |i: int| opt_or_null(store_lookup(m, q.table, q.keys[i]))),
        ),
        m,
    )
}

/// Hmexist: whether each key is bound, in input order.
pub open spec fn hmexist_result(q: HmexistV, m: StoreV) -> (CommandResponseV, StoreV) {
    (
        CommandResponseV::ok_values(
            Seq::new(
                q.keys.len(),
                |i: int| ValueV::Bool(store_lookup(m, q.table, q.keys[i]) is Some),
            ),
        ),
        m,
    )
}

/// The values answered and the store reached by binding the pairs one
/// after the other: a later pair sees the bindings of the earlier ones.
pub open spec fn hmset_trace(m: StoreV, t: Seq<char>, pairs: Seq<crate::pb::KvpairV>) -> (
    Seq<ValueV>,
    StoreV,
)
    decreases pairs.len(),
{
    if pairs.len() == 0 {
        (Seq::<ValueV>::empty(), m)
    } else {
        let p = pairs[0];
        let rest = hmset_trace(store_set(m, t, p.key, p.value), t, pairs.drop_first());
        (seq![opt_or_null(store_lookup(m, t, p.key))] + rest.0, rest.1)
    }
}

/// Hmset: binds the pairs in order and answers each one's previous value.
pub open spec fn hmset_result(q: HmsetV, m: StoreV) -> (CommandResponseV, StoreV) {
    let tr = hmset_trace(m, q.table, q.pairs);
    (CommandResponseV::ok_values(tr.0), tr.1)
}

/// The values answered and the store reached by unbinding the keys one
/// after the other: a key named twice reads null the second time.
pub open spec fn hmdel_trace(m: StoreV, t: Seq<char>, keys: Seq<Seq<char>>) -> (
    Seq<ValueV>,
    StoreV,
)
    decreases keys.len(),
{
    if keys.len() == 0 {
        (Seq::<ValueV>::empty(), m)
    } else {
        let k = keys[0];
        let rest = hmdel_trace(store_del(m, t, k), t, keys.drop_first());
        (seq![opt_or_null(store_lookup(m, t, k))] + rest.0, rest.1)
    }
}

/// Hmdel: unbinds the keys in order and answers each one's previous value.
pub open spec fn hmdel_result(q: HmdelV, m: StoreV) -> (CommandResponseV, StoreV) {
    let tr = hmdel_trace(m, q.table, q.keys);
    (CommandResponseV::ok_values(tr.0), tr.1)
}

/// Hgetall: a 200 response whose pairs carry the table's content, each
/// key once; the order is not part of the contract.
pub open spec fn hgetall_ok(q: HgetallV, m: StoreV, resp: CommandResponseV, m2: StoreV) -> bool {
    &&& m2 == m
    &&& resp.status == crate::pb::STATUS_OK
    &&& resp.message == Seq::<char>::empty()
    &&& resp.values == Seq::<ValueV>::empty()
    &&& assoc_distinct(pairs_assoc(resp.pairs))
    &&& assoc_map(pairs_assoc(resp.pairs)) == store_table(m, q.table)
}

/// What a one-shot execution of `rd` over the store `m` may answer, and
/// the store it leaves. A streaming variant routed here is refused with a
/// 400 response.
pub open spec fn oneshot_rel(rd: RequestDataV, m: StoreV, resp: CommandResponseV, m2: StoreV)
    -> bool {
    match rd {
        RequestDataV::Hget(q) => (resp, m2) == hget_result(q, m),
        RequestDataV::Hset(q) => (resp, m2) == hset_result(q, m),
        RequestDataV::Hdel(q) => (resp, m2) == hdel_result(q, m),
        RequestDataV::Hexist(q) => (resp, m2) == hexist_result(q, m),
        RequestDataV::Hgetall(q) => hgetall_ok(q, m, resp, m2),
        RequestDataV::Hmget(q) => (resp, m2) == hmget_result(q, m),
        RequestDataV::Hmset(q) => (resp, m2) == hmset_result(q, m),
        RequestDataV::Hmdel(q) => (resp, m2) == hmdel_result(q, m),
        RequestDataV::Hmexist(q) => (resp, m2) == hmexist_result(q, m),
        _ => resp == error_resp(KvErrorV::InvalidCommand("Not command"@)) && m2 == m,
    }
}

/// What a dispatched request answers: a request without data is refused
/// with a 400 response; everything else follows the one-shot relation.
pub open spec fn dispatch_rel(
    req: Option<RequestDataV>,
    m: StoreV,
    resp: CommandResponseV,
    m2: StoreV,
) -> bool {
    match req {
        Some(rd) => oneshot_rel(rd, m, resp, m2),
        None => resp == error_resp(KvErrorV::InvalidCommand("Request has no data"@)) && m2 == m,
    }
}

/// A one-shot command: executed against the storage port, it answers one
/// response. On a backend whose operations cannot fail, the answer and
/// the new store are pinned by `execute_ok`.
pub trait CommandService: Sized {
    /// The relation the execution satisfies when storage does not fail.
    spec fn execute_ok(&self, m: StoreV, resp: CommandResponseV, m2: StoreV) -> bool;

    /// Executes the command against the store.
    fn execute<S: Storage>(self, store: &mut S) -> (r: CommandResponse)
        requires
            old(store).inv(),
        ensures
            final(store).inv(),
            final(store).total() == old(store).total(),
            old(store).total() ==> self.execute_ok(old(store).model(), r@, final(store).model()),
    ;
}

impl CommandService for Hget {
    open spec fn execute_ok(&self, m: StoreV, resp: CommandResponseV, m2: StoreV) -> bool {
        (resp, m2) == hget_result(self@, m)
    }

    fn execute<S: Storage>(self, store: &mut S) -> (r: CommandResponse) {
        match store.get(self.table.as_str(), self.key.as_str()) {
            Ok(Some(v)) => CommandResponse::of_value(v),
            Ok(None) => CommandResponse::of_error(KvError::NotFound(self.table, self.key)),
            Err(e) => CommandResponse::of_error(e),
        }
    }
}

impl CommandService for Hset {
    open spec fn execute_ok(&self, m: StoreV, resp: CommandResponseV, m2: StoreV) -> bool {
        (resp, m2) == hset_result(self@, m)
    }

    fn execute<S: Storage>(self, store: &mut S) -> (r: CommandResponse) {
        match self.pair {
            Some(p) => match store.set(self.table.as_str(), p.key, p.value) {
                Ok(Some(v)) => CommandResponse::of_value(v),
                Ok(None) => CommandResponse::of_value(Value::Null),
                Err(e) => CommandResponse::of_error(e),
            },
            None => CommandResponse::of_value(Value::Null),
        }
    }
}

impl CommandService for Hdel {
    open spec fn execute_ok(&self, m: StoreV, resp: CommandResponseV, m2: StoreV) -> bool {
        (resp, m2) == hdel_result(self@, m)
    }

    fn execute<S: Storage>(self, store: &mut S) -> (r: CommandResponse) {
        match store.del(self.table.as_str(), self.key.as_str()) {
            Ok(Some(v)) => CommandResponse::of_value(v),
            Ok(None) => CommandResponse::of_value(Value::Null),
            Err(e) => CommandResponse::of_error(e),
        }
    }
}

impl CommandService for Hexist {
    open spec fn execute_ok(&self, m: StoreV, resp: CommandResponseV, m2: StoreV) -> bool {
        (resp, m2) == hexist_result(self@, m)
    }

    fn execute<S: Storage>(self, store: &mut S) -> (r: CommandResponse) {
        match store.contains(self.table.as_str(), self.key.as_str()) {
            Ok(b) => CommandResponse::of_value(Value::Bool(b)),
            Err(e) => CommandResponse::of_error(e),
        }
    }
}

impl CommandService for Hgetall {
    open spec fn execute_ok(&self, m: StoreV, resp: CommandResponseV, m2: StoreV) -> bool {
        hgetall_ok(self@, m, resp, m2)
    }

    fn execute<S: Storage>(self, store: &mut S) -> (r: CommandResponse) {
        match store.get_all(self.table.as_str()) {
            Ok(pairs) => CommandResponse::of_pairs(pairs),
            Err(e) => CommandResponse::of_error(e),
        }
    }
}

impl CommandService for Hmget {
    open spec fn execute_ok(&self, m: StoreV, resp: CommandResponseV, m2: StoreV) -> bool {
        (resp, m2) == hmget_result(self@, m)
    }

    fn execute<S: Storage>(self, store: &mut S) -> (r: CommandResponse) {
        let ghost q = self@;
        let ghost m0 = store.model();
        let mut values: Vec<Value> = Vec::new();
        let mut i: usize = 0;
        while i < self.keys.len()
            invariant
                old(store).inv(),
                i <= self.keys@.len(),
                *store == *old(store),
                q == self@,
                m0 == store.model(),
                values@.len() == i,
                old(store).total() ==> forall|l: int|
                    0 <= l < i ==> values@[l]@ == opt_or_null(
                        store_lookup(m0, q.table, q.keys[l]),
                    ),
            decreases self.keys@.len() - i,
        {
            let v = match store.get(self.table.as_str(), self.keys[i].as_str()) {
                Ok(Some(v)) => v,
                _ => Value::Null,
            };
            values.push(v);
            i = i + 1;
        }
        let r = CommandResponse::of_values(values);
        proof {
            if old(store).total() {
                assert(crate::pb::values_view(values@) =~= hmget_result(q, m0).0.values);
            }
        }
        r
    }
}

impl CommandService for Hmexist {
    open spec fn execute_ok(&self, m: StoreV, resp: CommandResponseV, m2: StoreV) -> bool {
        (resp, m2) == hmexist_result(self@, m)
    }

    fn execute<S: Storage>(self, store: &mut S) -> (r: CommandResponse) {
        let ghost q = self@;
        let ghost m0 = store.model();
        let mut values: Vec<Value> = Vec::new();
        let mut i: usize = 0;
        while i < self.keys.len()
            invariant
                old(store).inv(),
                i <= self.keys@.len(),
                *store == *old(store),
                q == self@,
                m0 == store.model(),
                values@.len() == i,
                old(store).total() ==> forall|l: int|
                    0 <= l < i ==> values@[l]@ == ValueV::Bool(
                        store_lookup(m0, q.table, q.keys[l]) is Some,
                    ),
            decreases self.keys@.len() - i,
        {
            let v = match store.contains(self.table.as_str(), self.keys[i].as_str()) {
                Ok(b) => Value::Bool(b),
                Err(_) => Value::Null,
            };
            values.push(v);
            i = i + 1;
        }
        let r = CommandResponse::of_values(values);
        proof {
            if old(store).total() {
                assert(crate::pb::values_view(values@) =~= hmexist_result(q, m0).0.values);
            }
        }
        r
    }
}

impl CommandService for Hmset {
    open spec fn execute_ok(&self, m: StoreV, resp: CommandResponseV, m2: StoreV) -> bool {
        (resp, m2) == hmset_result(self@, m)
    }

    fn execute<S: Storage>(self, store: &mut S) -> (r: CommandResponse) {
        let ghost q = self@;
        let ghost m0 = old(store).model();
        let mut values: Vec<Value> = Vec::new();
        let mut i: usize = 0;
        proof {
            assert(q.pairs.skip(0) =~= q.pairs);
            assert(crate::pb::values_view(values@) =~= Seq::<ValueV>::empty());
            assert(Seq::<ValueV>::empty() + hmset_trace(m0, q.table, q.pairs).0 =~= hmset_trace(
                m0,
                q.table,
                q.pairs,
            ).0);
        }
        while i < self.pairs.len()
            invariant
                i <= self.pairs@.len(),
                store.inv(),
                store.total() == old(store).total(),
                q == self@,
                values@.len() == i,
                old(store).total() ==> hmset_trace(m0, q.table, q.pairs) == (
                    crate::pb::values_view(values@) + hmset_trace(
                        store.model(),
                        q.table,
                        q.pairs.skip(i as int),
                    ).0,
                    hmset_trace(store.model(), q.table, q.pairs.skip(i as int)).1,
                ),
            decreases self.pairs@.len() - i,
        {
            let ghost m_cur = store.model();
            let p = self.pairs[i].dup();
            let v = match store.set(self.table.as_str(), p.key, p.value) {
                Ok(Some(v)) => v,
                _ => Value::Null,
            };
            values.push(v);
            i = i + 1;
            proof {
                if old(store).total() {
                    let rest0 = q.pairs.skip(i - 1);
                    assert(rest0[0] == q.pairs[i - 1]);
                    assert(rest0.drop_first() =~= q.pairs.skip(i as int));
                    assert(crate::pb::values_view(values@) =~= crate::pb::values_view(
                        values@.drop_last(),
                    ) + seq![values@.last()@]);
                    assert(crate::pb::values_view(values@.drop_last()) + (seq![values@.last()@]
                        + hmset_trace(store.model(), q.table, q.pairs.skip(i as int)).0)
                        =~= crate::pb::values_view(values@) + hmset_trace(
                        store.model(),
                        q.table,
                        q.pairs.skip(i as int),
                    ).0);
                }
            }
        }
        proof {
            if old(store).total() {
                assert(q.pairs.skip(self.pairs@.len() as int) =~= Seq::<crate::pb::KvpairV>::empty());
                assert(crate::pb::values_view(values@) + Seq::<ValueV>::empty()
                    =~= crate::pb::values_view(values@));
            }
        }
        CommandResponse::of_values(values)
    }
}

impl CommandService for Hmdel {
    open spec fn execute_ok(&self, m: StoreV, resp: CommandResponseV, m2: StoreV) -> bool {
        (resp, m2) == hmdel_result(self@, m)
    }

    fn execute<S: Storage>(self, store: &mut S) -> (r: CommandResponse) {
        let ghost q = self@;
        let ghost m0 = old(store).model();
        let mut values: Vec<Value> = Vec::new();
        let mut i: usize = 0;
        proof {
            assert(q.keys.skip(0) =~= q.keys);
            assert(crate::pb::values_view(values@) =~= Seq::<ValueV>::empty());
            assert(Seq::<ValueV>::empty() + hmdel_trace(m0, q.table, q.keys).0 =~= hmdel_trace(
                m0,
                q.table,
                q.keys,
            ).0);
        }
        while i < self.keys.len()
            invariant
                i <= self.keys@.len(),
                store.inv(),
                store.total() == old(store).total(),
                q == self@,
                values@.len() == i,
                old(store).total() ==> hmdel_trace(m0, q.table, q.keys) == (
                    crate::pb::values_view(values@) + hmdel_trace(
                        store.model(),
                        q.table,
                        q.keys.skip(i as int),
                    ).0,
                    hmdel_trace(store.model(), q.table, q.keys.skip(i as int)).1,
                ),
            decreases self.keys@.len() - i,
        {
            let v = match store.del(self.table.as_str(), self.keys[i].as_str()) {
                Ok(Some(v)) => v,
                _ => Value::Null,
            };
            values.push(v);
            i = i + 1;
            proof {
                if old(store).total() {
                    let rest0 = q.keys.skip(i - 1);
                    assert(rest0[0] == q.keys[i - 1]);
                    assert(rest0.drop_first() =~= q.keys.skip(i as int));
                    assert(crate::pb::values_view(values@) =~= crate::pb::values_view(
                        values@.drop_last(),
                    ) + seq![values@.last()@]);
                    assert(crate::pb::values_view(values@.drop_last()) + (seq![values@.last()@]
                        + hmdel_trace(store.model(), q.table, q.keys.skip(i as int)).0)
                        =~= crate::pb::values_view(values@) + hmdel_trace(
                        store.model(),
                        q.table,
                        q.keys.skip(i as int),
                    ).0);
                }
            }
        }
        proof {
            if old(store).total() {
                assert(q.keys.skip(self.keys@.len() as int) =~= Seq::<Seq<char>>::empty());
                assert(crate::pb::values_view(values@) + Seq::<ValueV>::empty()
                    =~= crate::pb::values_view(values@));
            }
        }
        CommandResponse::of_values(values)
    }
}

impl CommandService for RequestData {
    open spec fn execute_ok(&self, m: StoreV, resp: CommandResponseV, m2: StoreV) -> bool {
        oneshot_rel(self@, m, resp, m2)
    }

    fn execute<S: Storage>(self, store: &mut S) -> (r: CommandResponse) {
        match self {
            RequestData::Hget(param) => param.execute(store),
            RequestData::Hset(param) => param.execute(store),
            RequestData::Hdel(param) => param.execute(store),
            RequestData::Hexist(param) => param.execute(store),
            RequestData::Hgetall(param) => param.execute(store),
            RequestData::Hmget(param) => param.execute(store),
            RequestData::Hmset(param) => param.execute(store),
            RequestData::Hmdel(param) => param.execute(store),
            RequestData::Hmexist(param) => param.execute(store),
            _ => CommandResponse::of_error(KvError::InvalidCommand("Not command".to_owned())),
        }
    }
}

impl CommandRequest {
    /// Routes a one-shot request to the store. A request without data, or
    /// a streaming request sent down this path, is refused with a 400
    /// response and the store is left as it was.
    pub fn dispatch<S: Storage>(self, store: &mut S) -> (r: CommandResponse)
        requires
            old(store).inv(),
        ensures
            final(store).inv(),
            final(store).total() == old(store).total(),
            old(store).total() ==> dispatch_rel(self@, old(store).model(), r@, final(store).model()),
    {
        match self.request_data {
            Some(rd) => if rd.is_streaming() {
                CommandResponse::of_error(KvError::InvalidCommand("Not command".to_owned()))
            } else {
                rd.execute(store)
            },
            None => CommandResponse::of_error(
                KvError::InvalidCommand("Request has no data".to_owned()),
            ),
        }
    }
}

/// Storing a value and reading it back through the same key returns
/// exactly that value; the first store into an empty table answers null;
/// a second store answers the value the first one bound.
pub proof fn lemma_hset_then_hget(m: StoreV, t: Seq<char>, k: Seq<char>, v: ValueV, v2: ValueV)
    ensures
        ({
            let q = HsetV { table: t, pair: Some(crate::pb::KvpairV { key: k, value: v }) };
            let m1 = hset_result(q, m).1;
            hget_result(HgetV { table: t, key: k }, m1).0 == CommandResponseV::ok_values(seq![v])
        }),
        store_lookup(m, t, k) is None ==> hset_result(
            HsetV { table: t, pair: Some(crate::pb::KvpairV { key: k, value: v }) },
            m,
        ).0 == CommandResponseV::ok_values(seq![ValueV::Null]),
        ({
            let q = HsetV { table: t, pair: Some(crate::pb::KvpairV { key: k, value: v }) };
            let q2 = HsetV { table: t, pair: Some(crate::pb::KvpairV { key: k, value: v2 }) };
            let m1 = hset_result(q, m).1;
            hset_result(q2, m1).0 == CommandResponseV::ok_values(seq![v])
        }),
{
}

/// Deleting is idempotent: a second delete of the same key answers null.
pub proof fn lemma_hdel_idempotent(m: StoreV, t: Seq<char>, k: Seq<char>)
    ensures
        ({
            let q = HdelV { table: t, key: k };
            let m1 = hdel_result(q, m).1;
            hdel_result(q, m1).0 == CommandResponseV::ok_values(seq![ValueV::Null])
        }),
{
}

} // verus!
