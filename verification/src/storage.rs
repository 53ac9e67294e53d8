//! The storage port: the contract every backend offers the dispatcher,
//! and the association-list reasoning shared by its implementations.

use vstd::prelude::*;

use crate::error::KvError;
use crate::pb::{Kvpair, KvpairV, Value, ValueV};

verus! {

/// The mathematical content of a whole store: table name to table, table
/// being key to value.
pub type StoreV = Map<Seq<char>, Map<Seq<char>, ValueV>>;

/// The value stored under (table, key), if any.
pub open spec fn store_lookup(m: StoreV, t: Seq<char>, k: Seq<char>) -> Option<ValueV> {
    if m.contains_key(t) && m[t].contains_key(k) {
        Some(m[t][k])
    } else {
        None
    }
}

/// The store after `set(t, k, v)`: the table is created if absent.
pub open spec fn store_set(m: StoreV, t: Seq<char>, k: Seq<char>, v: ValueV) -> StoreV {
    m.insert(
        t,
        if m.contains_key(t) {
            m[t].insert(k, v)
        } else {
            Map::<Seq<char>, ValueV>::empty().insert(k, v)
        },
    )
}

/// The store after `del(t, k)`: an emptied table stays present.
pub open spec fn store_del(m: StoreV, t: Seq<char>, k: Seq<char>) -> StoreV {
    if m.contains_key(t) {
        m.insert(t, m[t].remove(k))
    } else {
        m
    }
}

/// The table under `t`, or the empty table.
pub open spec fn store_table(m: StoreV, t: Seq<char>) -> Map<Seq<char>, ValueV> {
    if m.contains_key(t) {
        m[t]
    } else {
        Map::<Seq<char>, ValueV>::empty()
    }
}

/// View of an optional value.
pub open spec fn opt_value_view(o: Option<Value>) -> Option<ValueV> {
    match o {
        Some(v) => Some(v@),
        None => None,
    }
}

/// The association list of a sequence of pairs.
pub open spec fn pairs_assoc(s: Seq<KvpairV>) -> Seq<(Seq<char>, ValueV)> {
    s.map_values(|p: KvpairV| (p.key, p.value))
}

/// The map an association list denotes; a later entry wins over an
/// earlier one with the same key.
pub open spec fn assoc_map<V>(s: Seq<(Seq<char>, V)>) -> Map<Seq<char>, V>
    decreases s.len(),
{
    if s.len() == 0 {
        Map::<Seq<char>, V>::empty()
    } else {
        assoc_map(s.drop_last()).insert(s.last().0, s.last().1)
    }
}

/// The last binding of `k` in the list, if any.
pub open spec fn assoc_lookup<V>(s: Seq<(Seq<char>, V)>, k: Seq<char>) -> Option<V>
    decreases s.len(),
{
    if s.len() == 0 {
        None
    } else if s.last().0 == k {
        Some(s.last().1)
    } else {
        assoc_lookup(s.drop_last(), k)
    }
}

/// No key occurs twice.
pub open spec fn assoc_distinct<V>(s: Seq<(Seq<char>, V)>) -> bool {
    forall|i: int, j: int| 0 <= i < j < s.len() ==> s[i].0 != s[j].0
}

/// The denoted map agrees with the recursive lookup, key by key.
pub proof fn lemma_assoc_map_is_lookup<V>(s: Seq<(Seq<char>, V)>, k: Seq<char>)
    ensures
        assoc_map(s).contains_key(k) == (assoc_lookup(s, k) is Some),
        assoc_lookup(s, k) matches Some(v) ==> assoc_map(s)[k] == v,
    decreases s.len(),
{
    if s.len() > 0 {
        lemma_assoc_map_is_lookup(s.drop_last(), k);
    }
}

/// With distinct keys, the binding of `s[i].0` is `s[i].1`.
pub proof fn lemma_assoc_lookup_at<V>(s: Seq<(Seq<char>, V)>, i: int)
    requires
        assoc_distinct(s),
        0 <= i < s.len(),
    ensures
        assoc_lookup(s, s[i].0) == Some(s[i].1),
    decreases s.len(),
{
    if i == s.len() - 1 {
    } else {
        assert(s.drop_last()[i] == s[i]);
        lemma_assoc_lookup_at(s.drop_last(), i);
    }
}

/// A key bound in the list is the key of some entry.
pub proof fn lemma_assoc_lookup_some_index<V>(s: Seq<(Seq<char>, V)>, k: Seq<char>)
    requires
        assoc_lookup(s, k) is Some,
    ensures
        exists|i: int| 0 <= i < s.len() && s[i].0 == k,
    decreases s.len(),
{
    if s.len() > 0 {
        if s.last().0 == k {
            assert(s[s.len() - 1].0 == k);
        } else {
            lemma_assoc_lookup_some_index(s.drop_last(), k);
            let i = choose|i: int| 0 <= i < s.drop_last().len() && s.drop_last()[i].0 == k;
            assert(s[i].0 == k);
        }
    }
}

/// A key that is no entry's key is unbound.
pub proof fn lemma_assoc_lookup_none<V>(s: Seq<(Seq<char>, V)>, k: Seq<char>)
    requires
        forall|i: int| 0 <= i < s.len() ==> s[i].0 != k,
    ensures
        assoc_lookup(s, k) is None,
    decreases s.len(),
{
    if s.len() > 0 {
        assert(s.last() == s[s.len() - 1]);
        lemma_assoc_lookup_none(s.drop_last(), k);
    }
}

/// Updating the value at position `i` rebinds exactly that key.
pub proof fn lemma_assoc_lookup_update<V>(s: Seq<(Seq<char>, V)>, i: int, v: V, k: Seq<char>)
    requires
        assoc_distinct(s),
        0 <= i < s.len(),
    ensures
        assoc_lookup(s.update(i, (s[i].0, v)), k) == (if k == s[i].0 {
            Some(v)
        } else {
            assoc_lookup(s, k)
        }),
    decreases s.len(),
{
    let s2 = s.update(i, (s[i].0, v));
    if i == s.len() - 1 {
        assert(s2.drop_last() =~= s.drop_last());
        if k == s[i].0 {
        } else {
        }
    } else {
        assert(s2.drop_last() =~= s.drop_last().update(i, (s[i].0, v)));
        assert(s.drop_last()[i] == s[i]);
        lemma_assoc_lookup_update(s.drop_last(), i, v, k);
        assert(s2.last() == s.last());
        if s.last().0 == k {
            assert(k != s[i].0);
        }
    }
}

/// Removing the entry at position `i` unbinds exactly that key.
pub proof fn lemma_assoc_lookup_remove<V>(s: Seq<(Seq<char>, V)>, i: int, k: Seq<char>)
    requires
        assoc_distinct(s),
        0 <= i < s.len(),
    ensures
        assoc_lookup(s.remove(i), k) == (if k == s[i].0 {
            None::<V>
        } else {
            assoc_lookup(s, k)
        }),
    decreases s.len(),
{
    let s2 = s.remove(i);
    if i == s.len() - 1 {
        assert(s2 =~= s.drop_last());
        if k == s[i].0 {
            assert(forall|j: int| 0 <= j < s.drop_last().len() ==> s.drop_last()[j] == s[j]);
            lemma_assoc_lookup_none(s.drop_last(), k);
        }
    } else {
        assert(s2.drop_last() =~= s.drop_last().remove(i));
        assert(s.drop_last()[i] == s[i]);
        lemma_assoc_lookup_remove(s.drop_last(), i, k);
        assert(s2.last() == s.last());
        if s.last().0 == k {
            assert(k != s[i].0);
        }
    }
}

/// Appending a fresh entry binds exactly its key.
pub proof fn lemma_assoc_lookup_push<V>(s: Seq<(Seq<char>, V)>, p: (Seq<char>, V), k: Seq<char>)
    ensures
        assoc_lookup(s.push(p), k) == (if k == p.0 {
            Some(p.1)
        } else {
            assoc_lookup(s, k)
        }),
{
    assert(s.push(p).drop_last() =~= s);
    assert(s.push(p).last() == p);
}

/// Distinctness survives removal of an entry.
pub proof fn lemma_assoc_distinct_remove<V>(s: Seq<(Seq<char>, V)>, i: int)
    requires
        assoc_distinct(s),
        0 <= i < s.len(),
    ensures
        assoc_distinct(s.remove(i)),
{
    let s2 = s.remove(i);
    assert forall|a: int, b: int| 0 <= a < b < s2.len() implies s2[a].0 != s2[b].0 by {
        let a0: int = if a < i {
            a
        } else {
            a + 1
        };
        let b0: int = if b < i {
            b
        } else {
            b + 1
        };
        assert(s2[a] == s[a0]);
        assert(s2[b] == s[b0]);
    }
}

/// Two maps denoted by lists whose lookups agree are equal.
pub proof fn lemma_assoc_map_ext<V>(s1: Seq<(Seq<char>, V)>, s2: Seq<(Seq<char>, V)>)
    requires
        forall|k: Seq<char>| #[trigger] assoc_lookup(s1, k) == assoc_lookup(s2, k),
    ensures
        assoc_map(s1) == assoc_map(s2),
{
    assert forall|k: Seq<char>|
        assoc_map(s1).contains_key(k) == assoc_map(s2).contains_key(k) by {
        lemma_assoc_map_is_lookup(s1, k);
        lemma_assoc_map_is_lookup(s2, k);
    }
    assert forall|k: Seq<char>| #[trigger]
        assoc_map(s1).contains_key(k) implies assoc_map(s1)[k] == assoc_map(s2)[k] by {
        lemma_assoc_map_is_lookup(s1, k);
        lemma_assoc_map_is_lookup(s2, k);
    }
    assert(assoc_map(s1) =~= assoc_map(s2));
}

/// Updating the value at position `i` denotes an insert of that key.
pub proof fn lemma_assoc_map_update<V>(s: Seq<(Seq<char>, V)>, i: int, v: V)
    requires
        assoc_distinct(s),
        0 <= i < s.len(),
    ensures
        assoc_map(s.update(i, (s[i].0, v))) == assoc_map(s).insert(s[i].0, v),
{
    let s2 = s.update(i, (s[i].0, v));
    assert forall|k: Seq<char>|
        #![trigger assoc_map(s2).contains_key(k)]
        assoc_map(s2).contains_key(k) == assoc_map(s).insert(s[i].0, v).contains_key(k) && (
        assoc_map(s2).contains_key(k) ==> assoc_map(s2)[k] == assoc_map(s).insert(
            s[i].0,
            v,
        )[k]) by {
        lemma_assoc_lookup_update(s, i, v, k);
        lemma_assoc_map_is_lookup(s, k);
        lemma_assoc_map_is_lookup(s2, k);
        if k == s[i].0 {
            lemma_assoc_lookup_at(s, i);
        }
    }
    assert(assoc_map(s2) =~= assoc_map(s).insert(s[i].0, v));
}

/// Removing the entry at position `i` denotes a removal of that key.
pub proof fn lemma_assoc_map_remove<V>(s: Seq<(Seq<char>, V)>, i: int)
    requires
        assoc_distinct(s),
        0 <= i < s.len(),
    ensures
        assoc_map(s.remove(i)) == assoc_map(s).remove(s[i].0),
{
    let s2 = s.remove(i);
    assert forall|k: Seq<char>|
        #![trigger assoc_map(s2).contains_key(k)]
        assoc_map(s2).contains_key(k) == assoc_map(s).remove(s[i].0).contains_key(k) && (
        assoc_map(s2).contains_key(k) ==> assoc_map(s2)[k] == assoc_map(s).remove(
            s[i].0,
        )[k]) by {
        lemma_assoc_lookup_remove(s, i, k);
        lemma_assoc_map_is_lookup(s, k);
        lemma_assoc_map_is_lookup(s2, k);
    }
    assert(assoc_map(s2) =~= assoc_map(s).remove(s[i].0));
}

/// Appending an entry denotes an insert of its key.
pub proof fn lemma_assoc_map_push<V>(s: Seq<(Seq<char>, V)>, p: (Seq<char>, V))
    ensures
        assoc_map(s.push(p)) == assoc_map(s).insert(p.0, p.1),
{
    assert(s.push(p).drop_last() =~= s);
    assert(s.push(p).last() == p);
}

/// A key that no entry carries is not in the denoted map.
pub proof fn lemma_assoc_map_not_contains<V>(s: Seq<(Seq<char>, V)>, k: Seq<char>)
    requires
        forall|i: int| 0 <= i < s.len() ==> s[i].0 != k,
    ensures
        !assoc_map(s).contains_key(k),
{
    lemma_assoc_lookup_none(s, k);
    lemma_assoc_map_is_lookup(s, k);
}

/// The value the denoted map gives to the key of entry `i`.
pub proof fn lemma_assoc_map_at<V>(s: Seq<(Seq<char>, V)>, i: int)
    requires
        assoc_distinct(s),
        0 <= i < s.len(),
    ensures
        assoc_map(s).contains_key(s[i].0),
        assoc_map(s)[s[i].0] == s[i].1,
{
    lemma_assoc_lookup_at(s, i);
    lemma_assoc_map_is_lookup(s, s[i].0);
}

/// The port the dispatcher consumes. An implementation carries a
/// mathematical model of its content; a backend that cannot fail (such as
/// the in-memory table) says so through `total`, and every operation on it
/// is then owed an `Ok`.
pub trait Storage: Sized {
    /// The implementation's internal invariant.
    spec fn inv(&self) -> bool;

    /// The store this backend currently holds.
    spec fn model(&self) -> StoreV;

    /// Whether operations on this backend always succeed.
    spec fn total(&self) -> bool;

    /// The value under (table, key), or None.
    fn get(&self, table: &str, key: &str) -> (r: Result<Option<Value>, KvError>)
        requires
            self.inv(),
        ensures
            match r {
                Ok(prev) => opt_value_view(prev) == store_lookup(self.model(), table@, key@),
                Err(_) => !self.total(),
            },
            self.total() ==> r is Ok,
    ;

    /// Binds (table, key) to `value` and returns the previous value.
    fn set(&mut self, table: &str, key: String, value: Value) -> (r: Result<
        Option<Value>,
        KvError,
    >)
        requires
            old(self).inv(),
        ensures
            final(self).inv(),
            final(self).total() == old(self).total(),
            match r {
                Ok(prev) => {
                    &&& final(self).model() == store_set(old(self).model(), table@, key@, value@)
                    &&& opt_value_view(prev) == store_lookup(old(self).model(), table@, key@)
                },
                Err(_) => {
                    &&& final(self).model() == old(self).model()
                    &&& !old(self).total()
                },
            },
            old(self).total() ==> r is Ok,
    ;

    /// Whether (table, key) is bound.
    fn contains(&self, table: &str, key: &str) -> (r: Result<bool, KvError>)
        requires
            self.inv(),
        ensures
            match r {
                Ok(b) => b == (store_lookup(self.model(), table@, key@) is Some),
                Err(_) => !self.total(),
            },
            self.total() ==> r is Ok,
    ;

    /// Unbinds (table, key) and returns the previous value.
    fn del(&mut self, table: &str, key: &str) -> (r: Result<Option<Value>, KvError>)
        requires
            old(self).inv(),
        ensures
            final(self).inv(),
            final(self).total() == old(self).total(),
            match r {
                Ok(prev) => {
                    &&& final(self).model() == store_del(old(self).model(), table@, key@)
                    &&& opt_value_view(prev) == store_lookup(old(self).model(), table@, key@)
                },
                Err(_) => {
                    &&& final(self).model() == old(self).model()
                    &&& !old(self).total()
                },
            },
            old(self).total() ==> r is Ok,
    ;

    /// Every pair of a table, each key once.
    fn get_all(&self, table: &str) -> (r: Result<Vec<Kvpair>, KvError>)
        requires
            self.inv(),
        ensures
            match r {
                Ok(pairs) => {
                    &&& assoc_distinct(pairs_assoc(crate::pb::pairs_view(pairs@)))
                    &&& assoc_map(pairs_assoc(crate::pb::pairs_view(pairs@))) == store_table(
                        self.model(),
                        table@,
                    )
                },
                Err(_) => !self.total(),
            },
            self.total() ==> r is Ok,
    ;

    /// Every pair of a table, for callers that walk them one by one.
    fn get_iter(&self, table: &str) -> (r: Result<Vec<Kvpair>, KvError>)
        requires
            self.inv(),
        ensures
            match r {
                Ok(pairs) => {
                    &&& assoc_distinct(pairs_assoc(crate::pb::pairs_view(pairs@)))
                    &&& assoc_map(pairs_assoc(crate::pb::pairs_view(pairs@))) == store_table(
                        self.model(),
                        table@,
                    )
                },
                Err(_) => !self.total(),
            },
            self.total() ==> r is Ok,
    ;
}

} // verus!
