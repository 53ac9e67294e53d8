//! The in-memory storage backend: tables of key-value pairs held as
//! association lists, modelled by a map of maps.

use vstd::prelude::*;

use crate::error::KvError;
use crate::pb::{pairs_view, Kvpair, Value, ValueV};
use crate::storage::{
    assoc_distinct, assoc_map, lemma_assoc_distinct_remove, lemma_assoc_map_at,
    lemma_assoc_map_is_lookup, lemma_assoc_map_not_contains, lemma_assoc_map_push,
    lemma_assoc_map_remove, lemma_assoc_map_update, pairs_assoc, store_del, store_set, Storage,
    StoreV,
};

verus! {

/// One named table and its pairs, in insertion order.
struct TableData {
    name: String,
    entries: Vec<Kvpair>,
}

/// The association list a table's pairs denote.
spec fn entries_assoc(s: Seq<Kvpair>) -> Seq<(Seq<char>, ValueV)> {
    pairs_assoc(pairs_view(s))
}

/// The association list of the whole store: table name to table content.
spec fn tables_assoc(ts: Seq<TableData>) -> Seq<(Seq<char>, Map<Seq<char>, ValueV>)> {
    ts.map_values(|td: TableData| (td.name@, assoc_map(entries_assoc(td.entries@))))
}

/// The in-memory storage backend. Operations never fail.
pub struct MemTable {
    tables: Vec<TableData>,
}

impl MemTable {
    /// An empty store.
    pub fn new() -> (r: Self)
        ensures
            r.inv(),
            r.total(),
            r.model() == Map::<Seq<char>, Map<Seq<char>, ValueV>>::empty(),
    {
        let r = MemTable { tables: Vec::new() };
        proof {
            assert(tables_assoc(r.tables@) =~= Seq::<(Seq<char>, Map<Seq<char>, ValueV>)>::empty());
        }
        r
    }

    /// The index of the table named `t`, if one exists.
    fn find_table(&self, t: &String) -> (r: Option<usize>)
        ensures
            match r {
                Some(i) => i < self.tables@.len() && self.tables@[i as int].name@ == t@,
                None => forall|j: int|
                    0 <= j < self.tables@.len() ==> self.tables@[j].name@ != t@,
            },
    {
        let mut i: usize = 0;
        while i < self.tables.len()
            invariant
                i <= self.tables@.len(),
                forall|j: int| 0 <= j < i ==> self.tables@[j].name@ != t@,
            decreases self.tables@.len() - i,
        {
            if String::eq(&self.tables[i].name, t) {
                return Some(i);
            }
            i = i + 1;
        }
        None
    }
}

impl Default for MemTable {
    fn default() -> (r: Self)
        ensures
            r.inv(),
            r.total(),
            r.model() == Map::<Seq<char>, Map<Seq<char>, ValueV>>::empty(),
    {
        MemTable::new()
    }
}

/// The index of the pair keyed `k`, if one exists.
fn find_entry(entries: &Vec<Kvpair>, k: &String) -> (r: Option<usize>)
    ensures
        match r {
            Some(j) => j < entries@.len() && entries@[j as int].key@ == k@,
            None => forall|j: int| 0 <= j < entries@.len() ==> entries@[j].key@ != k@,
        },
{
    let mut j: usize = 0;
    while j < entries.len()
        invariant
            j <= entries@.len(),
            forall|l: int| 0 <= l < j ==> entries@[l].key@ != k@,
        decreases entries@.len() - j,
    {
        if String::eq(&entries[j].key, k) {
            return Some(j);
        }
        j = j + 1;
    }
    None
}

impl Storage for MemTable {
    closed spec fn inv(&self) -> bool {
        &&& assoc_distinct(tables_assoc(self.tables@))
        &&& forall|i: int|
            0 <= i < self.tables@.len() ==> assoc_distinct(
                entries_assoc(#[trigger] self.tables@[i].entries@),
            )
    }

    closed spec fn model(&self) -> StoreV {
        assoc_map(tables_assoc(self.tables@))
    }

    closed spec fn total(&self) -> bool {
        true
    }

    fn get(&self, table: &str, key: &str) -> (r: Result<Option<Value>, KvError>)
        ensures
            r is Ok,
    {
        let t = table.to_owned();
        let k = key.to_owned();
        proof {
            lemma_assoc_map_is_lookup(tables_assoc(self.tables@), t@);
        }
        match self.find_table(&t) {
            None => {
                proof {
                    lemma_assoc_map_not_contains(tables_assoc(self.tables@), t@);
                }
                Ok(None)
            },
            Some(i) => {
                proof {
                    lemma_assoc_map_at(tables_assoc(self.tables@), i as int);
                }
                let entries = &self.tables[i].entries;
                match find_entry(entries, &k) {
                    None => {
                        proof {
                            lemma_assoc_map_not_contains(entries_assoc(entries@), k@);
                        }
                        Ok(None)
                    },
                    Some(j) => {
                        proof {
                            lemma_assoc_map_at(entries_assoc(entries@), j as int);
                        }
                        Ok(Some(entries[j].value.dup()))
                    },
                }
            },
        }
    }

    fn set(&mut self, table: &str, key: String, value: Value) -> (r: Result<
        Option<Value>,
        KvError,
    >)
        ensures
            r is Ok,
    {
        let t = table.to_owned();
        let ghost m0 = self.model();
        let ghost ta0 = tables_assoc(self.tables@);
        match self.find_table(&t) {
            None => {
                proof {
                    lemma_assoc_map_not_contains(ta0, t@);
                }
                let mut entries: Vec<Kvpair> = Vec::new();
                let ghost k = key@;
                entries.push(Kvpair { key, value });
                let td = TableData { name: t, entries };
                self.tables.push(td);
                proof {
                    let e1 = entries_assoc(self.tables@.last().entries@);
                    let emp = Seq::<(Seq<char>, ValueV)>::empty();
                    assert(e1 =~= emp.push((k, value@)));
                    lemma_assoc_map_push(emp, (k, value@));
                    assert(assoc_map(emp) =~= Map::<Seq<char>, ValueV>::empty());
                    assert(assoc_map(e1) == Map::<Seq<char>, ValueV>::empty().insert(k, value@));
                    assert(tables_assoc(self.tables@) =~= ta0.push((table@, assoc_map(e1))));
                    lemma_assoc_map_push(ta0, (table@, assoc_map(e1)));
                    assert(self.model() == store_set(m0, table@, k, value@));
                    assert forall|a: int, b: int|
                        0 <= a < b < tables_assoc(self.tables@).len() implies tables_assoc(
                        self.tables@,
                    )[a].0 != tables_assoc(self.tables@)[b].0 by {
                        if b == tables_assoc(self.tables@).len() - 1 {
                            assert(tables_assoc(self.tables@)[a].0 == ta0[a].0);
                        }
                    }
                    assert forall|i: int|
                        0 <= i < self.tables@.len() implies assoc_distinct(
                        entries_assoc(#[trigger] self.tables@[i].entries@),
                    ) by {
                        if i < self.tables@.len() - 1 {
                            assert(self.tables@[i] == old(self).tables@[i]);
                        } else {
                            assert(entries_assoc(self.tables@[i].entries@) =~= e1);
                        }
                    }
                }
                Ok(None)
            },
            Some(i) => {
                proof {
                    lemma_assoc_map_at(ta0, i as int);
                }
                let ghost e0 = entries_assoc(self.tables@[i as int].entries@);
                let ghost k = key@;
                match find_entry(&self.tables[i].entries, &key) {
                    Some(j) => {
                        proof {
                            lemma_assoc_map_at(e0, j as int);
                        }
                        let prev = self.tables[i].entries[j].value.dup();
                        self.tables[i].entries[j] = Kvpair { key, value };
                        proof {
                            let e1 = entries_assoc(self.tables@[i as int].entries@);
                            assert(e1 =~= e0.update(j as int, (k, value@)));
                            lemma_assoc_map_update(e0, j as int, value@);
                            assert(tables_assoc(self.tables@) =~= ta0.update(
                                i as int,
                                (t@, assoc_map(e1)),
                            ));
                            lemma_assoc_map_update(ta0, i as int, assoc_map(e1));
                            assert(self.model() == store_set(m0, table@, k, value@));
                            assert forall|l: int|
                                0 <= l < self.tables@.len() implies assoc_distinct(
                                entries_assoc(#[trigger] self.tables@[l].entries@),
                            ) by {
                                if l != i {
                                    assert(self.tables@[l] == old(self).tables@[l]);
                                } else {
                                    assert forall|a: int, b: int|
                                        0 <= a < b < e1.len() implies e1[a].0 != e1[b].0 by {
                                        assert(e0[a].0 == e1[a].0);
                                        assert(e0[b].0 == e1[b].0);
                                    }
                                }
                            }
                            assert(assoc_distinct(tables_assoc(self.tables@))) by {
                                assert forall|a: int, b: int|
                                    0 <= a < b < tables_assoc(self.tables@).len() implies
                                    tables_assoc(self.tables@)[a].0 != tables_assoc(
                                    self.tables@,
                                )[b].0 by {
                                    assert(tables_assoc(self.tables@)[a].0 == ta0[a].0);
                                    assert(tables_assoc(self.tables@)[b].0 == ta0[b].0);
                                }
                            }
                        }
                        Ok(Some(prev))
                    },
                    None => {
                        proof {
                            lemma_assoc_map_not_contains(e0, k);
                        }
                        self.tables[i].entries.push(Kvpair { key, value });
                        proof {
                            let e1 = entries_assoc(self.tables@[i as int].entries@);
                            assert(e1 =~= e0.push((k, value@)));
                            lemma_assoc_map_push(e0, (k, value@));
                            assert(tables_assoc(self.tables@) =~= ta0.update(
                                i as int,
                                (t@, assoc_map(e1)),
                            ));
                            lemma_assoc_map_update(ta0, i as int, assoc_map(e1));
                            assert(self.model() == store_set(m0, table@, k, value@));
                            assert forall|l: int|
                                0 <= l < self.tables@.len() implies assoc_distinct(
                                entries_assoc(#[trigger] self.tables@[l].entries@),
                            ) by {
                                if l != i {
                                    assert(self.tables@[l] == old(self).tables@[l]);
                                } else {
                                    assert forall|a: int, b: int|
                                        0 <= a < b < e1.len() implies e1[a].0 != e1[b].0 by {
                                        if b < e1.len() - 1 {
                                            assert(e0[a].0 == e1[a].0);
                                            assert(e0[b].0 == e1[b].0);
                                        } else {
                                            assert(e1[a].0 == e0[a].0);
                                        }
                                    }
                                }
                            }
                            assert(assoc_distinct(tables_assoc(self.tables@))) by {
                                assert forall|a: int, b: int|
                                    0 <= a < b < tables_assoc(self.tables@).len() implies
                                    tables_assoc(self.tables@)[a].0 != tables_assoc(
                                    self.tables@,
                                )[b].0 by {
                                    assert(tables_assoc(self.tables@)[a].0 == ta0[a].0);
                                    assert(tables_assoc(self.tables@)[b].0 == ta0[b].0);
                                }
                            }
                        }
                        Ok(None)
                    },
                }
            },
        }
    }

    fn contains(&self, table: &str, key: &str) -> (r: Result<bool, KvError>)
        ensures
            r is Ok,
    {
        let t = table.to_owned();
        let k = key.to_owned();
        proof {
            lemma_assoc_map_is_lookup(tables_assoc(self.tables@), t@);
        }
        match self.find_table(&t) {
            None => {
                proof {
                    lemma_assoc_map_not_contains(tables_assoc(self.tables@), t@);
                }
                Ok(false)
            },
            Some(i) => {
                proof {
                    lemma_assoc_map_at(tables_assoc(self.tables@), i as int);
                }
                let entries = &self.tables[i].entries;
                match find_entry(entries, &k) {
                    None => {
                        proof {
                            lemma_assoc_map_not_contains(entries_assoc(entries@), k@);
                        }
                        Ok(false)
                    },
                    Some(j) => {
                        proof {
                            lemma_assoc_map_at(entries_assoc(entries@), j as int);
                        }
                        Ok(true)
                    },
                }
            },
        }
    }

    fn del(&mut self, table: &str, key: &str) -> (r: Result<Option<Value>, KvError>)
        ensures
            r is Ok,
    {
        let t = table.to_owned();
        let k = key.to_owned();
        let ghost m0 = self.model();
        let ghost ta0 = tables_assoc(self.tables@);
        match self.find_table(&t) {
            None => {
                proof {
                    lemma_assoc_map_not_contains(ta0, t@);
                }
                Ok(None)
            },
            Some(i) => {
                proof {
                    lemma_assoc_map_at(ta0, i as int);
                }
                let ghost e0 = entries_assoc(self.tables@[i as int].entries@);
                match find_entry(&self.tables[i].entries, &k) {
                    None => {
                        proof {
                            lemma_assoc_map_not_contains(e0, k@);
                            assert(m0[t@].remove(k@) =~= m0[t@]);
                            assert(m0.insert(t@, m0[t@]) =~= m0);
                        }
                        Ok(None)
                    },
                    Some(j) => {
                        proof {
                            lemma_assoc_map_at(e0, j as int);
                        }
                        let removed = self.tables[i].entries.remove(j);
                        proof {
                            let e1 = entries_assoc(self.tables@[i as int].entries@);
                            assert(e1 =~= e0.remove(j as int));
                            lemma_assoc_map_remove(e0, j as int);
                            lemma_assoc_distinct_remove(e0, j as int);
                            assert(tables_assoc(self.tables@) =~= ta0.update(
                                i as int,
                                (t@, assoc_map(e1)),
                            ));
                            lemma_assoc_map_update(ta0, i as int, assoc_map(e1));
                            assert(self.model() == store_del(m0, table@, key@));
                            assert forall|l: int|
                                0 <= l < self.tables@.len() implies assoc_distinct(
                                entries_assoc(#[trigger] self.tables@[l].entries@),
                            ) by {
                                if l != i {
                                    assert(self.tables@[l] == old(self).tables@[l]);
                                } else {
                                    assert(entries_assoc(self.tables@[l].entries@) =~= e1);
                                }
                            }
                            assert(assoc_distinct(tables_assoc(self.tables@))) by {
                                assert forall|a: int, b: int|
                                    0 <= a < b < tables_assoc(self.tables@).len() implies
                                    tables_assoc(self.tables@)[a].0 != tables_assoc(
                                    self.tables@,
                                )[b].0 by {
                                    assert(tables_assoc(self.tables@)[a].0 == ta0[a].0);
                                    assert(tables_assoc(self.tables@)[b].0 == ta0[b].0);
                                }
                            }
                        }
                        Ok(Some(removed.value))
                    },
                }
            },
        }
    }

    fn get_all(&self, table: &str) -> (r: Result<Vec<Kvpair>, KvError>)
        ensures
            r is Ok,
    {
        let t = table.to_owned();
        match self.find_table(&t) {
            None => {
                proof {
                    lemma_assoc_map_not_contains(tables_assoc(self.tables@), t@);
                    let none: Seq<Kvpair> = Seq::empty();
                    assert(pairs_assoc(pairs_view(none)) =~= Seq::<(Seq<char>, ValueV)>::empty());
                }
                Ok(Vec::new())
            },
            Some(i) => {
                proof {
                    lemma_assoc_map_at(tables_assoc(self.tables@), i as int);
                }
                let entries = &self.tables[i].entries;
                let mut out: Vec<Kvpair> = Vec::new();
                let mut j: usize = 0;
                while j < entries.len()
                    invariant
                        j <= entries@.len(),
                        out@.len() == j,
                        forall|l: int| 0 <= l < j ==> out@[l]@ == entries@[l]@,
                    decreases entries@.len() - j,
                {
                    out.push(entries[j].dup());
                    j = j + 1;
                }
                proof {
                    assert(pairs_assoc(pairs_view(out@)) =~= entries_assoc(entries@));
                }
                Ok(out)
            },
        }
    }

    fn get_iter(&self, table: &str) -> (r: Result<Vec<Kvpair>, KvError>)
        ensures
            r is Ok,
    {
        self.get_all(table)
    }
}

} // verus!
