//! The storage engine facade: named column families over ordered tables,
//! with typed point, batch and range operations.

use vstd::prelude::*;
use crate::json::{Json, JsonV, dv_fields, obj_get_v};
use crate::strutil::str_eq;
use crate::table::{Table, Entries, sorted_insert, sorted_remove, range_scan, sorted_keys};
use crate::jsontext::json_text;

verus! {

/// The error kinds of the storage facade.
#[derive(Clone, Copy, PartialEq, Eq, Structural, Debug)]
pub enum StoreError {
    KeyNotFound,
    InvalidColumnFamily,
    Serialization,
    Io,
    Query,
}

/// The name and contents of each column family, in registry order.
pub type StoreView = Seq<(Seq<char>, Entries)>;

/// The first contents under a name, if any.
pub open spec fn assoc_get(s: StoreView, k: Seq<char>) -> Option<Entries>
    decreases s.len(),
{
    if s.len() == 0 {
        None
    } else if s[0].0 == k {
        Some(s[0].1)
    } else {
        assoc_get(s.drop_first(), k)
    }
}

/// No two column families share a name.
pub open spec fn names_unique(s: StoreView) -> bool {
    forall|i: int, j: int| 0 <= i < j < s.len() ==> (#[trigger] s[i]).0 != (#[trigger] s[j]).0
}

pub proof fn lemma_assoc_get_at(s: StoreView, i: int)
    requires
        names_unique(s),
        0 <= i < s.len(),
    ensures
        assoc_get(s, s[i].0) == Some(s[i].1),
    decreases s.len(),
{
    if i > 0 {
        assert(s[0].0 != s[i].0);
        assert(s.drop_first()[i - 1] == s[i]);
        assert(names_unique(s.drop_first())) by {
            assert(forall|a: int, b: int|
                0 <= a < b < s.drop_first().len() ==> (#[trigger] s.drop_first()[a]).0 != (
                #[trigger] s.drop_first()[b]).0);
        }
        lemma_assoc_get_at(s.drop_first(), i - 1);
    }
}

/// A name matches no entry exactly when the lookup fails.
pub proof fn lemma_assoc_get_none(s: StoreView, k: Seq<char>)
    ensures
        (assoc_get(s, k) is None) == (forall|i: int| 0 <= i < s.len() ==> (#[trigger] s[i]).0 != k),
    decreases s.len(),
{
    if s.len() > 0 {
        lemma_assoc_get_none(s.drop_first(), k);
        assert(forall|i: int| 0 <= i < s.drop_first().len() ==> s.drop_first()[i] == s[i + 1]);
        if s[0].0 != k && (assoc_get(s.drop_first(), k) is None) {
            assert forall|i: int| 0 <= i < s.len() implies (#[trigger] s[i]).0 != k by {
                if i > 0 {
                    assert(s.drop_first()[i - 1] == s[i]);
                }
            }
        }
    }
}

pub proof fn lemma_assoc_update(s: StoreView, i: int, t: Entries, q: Seq<char>)
    requires
        names_unique(s),
        0 <= i < s.len(),
    ensures
        assoc_get(s.update(i, (s[i].0, t)), q) == if q == s[i].0 {
            Some(t)
        } else {
            assoc_get(s, q)
        },
        names_unique(s.update(i, (s[i].0, t))),
    decreases s.len(),
{
    let out = s.update(i, (s[i].0, t));
    assert forall|a: int, b: int| 0 <= a < b < out.len() implies (#[trigger] out[a]).0 != (
    #[trigger] out[b]).0 by {
        assert(out[a].0 == s[a].0 && out[b].0 == s[b].0);
    }
    if i == 0 {
        assert(out[0] == (s[0].0, t));
        assert(out.drop_first() =~= s.drop_first());
        if q != s[0].0 {
            assert(assoc_get(s, q) == assoc_get(s.drop_first(), q));
        }
    } else {
        assert(names_unique(s.drop_first())) by {
            assert(forall|a: int, b: int|
                0 <= a < b < s.drop_first().len() ==> (#[trigger] s.drop_first()[a]).0 != (
                #[trigger] s.drop_first()[b]).0);
        }
        assert(s.drop_first()[i - 1] == s[i]);
        lemma_assoc_update(s.drop_first(), i - 1, t, q);
        assert(out[0] == s[0]);
        assert(out.drop_first() =~= s.drop_first().update(i - 1, (s[i].0, t)));
        if q == s[i].0 {
            assert(s[0].0 != s[i].0);
        }
    }
}

pub proof fn lemma_assoc_remove(s: StoreView, i: int, q: Seq<char>)
    requires
        names_unique(s),
        0 <= i < s.len(),
    ensures
        assoc_get(s.remove(i), q) == if q == s[i].0 {
            None::<Entries>
        } else {
            assoc_get(s, q)
        },
        names_unique(s.remove(i)),
    decreases s.len(),
{
    let out = s.remove(i);
    assert forall|a: int, b: int| 0 <= a < b < out.len() implies (#[trigger] out[a]).0 != (
    #[trigger] out[b]).0 by {
        let aa = if a < i {
            a
        } else {
            a + 1
        };
        let bb = if b < i {
            b
        } else {
            b + 1
        };
        assert(out[a] == s[aa] && out[b] == s[bb]);
    }
    if i == 0 {
        assert(out =~= s.drop_first());
        if q == s[0].0 {
            lemma_assoc_get_none(s.drop_first(), q);
            assert forall|j: int| 0 <= j < s.drop_first().len() implies (
            #[trigger] s.drop_first()[j]).0 != q by {
                assert(s.drop_first()[j] == s[j + 1]);
            }
        }
    } else {
        assert(names_unique(s.drop_first())) by {
            assert(forall|a: int, b: int|
                0 <= a < b < s.drop_first().len() ==> (#[trigger] s.drop_first()[a]).0 != (
                #[trigger] s.drop_first()[b]).0);
        }
        assert(s.drop_first()[i - 1] == s[i]);
        lemma_assoc_remove(s.drop_first(), i - 1, q);
        assert(out[0] == s[0]);
        assert(out.drop_first() =~= s.drop_first().remove(i - 1));
        if q == s[i].0 {
            assert(s[0].0 != s[i].0);
        }
    }
}

pub proof fn lemma_assoc_push(s: StoreView, k: Seq<char>, t: Entries, q: Seq<char>)
    requires
        names_unique(s),
        assoc_get(s, k) is None,
    ensures
        assoc_get(s.push((k, t)), q) == if q == k {
            Some(t)
        } else {
            assoc_get(s, q)
        },
        names_unique(s.push((k, t))),
    decreases s.len(),
{
    let out = s.push((k, t));
    lemma_assoc_get_none(s, k);
    assert forall|a: int, b: int| 0 <= a < b < out.len() implies (#[trigger] out[a]).0 != (
    #[trigger] out[b]).0 by {
        if b == s.len() {
            assert(out[a] == s[a] && out[b] == (k, t));
        } else {
            assert(out[a] == s[a] && out[b] == s[b]);
        }
    }
    if s.len() == 0 {
        assert(out[0] == (k, t));
        assert(out.drop_first() =~= Seq::<(Seq<char>, Entries)>::empty());
    } else {
        assert(names_unique(s.drop_first())) by {
            assert(forall|a: int, b: int|
                0 <= a < b < s.drop_first().len() ==> (#[trigger] s.drop_first()[a]).0 != (
                #[trigger] s.drop_first()[b]).0);
        }
        assert(assoc_get(s.drop_first(), k) is None) by {
            lemma_assoc_get_none(s.drop_first(), k);
            assert(forall|j: int|
                0 <= j < s.drop_first().len() ==> (#[trigger] s.drop_first()[j]).0 != k) by {
                assert(forall|j: int|
                    0 <= j < s.drop_first().len() ==> s.drop_first()[j] == s[j + 1]);
            }
        }
        lemma_assoc_push(s.drop_first(), k, t, q);
        assert(out[0] == s[0]);
        assert(out.drop_first() =~= s.drop_first().push((k, t)));
        if q == s[0].0 {
            assert(q != k);
            assert(assoc_get(out, q) == Some(s[0].1));
            assert(assoc_get(s, q) == Some(s[0].1));
        } else {
            assert(assoc_get(out, q) == assoc_get(out.drop_first(), q));
            assert(assoc_get(s, q) == assoc_get(s.drop_first(), q));
        }
    }
}

/// Fold a batch into an association, first pair first.
pub open spec fn batch_apply(s: Entries, items: Seq<(Seq<char>, JsonV)>) -> Entries
    decreases items.len(),
{
    if items.len() == 0 {
        s
    } else {
        batch_apply(sorted_insert(s, items[0].0, items[0].1), items.drop_first())
    }
}

/// The storage engine: the registry of column families.
pub struct Store {
    cfs: Vec<(String, Table)>,
}

impl Store {
    /// The registry's names and contents, in registry order.
    pub closed spec fn cfs_v(&self) -> StoreView {
        Seq::new(self.cfs@.len(), |i: int| (self.cfs@[i].0@, self.cfs@[i].1.entries_v()))
    }

    /// The contents of a column family, if it exists.
    pub open spec fn cf_lookup(&self, name: Seq<char>) -> Option<Entries> {
        assoc_get(self.cfs_v(), name)
    }

    /// Unique names, each table well-formed.
    pub closed spec fn wf(&self) -> bool {
        names_unique(self.cfs_v()) && (forall|i: int|
            0 <= i < self.cfs@.len() ==> (#[trigger] self.cfs@[i]).1.wf())
    }

    /// A well-formed store holds every column family in ascending key
    /// order: what a lookup yields is a sorted association, so the range
    /// and round-trip laws apply to it directly.
    pub proof fn lemma_wf_sorted(&self, name: Seq<char>)
        requires
            self.wf(),
            self.cf_lookup(name) is Some,
        ensures
            sorted_keys(self.cf_lookup(name)->Some_0),
    {
        let v = self.cfs_v();
        lemma_assoc_get_none(v, name);
        assert(!(forall|i: int| 0 <= i < v.len() ==> (#[trigger] v[i]).0 != name));
        let i = choose|i: int| 0 <= i < v.len() && (#[trigger] v[i]).0 == name;
        lemma_assoc_get_at(v, i);
    }

    pub fn new() -> (r: Store)
        ensures
            r.wf(),
            r.cfs_v() == Seq::<(Seq<char>, Entries)>::empty(),
    {
        let s = Store { cfs: Vec::new() };
        proof {
            assert(s.cfs_v() =~= Seq::<(Seq<char>, Entries)>::empty());
        }
        s
    }

    /// The registry position of a name, if present.
    #[verifier::loop_isolation(false)]
    fn find_cf(&self, name: &str) -> (r: Option<usize>)
        ensures
            match r {
                Some(i) => i < self.cfs_v().len() && self.cfs_v()[i as int].0 == name@,
                None => forall|i: int|
                    0 <= i < self.cfs_v().len() ==> (#[trigger] self.cfs_v()[i]).0 != name@,
            },
    {
        let mut i: usize = 0;
        while i < self.cfs.len()
            invariant
                i <= self.cfs@.len(),
                forall|j: int| 0 <= j < i ==> (#[trigger] self.cfs_v()[j]).0 != name@,
            decreases self.cfs@.len() - i,
        {
            if str_eq(self.cfs[i].0.as_str(), name) {
                return Some(i);
            }
            i = i + 1;
        }
        None
    }

    pub fn cf_exists(&self, name: &str) -> (r: bool)
        ensures
            r == (self.cf_lookup(name@) is Some),
    {
        let found = self.find_cf(name);
        proof {
            lemma_assoc_get_none(self.cfs_v(), name@);
            if let Some(i) = found {
                lemma_assoc_get_none(self.cfs_v(), name@);
                assert(self.cfs_v()[i as int].0 == name@);
            }
        }
        found.is_some()
    }

    /// Create an empty column family; refused when the name is taken.
    pub fn create_cf(&mut self, name: &str) -> (r: Result<(), StoreError>)
        requires
            old(self).wf(),
        ensures
            final(self).wf(),
            match r {
                Ok(()) => {
                    &&& old(self).cf_lookup(name@) is None
                    &&& forall|q: Seq<char>|
                        final(self).cf_lookup(q) == if q == name@ {
                            Some(Seq::<(Seq<char>, JsonV)>::empty())
                        } else {
                            old(self).cf_lookup(q)
                        }
                },
                Err(e) => {
                    &&& e == StoreError::InvalidColumnFamily
                    &&& old(self).cf_lookup(name@) is Some
                    &&& final(self).cfs_v() == old(self).cfs_v()
                },
            },
    {
        if self.cf_exists(name) {
            return Err(StoreError::InvalidColumnFamily);
        }
        let ghost olds = self.cfs_v();
        let mut name_string = String::new();
        name_string.append(name);
        proof {
            assert(name_string@ =~= name@);
        }
        let table = Table::new();
        self.cfs.push((name_string, table));
        proof {
            assert(self.cfs_v() =~= olds.push((name@, Seq::<(Seq<char>, JsonV)>::empty())));
            assert forall|q: Seq<char>|
                final(self).cf_lookup(q) == if q == name@ {
                    Some(Seq::<(Seq<char>, JsonV)>::empty())
                } else {
                    old(self).cf_lookup(q)
                } by {
                lemma_assoc_push(olds, name@, Seq::<(Seq<char>, JsonV)>::empty(), q);
            }
            lemma_assoc_push(olds, name@, Seq::<(Seq<char>, JsonV)>::empty(), name@);
            assert forall|i: int| 0 <= i < self.cfs@.len() implies (#[trigger] self.cfs@[i]).1.wf()
            by {
                if i < self.cfs@.len() - 1 {
                    assert(self.cfs@[i] == old(self).cfs@[i]);
                }
            }
        }
        Ok(())
    }

    /// Drop a column family and its contents; refused when absent.
    pub fn drop_cf(&mut self, name: &str) -> (r: Result<(), StoreError>)
        requires
            old(self).wf(),
        ensures
            final(self).wf(),
            match r {
                Ok(()) => {
                    &&& old(self).cf_lookup(name@) is Some
                    &&& forall|q: Seq<char>|
                        final(self).cf_lookup(q) == if q == name@ {
                            None::<Entries>
                        } else {
                            old(self).cf_lookup(q)
                        }
                },
                Err(e) => {
                    &&& e == StoreError::InvalidColumnFamily
                    &&& old(self).cf_lookup(name@) is None
                    &&& final(self).cfs_v() == old(self).cfs_v()
                },
            },
    {
        let found = self.find_cf(name);
        match found {
            Some(i) => {
                let ghost olds = self.cfs_v();
                proof {
                    lemma_assoc_get_at(olds, i as int);
                }
                self.cfs.remove(i);
                proof {
                    assert(self.cfs_v() =~= olds.remove(i as int));
                    assert forall|q: Seq<char>|
                        final(self).cf_lookup(q) == if q == name@ {
                            None::<Entries>
                        } else {
                            old(self).cf_lookup(q)
                        } by {
                        lemma_assoc_remove(olds, i as int, q);
                    }
                    lemma_assoc_remove(olds, i as int, name@);
                    assert forall|j: int|
                        0 <= j < self.cfs@.len() implies (#[trigger] self.cfs@[j]).1.wf() by {
                        if j < i {
                            assert(self.cfs@[j] == old(self).cfs@[j]);
                        } else {
                            assert(self.cfs@[j] == old(self).cfs@[j + 1]);
                        }
                    }
                }
                Ok(())
            },
            None => {
                proof {
                    lemma_assoc_get_none(self.cfs_v(), name@);
                }
                Err(StoreError::InvalidColumnFamily)
            },
        }
    }

    /// The document under a key of a column family.
    pub fn get_cf(&self, cf: &str, key: &str) -> (r: Result<&Json, StoreError>)
        requires
            self.wf(),
        ensures
            match r {
                Ok(v) => {
                    &&& self.cf_lookup(cf@) is Some
                    &&& obj_get_v(self.cf_lookup(cf@)->Some_0, key@) == Some(v.dv())
                },
                Err(e) => {
                    &&& (e == StoreError::InvalidColumnFamily || e == StoreError::KeyNotFound)
                    &&& e == StoreError::InvalidColumnFamily ==> self.cf_lookup(cf@) is None
                    &&& e == StoreError::KeyNotFound ==> self.cf_lookup(cf@) is Some && obj_get_v(
                        self.cf_lookup(cf@)->Some_0,
                        key@,
                    ) is None
                },
            },
    {
        match self.find_cf(cf) {
            Some(i) => {
                proof {
                    lemma_assoc_get_at(self.cfs_v(), i as int);
                }
                let pair = &self.cfs[i];
                match pair.1.get(key) {
                    Some(v) => Ok(v),
                    None => Err(StoreError::KeyNotFound),
                }
            },
            None => {
                proof {
                    lemma_assoc_get_none(self.cfs_v(), cf@);
                }
                Err(StoreError::InvalidColumnFamily)
            },
        }
    }

    /// Insert or overwrite a document in a column family.
    pub fn insert_cf(&mut self, cf: &str, key: &str, value: Json) -> (r: Result<(), StoreError>)
        requires
            old(self).wf(),
        ensures
            final(self).wf(),
            match r {
                Ok(()) => {
                    &&& old(self).cf_lookup(cf@) is Some
                    &&& forall|q: Seq<char>|
                        final(self).cf_lookup(q) == if q == cf@ {
                            Some(
                                sorted_insert(
                                    old(self).cf_lookup(cf@)->Some_0,
                                    key@,
                                    value.dv(),
                                ),
                            )
                        } else {
                            old(self).cf_lookup(q)
                        }
                },
                Err(e) => {
                    &&& e == StoreError::InvalidColumnFamily
                    &&& old(self).cf_lookup(cf@) is None
                    &&& final(self).cfs_v() == old(self).cfs_v()
                },
            },
    {
        match self.find_cf(cf) {
            Some(i) => {
                let ghost olds = self.cfs_v();
                proof {
                    lemma_assoc_get_at(olds, i as int);
                }
                let mut pair = self.cfs.remove(i);
                pair.1.upsert(key, value);
                self.cfs.insert(i, pair);
                proof {
                    let newc = sorted_insert(olds[i as int].1, key@, value.dv());
                    assert(self.cfs@ =~= old(self).cfs@.update(i as int, self.cfs@[i as int]));
                    assert(self.cfs_v() =~= olds.update(i as int, (olds[i as int].0, newc)));
                    assert forall|q: Seq<char>|
                        final(self).cf_lookup(q) == if q == cf@ {
                            Some(newc)
                        } else {
                            old(self).cf_lookup(q)
                        } by {
                        lemma_assoc_update(olds, i as int, newc, q);
                    }
                    lemma_assoc_update(olds, i as int, newc, cf@);
                    crate::table::lemma_sorted_insert_sorted(olds[i as int].1, key@, value.dv());
                    assert forall|j: int|
                        0 <= j < self.cfs@.len() implies (#[trigger] self.cfs@[j]).1.wf() by {
                        if j != i {
                            assert(self.cfs@[j] == old(self).cfs@[j]);
                        }
                    }
                }
                Ok(())
            },
            None => {
                proof {
                    lemma_assoc_get_none(self.cfs_v(), cf@);
                }
                Err(StoreError::InvalidColumnFamily)
            },
        }
    }

    /// Delete a document from a column family; deleting an absent key is
    /// accepted and changes nothing.
    pub fn delete_cf(&mut self, cf: &str, key: &str) -> (r: Result<(), StoreError>)
        requires
            old(self).wf(),
        ensures
            final(self).wf(),
            match r {
                Ok(()) => {
                    &&& old(self).cf_lookup(cf@) is Some
                    &&& forall|q: Seq<char>|
                        final(self).cf_lookup(q) == if q == cf@ {
                            Some(sorted_remove(old(self).cf_lookup(cf@)->Some_0, key@))
                        } else {
                            old(self).cf_lookup(q)
                        }
                },
                Err(e) => {
                    &&& e == StoreError::InvalidColumnFamily
                    &&& old(self).cf_lookup(cf@) is None
                    &&& final(self).cfs_v() == old(self).cfs_v()
                },
            },
    {
        match self.find_cf(cf) {
            Some(i) => {
                let ghost olds = self.cfs_v();
                proof {
                    lemma_assoc_get_at(olds, i as int);
                }
                let mut pair = self.cfs.remove(i);
                pair.1.remove(key);
                self.cfs.insert(i, pair);
                proof {
                    let newc = sorted_remove(olds[i as int].1, key@);
                    assert(self.cfs@ =~= old(self).cfs@.update(i as int, self.cfs@[i as int]));
                    assert(self.cfs_v() =~= olds.update(i as int, (olds[i as int].0, newc)));
                    assert forall|q: Seq<char>|
                        final(self).cf_lookup(q) == if q == cf@ {
                            Some(newc)
                        } else {
                            old(self).cf_lookup(q)
                        } by {
                        lemma_assoc_update(olds, i as int, newc, q);
                    }
                    lemma_assoc_update(olds, i as int, newc, cf@);
                    crate::table::lemma_sorted_remove_sorted(olds[i as int].1, key@);
                    assert forall|j: int|
                        0 <= j < self.cfs@.len() implies (#[trigger] self.cfs@[j]).1.wf() by {
                        if j != i {
                            assert(self.cfs@[j] == old(self).cfs@[j]);
                        }
                    }
                }
                Ok(())
            },
            None => {
                proof {
                    lemma_assoc_get_none(self.cfs_v(), cf@);
                }
                Err(StoreError::InvalidColumnFamily)
            },
        }
    }

    /// Write a batch of documents; the whole batch lands or, when the
    /// column family is missing, nothing does.
    #[verifier::loop_isolation(false)]
    pub fn batch_insert_cf(&mut self, cf: &str, items: &Vec<(String, Json)>) -> (r: Result<
        (),
        StoreError,
    >)
        requires
            old(self).wf(),
        ensures
            final(self).wf(),
            match r {
                Ok(()) => {
                    &&& old(self).cf_lookup(cf@) is Some
                    &&& forall|q: Seq<char>|
                        final(self).cf_lookup(q) == if q == cf@ {
                            Some(
                                batch_apply(
                                    old(self).cf_lookup(cf@)->Some_0,
                                    dv_fields(items@),
                                ),
                            )
                        } else {
                            old(self).cf_lookup(q)
                        }
                },
                Err(e) => {
                    &&& e == StoreError::InvalidColumnFamily
                    &&& old(self).cf_lookup(cf@) is None
                    &&& final(self).cfs_v() == old(self).cfs_v()
                },
            },
    {
        match self.find_cf(cf) {
            Some(i) => {
                let ghost olds = self.cfs_v();
                proof {
                    lemma_assoc_get_at(olds, i as int);
                    crate::json::lemma_dv_fields_len(items@);
                }
                let ghost its = dv_fields(items@);
                let mut pair = self.cfs.remove(i);
                let mut j: usize = 0;
                proof {
                    assert(its.take(0) =~= Seq::<(Seq<char>, JsonV)>::empty());
                }
                while j < items.len()
                    invariant
                        j <= items@.len(),
                        pair.1.wf(),
                        pair.0 == old(self).cfs@[i as int].0,
                        pair.1.entries_v() == batch_apply(olds[i as int].1, its.take(j as int)),
                    decreases items@.len() - j,
                {
                    let item = &items[j];
                    pair.1.upsert(item.0.as_str(), item.1.deep_clone());
                    proof {
                        assert(its[j as int] == (items@[j as int].0@, items@[j as int].1.dv()));
                        lemma_batch_apply_snoc(olds[i as int].1, its, j as int);
                    }
                    j = j + 1;
                }
                proof {
                    assert(its.take(items@.len() as int) =~= its);
                }
                self.cfs.insert(i, pair);
                proof {
                    let newc = batch_apply(olds[i as int].1, its);
                    assert(self.cfs@ =~= old(self).cfs@.update(i as int, self.cfs@[i as int]));
                    assert(self.cfs_v() =~= olds.update(i as int, (olds[i as int].0, newc)));
                    assert forall|q: Seq<char>|
                        final(self).cf_lookup(q) == if q == cf@ {
                            Some(newc)
                        } else {
                            old(self).cf_lookup(q)
                        } by {
                        lemma_assoc_update(olds, i as int, newc, q);
                    }
                    lemma_assoc_update(olds, i as int, newc, cf@);
                    assert forall|jx: int|
                        0 <= jx < self.cfs@.len() implies (#[trigger] self.cfs@[jx]).1.wf() by {
                        if jx != i {
                            assert(self.cfs@[jx] == old(self).cfs@[jx]);
                        }
                    }
                }
                Ok(())
            },
            None => {
                proof {
                    lemma_assoc_get_none(self.cfs_v(), cf@);
                }
                Err(StoreError::InvalidColumnFamily)
            },
        }
    }

    /// Scan a window of a column family in key order.
    pub fn get_range_cf(
        &self,
        cf: &str,
        from: &str,
        to: &str,
        limit: usize,
        reverse: bool,
    ) -> (r: Result<Vec<(String, Json)>, StoreError>)
        requires
            self.wf(),
        ensures
            match r {
                Ok(items) => {
                    &&& self.cf_lookup(cf@) is Some
                    &&& dv_fields(items@) == range_scan(
                        self.cf_lookup(cf@)->Some_0,
                        from@,
                        to@,
                        limit as nat,
                        reverse,
                    )
                },
                Err(e) => {
                    &&& e == StoreError::InvalidColumnFamily
                    &&& self.cf_lookup(cf@) is None
                },
            },
    {
        match self.find_cf(cf) {
            Some(i) => {
                proof {
                    lemma_assoc_get_at(self.cfs_v(), i as int);
                }
                let pair = &self.cfs[i];
                Ok(pair.1.range(from, to, limit, reverse))
            },
            None => {
                proof {
                    lemma_assoc_get_none(self.cfs_v(), cf@);
                }
                Err(StoreError::InvalidColumnFamily)
            },
        }
    }

    /// Every document of a column family, in key order.
    pub fn export_cf(&self, cf: &str) -> (r: Result<Vec<(String, Json)>, StoreError>)
        requires
            self.wf(),
        ensures
            match r {
                Ok(items) => {
                    &&& self.cf_lookup(cf@) is Some
                    &&& dv_fields(items@) == self.cf_lookup(cf@)->Some_0
                },
                Err(e) => {
                    &&& e == StoreError::InvalidColumnFamily
                    &&& self.cf_lookup(cf@) is None
                },
            },
    {
        match self.find_cf(cf) {
            Some(i) => {
                proof {
                    lemma_assoc_get_at(self.cfs_v(), i as int);
                }
                let pair = &self.cfs[i];
                Ok(pair.1.export())
            },
            None => {
                proof {
                    lemma_assoc_get_none(self.cfs_v(), cf@);
                }
                Err(StoreError::InvalidColumnFamily)
            },
        }
    }
}

/// One more batch entry is one more insertion.
pub proof fn lemma_batch_apply_snoc(s: Entries, items: Seq<(Seq<char>, JsonV)>, i: int)
    requires
        0 <= i < items.len(),
    ensures
        batch_apply(s, items.take(i + 1)) == sorted_insert(
            batch_apply(s, items.take(i)),
            items[i].0,
            items[i].1,
        ),
    decreases i,
{
    if i == 0 {
        assert(items.take(1) =~= seq![items[0]]);
        assert(items.take(1).drop_first() =~= Seq::<(Seq<char>, JsonV)>::empty());
        assert(items.take(0) =~= Seq::<(Seq<char>, JsonV)>::empty());
        assert(items.take(1)[0] == items[0]);
        let ins = sorted_insert(s, items[0].0, items[0].1);
        assert(batch_apply(ins, Seq::<(Seq<char>, JsonV)>::empty()) == ins);
        assert(batch_apply(s, Seq::<(Seq<char>, JsonV)>::empty()) == s);
    } else {
        let t = items.drop_first();
        assert(items.take(i + 1)[0] == items[0]);
        assert(items.take(i)[0] == items[0]);
        assert(items.take(i + 1).drop_first() =~= t.take(i));
        assert(items.take(i).drop_first() =~= t.take(i - 1));
        assert(t[i - 1] == items[i]);
        lemma_batch_apply_snoc(sorted_insert(s, items[0].0, items[0].1), t, i - 1);
    }
}


/// The reported footprint of a column family.
pub struct CfSize {
    pub sst_bytes: u64,
    pub mem_table_bytes: u64,
    pub blob_bytes: u64,
}

/// The stored characters of a column family: each key with the minified
/// text of its document.
pub open spec fn contents_chars(s: Entries) -> int
    decreases s.len(),
{
    if s.len() == 0 {
        0
    } else {
        s[0].0.len() + json_text(s[0].1).len() + contents_chars(s.drop_first())
    }
}

proof fn lemma_contents_chars_snoc(s: Entries, i: int)
    requires
        0 <= i < s.len(),
    ensures
        contents_chars(s.take(i + 1)) == contents_chars(s.take(i)) + s[i].0.len() + json_text(
            s[i].1,
        ).len(),
        contents_chars(s.take(i)) >= 0,
    decreases i,
{
    if i == 0 {
        assert(s.take(1) =~= seq![s[0]]);
        assert(s.take(1)[0] == s[0]);
        assert(s.take(1).drop_first() =~= Seq::<(Seq<char>, JsonV)>::empty());
        assert(s.take(0) =~= Seq::<(Seq<char>, JsonV)>::empty());
        assert(contents_chars(Seq::<(Seq<char>, JsonV)>::empty()) == 0);
    } else {
        let t = s.drop_first();
        lemma_contents_chars_snoc(t, i - 1);
        assert(s.take(i + 1).drop_first() =~= t.take(i));
        assert(s.take(i).drop_first() =~= t.take(i - 1));
        assert(s.take(i + 1)[0] == s[0]);
        assert(s.take(i)[0] == s[0]);
        assert(t[i - 1] == s[i]);
    }
}

impl Store {
    /// The footprint of a column family: the characters its keys and
    /// minified documents occupy, capped at the counter's width. This
    /// engine keeps everything in its sorted tables, so the memtable and
    /// blob shares are zero.
    #[verifier::loop_isolation(false)]
    pub fn get_cf_size(&self, cf: &str) -> (r: Result<CfSize, StoreError>)
        requires
            self.wf(),
        ensures
            match r {
                Ok(size) => {
                    &&& self.cf_lookup(cf@) is Some
                    &&& size.sst_bytes as int == if contents_chars(self.cf_lookup(cf@)->Some_0)
                        <= u64::MAX as int {
                        contents_chars(self.cf_lookup(cf@)->Some_0)
                    } else {
                        u64::MAX as int
                    }
                    &&& size.mem_table_bytes == 0
                    &&& size.blob_bytes == 0
                },
                Err(e) => {
                    &&& e == StoreError::InvalidColumnFamily
                    &&& self.cf_lookup(cf@) is None
                },
            },
    {
        let entries = match self.export_cf(cf) {
            Ok(entries) => entries,
            Err(e) => {
                return Err(e);
            },
        };
        proof {
            crate::json::lemma_dv_fields_len(entries@);
        }
        let ghost dvs = dv_fields(entries@);
        let mut total: u64 = 0;
        let mut i: usize = 0;
        proof {
            assert(dvs.take(0) =~= Seq::<(Seq<char>, JsonV)>::empty());
            assert(contents_chars(dvs.take(0)) == 0);
        }
        while i < entries.len()
            invariant
                i <= entries@.len(),
                total as int == if contents_chars(dvs.take(i as int)) <= u64::MAX as int {
                    contents_chars(dvs.take(i as int))
                } else {
                    u64::MAX as int
                },
            decreases entries@.len() - i,
        {
            let entry = &entries[i];
            proof {
                assert(dvs[i as int] == (entries@[i as int].0@, entries@[i as int].1.dv()));
                lemma_contents_chars_snoc(dvs, i as int);
            }
            let key_len = vstd::string::StrSliceExecFns::unicode_len(entry.0.as_str());
            let mut text: Vec<char> = Vec::new();
            crate::jsontext::write_json(&entry.1, &mut text);
            let step: u64 = if key_len as u64 <= u64::MAX - text.len() as u64 {
                key_len as u64 + text.len() as u64
            } else {
                u64::MAX
            };
            total = if total <= u64::MAX - step {
                total + step
            } else {
                u64::MAX
            };
            i = i + 1;
        }
        proof {
            assert(dvs.take(entries@.len() as int) =~= dvs);
        }
        Ok(CfSize { sst_bytes: total, mem_table_bytes: 0, blob_bytes: 0 })
    }
}

} // verus!
