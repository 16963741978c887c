//! One column family: documents under string keys, held in ascending key
//! order, with point and range access.

use vstd::prelude::*;
use crate::json::{Json, JsonV, dv_fields, lemma_dv_fields_len, obj_get_v};
use crate::strutil::{lex_lt, lex_le, str_lt, str_eq, lemma_lex_lt_trichotomy,
    lemma_lex_lt_asymmetric, lemma_lex_lt_transitive, lemma_lex_lt_irreflexive};

verus! {

/// An association of keys to document views, in storage order.
pub type Entries = Seq<(Seq<char>, JsonV)>;

/// Keys strictly ascending.
pub open spec fn sorted_keys(s: Entries) -> bool {
    forall|i: int, j: int| 0 <= i < j < s.len() ==> lex_lt(#[trigger] s[i].0, #[trigger] s[j].0)
}

/// Insert or overwrite a key in an ascending association.
pub open spec fn sorted_insert(s: Entries, k: Seq<char>, v: JsonV) -> Entries
    decreases s.len(),
{
    if s.len() == 0 {
        seq![(k, v)]
    } else if lex_lt(k, s[0].0) {
        seq![(k, v)] + s
    } else if k == s[0].0 {
        seq![(k, v)] + s.drop_first()
    } else {
        seq![s[0]] + sorted_insert(s.drop_first(), k, v)
    }
}

/// Remove a key from an ascending association; unchanged when absent.
pub open spec fn sorted_remove(s: Entries, k: Seq<char>) -> Entries
    decreases s.len(),
{
    if s.len() == 0 {
        s
    } else if s[0].0 == k {
        s.drop_first()
    } else {
        seq![s[0]] + sorted_remove(s.drop_first(), k)
    }
}

/// What a lookup of `k` finds after inserting `(k', v)`.
#[verifier::spinoff_prover]
pub proof fn lemma_sorted_insert_lookup(s: Entries, k: Seq<char>, v: JsonV, q: Seq<char>)
    ensures
        obj_get_v(sorted_insert(s, k, v), q) == if q == k {
            Some(v)
        } else {
            obj_get_v(s, q)
        },
    decreases s.len(),
{
    let out = sorted_insert(s, k, v);
    if s.len() == 0 {
        assert(out == seq![(k, v)]);
        assert(out.drop_first() =~= Seq::<(Seq<char>, JsonV)>::empty());
    } else if lex_lt(k, s[0].0) {
        assert(out == seq![(k, v)] + s);
        assert(out[0] == (k, v));
        assert(out.drop_first() =~= s);
    } else if k == s[0].0 {
        assert(out == seq![(k, v)] + s.drop_first());
        assert(out[0] == (k, v));
        assert(out.drop_first() =~= s.drop_first());
        if q != k {
            assert(obj_get_v(s, q) == obj_get_v(s.drop_first(), q));
        }
    } else {
        lemma_sorted_insert_lookup(s.drop_first(), k, v, q);
        assert(out == seq![s[0]] + sorted_insert(s.drop_first(), k, v));
        assert(out[0] == s[0]);
        assert(out.drop_first() =~= sorted_insert(s.drop_first(), k, v));
        if q == s[0].0 {
            assert(k != s[0].0);
        }
    }
}

/// What a lookup of `q` finds after removing `k`.
pub proof fn lemma_sorted_remove_lookup(s: Entries, k: Seq<char>, q: Seq<char>)
    requires
        sorted_keys(s),
    ensures
        obj_get_v(sorted_remove(s, k), q) == if q == k {
            None::<JsonV>
        } else {
            obj_get_v(s, q)
        },
    decreases s.len(),
{
    let out = sorted_remove(s, k);
    if s.len() == 0 {
    } else if s[0].0 == k {
        assert(out =~= s.drop_first());
        if q == k {
            lemma_sorted_absent(s.drop_first(), k);
        }
    } else {
        assert(sorted_keys(s.drop_first())) by {
            assert(forall|i: int, j: int|
                0 <= i < j < s.drop_first().len() ==> lex_lt(
                    #[trigger] s.drop_first()[i].0,
                    #[trigger] s.drop_first()[j].0,
                ));
        }
        lemma_sorted_remove_lookup(s.drop_first(), k, q);
        assert(out == seq![s[0]] + sorted_remove(s.drop_first(), k));
        assert(out[0] == s[0]);
        assert(out.drop_first() =~= sorted_remove(s.drop_first(), k));
    }
}

/// In an ascending association whose keys all exceed `k`, `k` is absent;
/// stated through the head: if the head key is greater, nothing matches.
proof fn lemma_sorted_absent(s: Entries, k: Seq<char>)
    requires
        sorted_keys(s),
        s.len() > 0 ==> lex_lt(k, s[0].0),
    ensures
        obj_get_v(s, k) is None,
    decreases s.len(),
{
    if s.len() > 0 {
        lemma_lex_lt_irreflexive(k);
        assert(s[0].0 != k);
        assert(sorted_keys(s.drop_first()));
        if s.drop_first().len() > 0 {
            assert(s.drop_first()[0] == s[1]);
            lemma_lex_lt_transitive(k, s[0].0, s[1].0);
        }
        lemma_sorted_absent(s.drop_first(), k);
    }
}

/// Inserting keeps keys ascending.
pub proof fn lemma_sorted_insert_sorted(s: Entries, k: Seq<char>, v: JsonV)
    requires
        sorted_keys(s),
    ensures
        sorted_keys(sorted_insert(s, k, v)),
        sorted_insert(s, k, v).len() == if obj_get_v(s, k) is Some {
            s.len()
        } else {
            s.len() + 1
        },
    decreases s.len(),
{
    let out = sorted_insert(s, k, v);
    if s.len() == 0 {
    } else if lex_lt(k, s[0].0) {
        lemma_sorted_absent(s, k);
        assert forall|i: int, j: int| 0 <= i < j < out.len() implies lex_lt(
            #[trigger] out[i].0,
            #[trigger] out[j].0,
        ) by {
            if i == 0 {
                if j > 1 {
                    lemma_lex_lt_transitive(k, s[0].0, s[j - 1].0);
                }
            }
        }
    } else if k == s[0].0 {
        assert(out =~= seq![(k, v)] + s.drop_first());
        assert forall|i: int, j: int| 0 <= i < j < out.len() implies lex_lt(
            #[trigger] out[i].0,
            #[trigger] out[j].0,
        ) by {
            if i == 0 {
                assert(out[j] == s[j]);
                assert(lex_lt(s[0].0, s[j].0));
            } else {
                assert(out[i] == s[i] && out[j] == s[j]);
            }
        }
    } else {
        lemma_lex_lt_trichotomy(k, s[0].0);
        assert(lex_lt(s[0].0, k));
        assert(sorted_keys(s.drop_first()));
        lemma_sorted_insert_sorted(s.drop_first(), k, v);
        let rest = sorted_insert(s.drop_first(), k, v);
        assert(out == seq![s[0]] + rest);
        lemma_sorted_insert_members(s.drop_first(), k, v);
        assert forall|i: int, j: int| 0 <= i < j < out.len() implies lex_lt(
            #[trigger] out[i].0,
            #[trigger] out[j].0,
        ) by {
            if i == 0 {
                assert(out[j] == rest[j - 1]);
                if rest[j - 1].0 == k {
                    assert(lex_lt(s[0].0, k));
                } else {
                    let idx = choose|idx: int|
                        0 <= idx < s.drop_first().len() && s.drop_first()[idx] == rest[j - 1];
                    assert(s.drop_first()[idx] == s[idx + 1]);
                    assert(lex_lt(s[0].0, s[idx + 1].0));
                }
            } else {
                assert(out[i] == rest[i - 1] && out[j] == rest[j - 1]);
            }
        }
        assert(obj_get_v(s, k) == obj_get_v(s.drop_first(), k));
    }
}

/// Every entry of an insertion result either carries the inserted key or
/// stems from the original association.
proof fn lemma_sorted_insert_members(s: Entries, k: Seq<char>, v: JsonV)
    ensures
        forall|j: int|
            0 <= j < sorted_insert(s, k, v).len() ==> (#[trigger] sorted_insert(s, k, v)[j]).0 == k
                || (exists|i: int| 0 <= i < s.len() && s[i] == sorted_insert(s, k, v)[j]),
    decreases s.len(),
{
    let out = sorted_insert(s, k, v);
    if s.len() == 0 {
    } else if lex_lt(k, s[0].0) {
        assert forall|j: int|
            0 <= j < out.len() implies (#[trigger] out[j]).0 == k || (exists|i: int|
            0 <= i < s.len() && s[i] == out[j]) by {
            if j > 0 {
                assert(s[j - 1] == out[j]);
            }
        }
    } else if k == s[0].0 {
        assert forall|j: int|
            0 <= j < out.len() implies (#[trigger] out[j]).0 == k || (exists|i: int|
            0 <= i < s.len() && s[i] == out[j]) by {
            if j > 0 {
                assert(s[j] == out[j]);
            }
        }
    } else {
        lemma_sorted_insert_members(s.drop_first(), k, v);
        let rest = sorted_insert(s.drop_first(), k, v);
        assert forall|j: int|
            0 <= j < out.len() implies (#[trigger] out[j]).0 == k || (exists|i: int|
            0 <= i < s.len() && s[i] == out[j]) by {
            if j == 0 {
                assert(s[0] == out[0]);
            } else {
                assert(out[j] == rest[j - 1]);
                if rest[j - 1].0 != k {
                    let idx = choose|idx: int|
                        0 <= idx < s.drop_first().len() && s.drop_first()[idx] == rest[j - 1];
                    assert(s[idx + 1] == rest[j - 1]);
                }
            }
        }
    }
}

/// Removing keeps keys ascending.
pub proof fn lemma_sorted_remove_sorted(s: Entries, k: Seq<char>)
    requires
        sorted_keys(s),
    ensures
        sorted_keys(sorted_remove(s, k)),
        sorted_remove(s, k).len() == if obj_get_v(s, k) is Some {
            s.len() - 1
        } else {
            s.len() as int
        },
    decreases s.len(),
{
    let out = sorted_remove(s, k);
    if s.len() == 0 {
    } else if s[0].0 == k {
        assert(out =~= s.drop_first());
        assert(sorted_keys(s.drop_first()));
    } else {
        assert(sorted_keys(s.drop_first()));
        lemma_sorted_remove_sorted(s.drop_first(), k);
        let rest = sorted_remove(s.drop_first(), k);
        lemma_sorted_remove_members(s.drop_first(), k);
        assert forall|i: int, j: int| 0 <= i < j < out.len() implies lex_lt(
            #[trigger] out[i].0,
            #[trigger] out[j].0,
        ) by {
            if i == 0 {
                assert(out[j] == rest[j - 1]);
                let idx = choose|idx: int|
                    0 <= idx < s.drop_first().len() && s.drop_first()[idx] == rest[j - 1];
                assert(s.drop_first()[idx] == s[idx + 1]);
                assert(lex_lt(s[0].0, s[idx + 1].0));
            } else {
                assert(out[i] == rest[i - 1] && out[j] == rest[j - 1]);
            }
        }
        assert(obj_get_v(s, k) == obj_get_v(s.drop_first(), k));
    }
}

/// Every entry of a removal result stems from the original association.
proof fn lemma_sorted_remove_members(s: Entries, k: Seq<char>)
    ensures
        forall|j: int|
            0 <= j < sorted_remove(s, k).len() ==> (exists|i: int|
                0 <= i < s.len() && s[i] == #[trigger] sorted_remove(s, k)[j]),
    decreases s.len(),
{
    let out = sorted_remove(s, k);
    if s.len() == 0 {
    } else if s[0].0 == k {
        assert forall|j: int|
            0 <= j < out.len() implies (exists|i: int| 0 <= i < s.len() && s[i] == #[trigger] out[j])
        by {
            assert(s[j + 1] == out[j]);
        }
    } else {
        lemma_sorted_remove_members(s.drop_first(), k);
        let rest = sorted_remove(s.drop_first(), k);
        assert forall|j: int|
            0 <= j < out.len() implies (exists|i: int| 0 <= i < s.len() && s[i] == #[trigger] out[j])
        by {
            if j == 0 {
                assert(s[0] == out[0]);
            } else {
                assert(out[j] == rest[j - 1]);
                let idx = choose|idx: int|
                    0 <= idx < s.drop_first().len() && s.drop_first()[idx] == rest[j - 1];
                assert(s[idx + 1] == rest[j - 1]);
            }
        }
    }
}

/// One column family.
pub struct Table {
    entries: Vec<(String, Json)>,
}

impl Table {
    /// The association this table holds, in storage order.
    pub closed spec fn entries_v(&self) -> Entries {
        dv_fields(self.entries@)
    }

    /// Keys ascending: the well-formedness every operation keeps.
    pub open spec fn wf(&self) -> bool {
        sorted_keys(self.entries_v())
    }

    /// The document under a key, if any.
    pub open spec fn lookup(&self, k: Seq<char>) -> Option<JsonV> {
        obj_get_v(self.entries_v(), k)
    }

    pub fn new() -> (r: Table)
        ensures
            r.entries_v() == Seq::<(Seq<char>, JsonV)>::empty(),
            r.wf(),
    {
        let t = Table { entries: Vec::new() };
        proof {
            lemma_dv_fields_len(t.entries@);
            assert(t.entries_v() =~= Seq::<(Seq<char>, JsonV)>::empty());
        }
        t
    }

    pub fn len(&self) -> (r: usize)
        ensures
            r == self.entries_v().len(),
    {
        proof {
            lemma_dv_fields_len(self.entries@);
        }
        self.entries.len()
    }

    pub fn get(&self, key: &str) -> (r: Option<&Json>)
        ensures
            match r {
                Some(v) => self.lookup(key@) == Some(v.dv()),
                None => self.lookup(key@) is None,
            },
    {
        proof {
            lemma_dv_fields_len(self.entries@);
            assert(self.entries_v().skip(0) =~= self.entries_v());
        }
        let ghost s = self.entries_v();
        let mut i: usize = 0;
        while i < self.entries.len()
            invariant
                i <= self.entries@.len(),
                s == dv_fields(self.entries@),
                dv_fields(self.entries@).len() == self.entries@.len(),
                forall|j: int|
                    0 <= j < self.entries@.len() ==> dv_fields(self.entries@)[j] == ((
                    #[trigger] self.entries@[j]).0@, self.entries@[j].1.dv()),
                obj_get_v(s, key@) == obj_get_v(s.skip(i as int), key@),
            decreases self.entries@.len() - i,
        {
            let entry = &self.entries[i];
            if str_eq(entry.0.as_str(), key) {
                proof {
                    let rest = s.skip(i as int);
                    assert(rest[0] == s[i as int]);
                    assert(rest.len() > 0);
                    assert(rest[0].0 == key@);
                    assert(obj_get_v(rest, key@) == Some(rest[0].1));
                }
                return Some(&entry.1);
            }
            proof {
                let rest = s.skip(i as int);
                assert(rest[0] == s[i as int]);
                assert(rest.drop_first() =~= s.skip(i + 1));
            }
            i = i + 1;
        }
        proof {
            assert(s.skip(i as int).len() == 0);
        }
        None
    }
    /// Insert or overwrite a document.
    #[verifier::loop_isolation(false)]
    pub fn upsert(&mut self, key: &str, value: Json)
        requires
            old(self).wf(),
        ensures
            final(self).wf(),
            final(self).entries_v() == sorted_insert(old(self).entries_v(), key@, value.dv()),
    {
        proof {
            lemma_dv_fields_len(self.entries@);
        }
        let ghost olde = self.entries@;
        let ghost s = self.entries_v();
        let mut i: usize = 0;
        while i < self.entries.len()
            invariant
                i <= self.entries@.len(),
                forall|j: int| 0 <= j < i ==> lex_lt((#[trigger] s[j]).0, key@),
            decreases self.entries@.len() - i,
        {
            let entry = &self.entries[i];
            if !str_lt(entry.0.as_str(), key) {
                break;
            }
            proof {
                assert(s[i as int].0 == self.entries@[i as int].0@);
            }
            i = i + 1;
        }
        let ghost hit = i < self.entries@.len() && s[i as int].0 == key@;
        proof {
            if i < self.entries@.len() {
                assert(s[i as int].0 == self.entries@[i as int].0@);
            }
        }
        if i < self.entries.len() && str_eq(self.entries[i].0.as_str(), key) {
            self.entries.remove(i);
            let mut key_string = String::new();
            key_string.append(key);
            proof {
                assert(key_string@ =~= key@);
            }
            self.entries.insert(i, (key_string, value));
            proof {
                lemma_dv_fields_len(self.entries@);
                lemma_sorted_insert_at(s, key@, value.dv(), i as int);
                assert(self.entries@ =~= olde.update(i as int, (key_string, value)));
                assert forall|j: int| 0 <= j < self.entries@.len() implies dv_fields(
                    self.entries@,
                )[j] == s.update(i as int, (key@, value.dv()))[j] by {
                    assert(dv_fields(self.entries@)[j] == (self.entries@[j].0@, self.entries@[
                    j].1.dv()));
                    if j != i {
                        assert(self.entries@[j] == olde[j]);
                        assert(s[j] == (olde[j].0@, olde[j].1.dv()));
                    }
                }
                assert(self.entries_v() =~= s.update(i as int, (key@, value.dv())));
            }
        } else {
            proof {
                if i < self.entries@.len() {
                    lemma_lex_lt_trichotomy(s[i as int].0, key@);
                }
            }
            let mut key_string = String::new();
            key_string.append(key);
            proof {
                assert(key_string@ =~= key@);
            }
            self.entries.insert(i, (key_string, value));
            proof {
                lemma_dv_fields_len(self.entries@);
                lemma_sorted_insert_at(s, key@, value.dv(), i as int);
                assert(self.entries@ =~= olde.insert(i as int, (key_string, value)));
                assert forall|j: int| 0 <= j < self.entries@.len() implies dv_fields(
                    self.entries@,
                )[j] == s.insert(i as int, (key@, value.dv()))[j] by {
                    assert(dv_fields(self.entries@)[j] == (self.entries@[j].0@, self.entries@[
                    j].1.dv()));
                    if j < i {
                        assert(self.entries@[j] == olde[j]);
                        assert(s[j] == (olde[j].0@, olde[j].1.dv()));
                    } else if j > i {
                        assert(self.entries@[j] == olde[j - 1]);
                        assert(s[j - 1] == (olde[j - 1].0@, olde[j - 1].1.dv()));
                    }
                }
                assert(self.entries_v() =~= s.insert(i as int, (key@, value.dv())));
            }
        }
        proof {
            lemma_sorted_insert_sorted(s, key@, value.dv());
        }
    }

    /// Remove a document; reports whether the key was present.
    #[verifier::loop_isolation(false)]
    pub fn remove(&mut self, key: &str) -> (r: bool)
        requires
            old(self).wf(),
        ensures
            final(self).wf(),
            final(self).entries_v() == sorted_remove(old(self).entries_v(), key@),
            r == (old(self).lookup(key@) is Some),
    {
        proof {
            lemma_dv_fields_len(self.entries@);
            assert(self.entries_v().skip(0) =~= self.entries_v());
        }
        let ghost s = self.entries_v();
        let mut i: usize = 0;
        while i < self.entries.len()
            invariant
                i <= self.entries@.len(),
                self == old(self),
                s == dv_fields(self.entries@),
                sorted_keys(s),
                dv_fields(self.entries@).len() == self.entries@.len(),
                forall|j: int|
                    0 <= j < self.entries@.len() ==> dv_fields(self.entries@)[j] == ((
                    #[trigger] self.entries@[j]).0@, self.entries@[j].1.dv()),
                forall|j: int| 0 <= j < i ==> (#[trigger] s[j]).0 != key@,
                obj_get_v(s, key@) == obj_get_v(s.skip(i as int), key@),
            decreases self.entries@.len() - i,
        {
            let entry = &self.entries[i];
            if str_eq(entry.0.as_str(), key) {
                proof {
                    assert(s[i as int].0 == self.entries@[i as int].0@);
                    let rest = s.skip(i as int);
                    assert(rest[0] == s[i as int]);
                    assert(obj_get_v(rest, key@) == Some(rest[0].1));
                }
                let ghost olde = self.entries@;
                self.entries.remove(i);
                proof {
                    lemma_dv_fields_len(self.entries@);
                    lemma_sorted_remove_at(s, key@, i as int);
                    assert forall|j: int| 0 <= j < self.entries@.len() implies dv_fields(
                        self.entries@,
                    )[j] == s.remove(i as int)[j] by {
                        assert(dv_fields(self.entries@)[j] == (self.entries@[j].0@, self.entries@[
                        j].1.dv()));
                        if j < i {
                            assert(self.entries@[j] == olde[j]);
                            assert(s[j] == (olde[j].0@, olde[j].1.dv()));
                        } else {
                            assert(self.entries@[j] == olde[j + 1]);
                            assert(s[j + 1] == (olde[j + 1].0@, olde[j + 1].1.dv()));
                        }
                    }
                    assert(self.entries_v() =~= s.remove(i as int));
                    lemma_sorted_remove_sorted(s, key@);
                }
                return true;
            }
            proof {
                assert(s[i as int].0 == self.entries@[i as int].0@);
                let rest = s.skip(i as int);
                assert(rest[0] == s[i as int]);
                assert(rest.drop_first() =~= s.skip(i + 1));
            }
            i = i + 1;
        }
        proof {
            assert(s.skip(i as int).len() == 0);
            lemma_sorted_remove_absent(s, key@);
            assert(final(self).entries_v() == s);
        }
        false
    }
}

/// Where the scan stopped is where the insertion happens: replacement when
/// the key is present there, insertion before the first larger key else.
proof fn lemma_sorted_insert_at(s: Entries, k: Seq<char>, v: JsonV, i: int)
    requires
        sorted_keys(s),
        0 <= i <= s.len(),
        forall|j: int| 0 <= j < i ==> lex_lt((#[trigger] s[j]).0, k),
        i < s.len() ==> !lex_lt(s[i].0, k),
    ensures
        i < s.len() && s[i].0 == k ==> sorted_insert(s, k, v) == s.update(i, (k, v)),
        !(i < s.len() && s[i].0 == k) ==> sorted_insert(s, k, v) == s.insert(i, (k, v)),
    decreases s.len(),
{
    if i == 0 {
        if s.len() == 0 {
            assert(sorted_insert(s, k, v) =~= s.insert(0, (k, v)));
        } else {
            lemma_lex_lt_trichotomy(k, s[0].0);
            if s[0].0 == k {
                assert(sorted_insert(s, k, v) == seq![(k, v)] + s.drop_first());
                assert(seq![(k, v)] + s.drop_first() =~= s.update(0, (k, v)));
            } else {
                assert(lex_lt(k, s[0].0));
                assert(sorted_insert(s, k, v) == seq![(k, v)] + s);
                assert(seq![(k, v)] + s =~= s.insert(0, (k, v)));
            }
        }
    } else {
        assert(lex_lt(s[0].0, k));
        lemma_lex_lt_irreflexive(k);
        lemma_lex_lt_asymmetric(k, s[0].0);
        assert(sorted_insert(s, k, v) == seq![s[0]] + sorted_insert(s.drop_first(), k, v));
        let t = s.drop_first();
        assert(sorted_keys(t));
        assert(forall|j: int| 0 <= j < i - 1 ==> lex_lt((#[trigger] t[j]).0, k));
        assert(i - 1 < t.len() ==> !lex_lt(t[i - 1].0, k));
        lemma_sorted_insert_at(t, k, v, i - 1);
        if i < s.len() && s[i].0 == k {
            assert(t[i - 1] == s[i]);
            assert(seq![s[0]] + t.update(i - 1, (k, v)) =~= s.update(i, (k, v)));
        } else {
            assert(seq![s[0]] + t.insert(i - 1, (k, v)) =~= s.insert(i, (k, v)));
        }
    }
}

/// Removing a key that sits at the first matching position drops exactly
/// that entry.
proof fn lemma_sorted_remove_at(s: Entries, k: Seq<char>, i: int)
    requires
        0 <= i < s.len(),
        forall|j: int| 0 <= j < i ==> (#[trigger] s[j]).0 != k,
        s[i].0 == k,
    ensures
        sorted_remove(s, k) == s.remove(i),
    decreases s.len(),
{
    if i == 0 {
        assert(sorted_remove(s, k) == s.drop_first());
        assert(s.drop_first() =~= s.remove(0));
    } else {
        assert(s[0].0 != k);
        let t = s.drop_first();
        assert(t[i - 1] == s[i]);
        assert(forall|j: int| 0 <= j < i - 1 ==> (#[trigger] t[j]).0 != k);
        lemma_sorted_remove_at(t, k, i - 1);
        assert(sorted_remove(s, k) == seq![s[0]] + sorted_remove(t, k));
        assert(seq![s[0]] + t.remove(i - 1) =~= s.remove(i));
    }
}

/// Removing an absent key changes nothing.
proof fn lemma_sorted_remove_absent(s: Entries, k: Seq<char>)
    requires
        forall|j: int| 0 <= j < s.len() ==> (#[trigger] s[j]).0 != k,
    ensures
        sorted_remove(s, k) == s,
    decreases s.len(),
{
    if s.len() > 0 {
        let t = s.drop_first();
        assert(forall|j: int| 0 <= j < t.len() ==> (#[trigger] t[j]).0 != k) by {
            assert(forall|j: int| 0 <= j < t.len() ==> t[j] == s[j + 1]);
        }
        lemma_sorted_remove_absent(t, k);
        assert(sorted_remove(s, k) == seq![s[0]] + t);
        assert(seq![s[0]] + t =~= s);
    }
}


/// Whether a key falls in the half-open scan window `[from, to)`.
pub open spec fn in_range(k: Seq<char>, from: Seq<char>, to: Seq<char>) -> bool {
    lex_le(from, k) && lex_lt(k, to)
}

/// The entries of an association whose keys fall in the window, in
/// storage order.
pub open spec fn range_of(s: Entries, from: Seq<char>, to: Seq<char>) -> Entries
    decreases s.len(),
{
    if s.len() == 0 {
        s
    } else if in_range(s[0].0, from, to) {
        seq![s[0]] + range_of(s.drop_first(), from, to)
    } else {
        range_of(s.drop_first(), from, to)
    }
}

/// Keys strictly descending.
pub open spec fn sorted_keys_desc(s: Entries) -> bool {
    forall|i: int, j: int| 0 <= i < j < s.len() ==> lex_lt(#[trigger] s[j].0, #[trigger] s[i].0)
}

/// At most `limit` entries off the front.
pub open spec fn clamp(s: Entries, limit: nat) -> Entries {
    if s.len() <= limit {
        s
    } else {
        s.take(limit as int)
    }
}

/// What a range scan returns: the in-window entries, reversed on a
/// descending scan, cut to the limit.
pub open spec fn range_scan(
    s: Entries,
    from: Seq<char>,
    to: Seq<char>,
    limit: nat,
    reverse: bool,
) -> Entries {
    let sel = range_of(s, from, to);
    clamp(if reverse { sel.reverse() } else { sel }, limit)
}

pub proof fn lemma_range_of_concat(a: Entries, b: Entries, from: Seq<char>, to: Seq<char>)
    ensures
        range_of(a + b, from, to) == range_of(a, from, to) + range_of(b, from, to),
    decreases a.len(),
{
    if a.len() == 0 {
        assert(a + b =~= b);
        assert(range_of(a, from, to) + range_of(b, from, to) =~= range_of(b, from, to));
    } else {
        lemma_range_of_concat(a.drop_first(), b, from, to);
        assert((a + b).drop_first() =~= a.drop_first() + b);
        assert((a + b)[0] == a[0]);
        if in_range(a[0].0, from, to) {
            assert(seq![a[0]] + (range_of(a.drop_first(), from, to) + range_of(b, from, to)) =~= (
            seq![a[0]] + range_of(a.drop_first(), from, to)) + range_of(b, from, to));
        }
    }
}

/// Every selected entry stems from the scanned association.
pub proof fn lemma_range_of_members(s: Entries, from: Seq<char>, to: Seq<char>)
    ensures
        forall|j: int|
            0 <= j < range_of(s, from, to).len() ==> in_range(
                (#[trigger] range_of(s, from, to)[j]).0,
                from,
                to,
            ) && (exists|i: int| 0 <= i < s.len() && s[i] == range_of(s, from, to)[j]),
    decreases s.len(),
{
    let out = range_of(s, from, to);
    if s.len() > 0 {
        lemma_range_of_members(s.drop_first(), from, to);
        let rest = range_of(s.drop_first(), from, to);
        assert forall|j: int|
            0 <= j < out.len() implies in_range((#[trigger] out[j]).0, from, to) && (exists|i: int|
            0 <= i < s.len() && s[i] == out[j]) by {
            if in_range(s[0].0, from, to) {
                if j == 0 {
                    assert(s[0] == out[0]);
                } else {
                    assert(out[j] == rest[j - 1]);
                    let idx = choose|idx: int|
                        0 <= idx < s.drop_first().len() && s.drop_first()[idx] == rest[j - 1];
                    assert(s[idx + 1] == rest[j - 1]);
                }
            } else {
                assert(out[j] == rest[j]);
                let idx = choose|idx: int|
                    0 <= idx < s.drop_first().len() && s.drop_first()[idx] == rest[j];
                assert(s[idx + 1] == rest[j]);
            }
        }
    }
}

/// An ascending scan source keeps the selection ascending.
pub proof fn lemma_range_of_sorted(s: Entries, from: Seq<char>, to: Seq<char>)
    requires
        sorted_keys(s),
    ensures
        sorted_keys(range_of(s, from, to)),
    decreases s.len(),
{
    let out = range_of(s, from, to);
    if s.len() > 0 {
        assert(sorted_keys(s.drop_first()));
        lemma_range_of_sorted(s.drop_first(), from, to);
        lemma_range_of_members(s.drop_first(), from, to);
        let rest = range_of(s.drop_first(), from, to);
        if in_range(s[0].0, from, to) {
            assert forall|i: int, j: int| 0 <= i < j < out.len() implies lex_lt(
                #[trigger] out[i].0,
                #[trigger] out[j].0,
            ) by {
                if i == 0 {
                    assert(out[j] == rest[j - 1]);
                    let idx = choose|idx: int|
                        0 <= idx < s.drop_first().len() && s.drop_first()[idx] == rest[j - 1];
                    assert(s.drop_first()[idx] == s[idx + 1]);
                    assert(lex_lt(s[0].0, s[idx + 1].0));
                } else {
                    assert(out[i] == rest[i - 1] && out[j] == rest[j - 1]);
                }
            }
        }
    }
}


/// The executable test `!(k < from) && k < to` decides window membership.
proof fn lemma_in_range_equiv(k: Seq<char>, from: Seq<char>, to: Seq<char>)
    ensures
        in_range(k, from, to) == (!lex_lt(k, from) && lex_lt(k, to)),
{
    lemma_lex_lt_trichotomy(from, k);
    lemma_lex_lt_asymmetric(k, from);
    lemma_lex_lt_irreflexive(k);
}

impl Table {
    /// Every entry, cloned, in storage order.
    #[verifier::loop_isolation(false)]
    pub fn export(&self) -> (r: Vec<(String, Json)>)
        ensures
            dv_fields(r@) == self.entries_v(),
    {
        proof {
            lemma_dv_fields_len(self.entries@);
        }
        let ghost s = self.entries_v();
        let mut out: Vec<(String, Json)> = Vec::new();
        proof {
            assert(dv_fields(out@) =~= s.take(0));
        }
        let mut i: usize = 0;
        while i < self.entries.len()
            invariant
                i <= self.entries@.len(),
                dv_fields(out@) == s.take(i as int),
            decreases self.entries@.len() - i,
        {
            let entry = &self.entries[i];
            let ghost preout = out@;
            out.push((entry.0.clone(), entry.1.deep_clone()));
            proof {
                crate::json::lemma_dv_fields_push(preout, out@[out@.len() - 1].0,
                    out@[out@.len() - 1].1);
                assert(preout.push(out@[out@.len() - 1]) =~= out@);
                assert(s[i as int] == (self.entries@[i as int].0@, self.entries@[i as int].1.dv()));
                assert(out@[out@.len() - 1].0@ == s[i as int].0);
                assert(out@[out@.len() - 1].1.dv() == s[i as int].1);
                assert(dv_fields(out@) =~= s.take(i + 1));
            }
            i = i + 1;
        }
        proof {
            assert(s.take(self.entries@.len() as int) =~= s);
        }
        out
    }

    /// Scan the window `[from, to)` in key order; `reverse` walks it
    /// descending; at most `limit` entries are returned.
    #[verifier::loop_isolation(false)]
    pub fn range(&self, from: &str, to: &str, limit: usize, reverse: bool) -> (r: Vec<(String, Json)>)
        requires
            self.wf(),
        ensures
            dv_fields(r@) == range_scan(self.entries_v(), from@, to@, limit as nat, reverse),
    {
        proof {
            lemma_dv_fields_len(self.entries@);
        }
        let ghost s = self.entries_v();
        let mut out: Vec<(String, Json)> = Vec::new();
        if !reverse {
            proof {
                assert(s.take(0) =~= Seq::<(Seq<char>, JsonV)>::empty());
                assert(dv_fields(out@) =~= range_of(s.take(0), from@, to@));
            }
            let mut i: usize = 0;
            while i < self.entries.len()
                invariant
                    i <= self.entries@.len(),
                    out@.len() <= limit,
                    dv_fields(out@) == range_of(s.take(i as int), from@, to@),
                decreases self.entries@.len() - i,
            {
                let entry = &self.entries[i];
                proof {
                    assert(s[i as int] == (self.entries@[i as int].0@, self.entries@[
                    i as int].1.dv()));
                    assert(s.take(i + 1) =~= s.take(i as int) + seq![s[i as int]]);
                    lemma_range_of_concat(s.take(i as int), seq![s[i as int]], from@, to@);
                    assert(seq![s[i as int]].drop_first() =~= Seq::<(Seq<char>, JsonV)>::empty());
                    lemma_in_range_equiv(s[i as int].0, from@, to@);
                }
                if !str_lt(entry.0.as_str(), from) && str_lt(entry.0.as_str(), to) {
                    proof {
                        assert(in_range(s[i as int].0, from@, to@));
                        assert(range_of(seq![s[i as int]], from@, to@) =~= seq![s[i as int]]);
                    }
                    if out.len() == limit {
                        proof {
                            assert(s =~= s.take(i as int) + s.skip(i as int));
                            lemma_range_of_concat(s.take(i as int), s.skip(i as int), from@, to@);
                            assert(s.skip(i as int)[0] == s[i as int]);
                            assert(s.skip(i as int) =~= seq![s[i as int]] + s.skip(i + 1));
                            lemma_range_of_concat(seq![s[i as int]], s.skip(i + 1), from@, to@);
                            assert(range_of(s.skip(i as int), from@, to@).len() >= 1);
                            crate::json::lemma_dv_fields_len(out@);
                            let sel = range_of(s, from@, to@);
                            let pre = range_of(s.take(i as int), from@, to@);
                            assert(pre.len() == limit);
                            assert(sel.len() > limit);
                            assert(sel.take(limit as int) =~= pre);
                        }
                        return out;
                    }
                    let ghost preout = out@;
                    out.push((entry.0.clone(), entry.1.deep_clone()));
                    proof {
                        crate::json::lemma_dv_fields_push(preout, out@[out@.len() - 1].0,
                            out@[out@.len() - 1].1);
                        assert(preout.push(out@[out@.len() - 1]) =~= out@);
                        assert(out@[out@.len() - 1].0@ == s[i as int].0);
                        assert(out@[out@.len() - 1].1.dv() == s[i as int].1);
                        assert(dv_fields(out@) =~= range_of(s.take(i as int), from@, to@) + seq![s[
                        i as int]]);
                        assert(dv_fields(out@) =~= range_of(s.take(i + 1), from@, to@));
                    }
                } else {
                    proof {
                        assert(!in_range(s[i as int].0, from@, to@));
                        assert(range_of(seq![s[i as int]], from@, to@) =~= Seq::<(
                            Seq<char>,
                            JsonV,
                        )>::empty());
                        assert(dv_fields(out@) =~= range_of(s.take(i + 1), from@, to@));
                    }
                }
                i = i + 1;
            }
            proof {
                assert(s.take(self.entries@.len() as int) =~= s);
                crate::json::lemma_dv_fields_len(out@);
            }
            out
        } else {
            let mut i: usize = self.entries.len();
            proof {
                assert(s.skip(i as int).len() == 0);
                assert(dv_fields(out@) =~= range_of(s.skip(i as int), from@, to@).reverse());
            }
            while i > 0
                invariant
                    i <= self.entries@.len(),
                    out@.len() <= limit,
                    dv_fields(out@) == range_of(s.skip(i as int), from@, to@).reverse(),
                decreases i,
            {
                let entry = &self.entries[i - 1];
                proof {
                    assert(s[i - 1] == (self.entries@[i - 1].0@, self.entries@[i - 1].1.dv()));
                    assert(s.skip(i - 1) =~= seq![s[i - 1]] + s.skip(i as int));
                    lemma_range_of_concat(seq![s[i - 1]], s.skip(i as int), from@, to@);
                    assert(seq![s[i - 1]].drop_first() =~= Seq::<(Seq<char>, JsonV)>::empty());
                    lemma_in_range_equiv(s[i - 1].0, from@, to@);
                    assert(seq![s[i - 1]][0] == s[i - 1]);
                }
                if !str_lt(entry.0.as_str(), from) && str_lt(entry.0.as_str(), to) {
                    proof {
                        assert(in_range(s[i - 1].0, from@, to@));
                        assert(range_of(seq![s[i - 1]], from@, to@) == seq![s[i - 1]] + range_of(
                            seq![s[i - 1]].drop_first(),
                            from@,
                            to@,
                        ));
                        assert(range_of(seq![s[i - 1]], from@, to@) =~= seq![s[i - 1]]);
                    }
                    if out.len() == limit {
                        proof {
                            assert(s =~= s.take(i as int) + s.skip(i as int));
                            lemma_range_of_concat(s.take(i as int), s.skip(i as int), from@, to@);
                            let sel = range_of(s, from@, to@);
                            let pre = range_of(s.take(i as int), from@, to@);
                            let post = range_of(s.skip(i as int), from@, to@);
                            assert(s.take(i as int)[i - 1] == s[i - 1]);
                            assert(s.take(i as int) =~= s.take(i - 1) + seq![s[i - 1]]);
                            lemma_range_of_concat(s.take(i - 1), seq![s[i - 1]], from@, to@);
                            assert(pre.len() >= 1);
                            crate::json::lemma_dv_fields_len(out@);
                            assert(post.reverse().len() == limit);
                            assert(post.len() == limit);
                            assert(sel.len() == pre.len() + post.len());
                            assert(sel.reverse().len() > limit);
                            assert forall|j: int| 0 <= j < limit implies sel.reverse().take(
                                limit as int,
                            )[j] == post.reverse()[j] by {
                                assert(sel.reverse()[j] == sel[sel.len() - 1 - j]);
                                assert(sel[sel.len() - 1 - j] == post[post.len() - 1 - j]);
                                assert(post.reverse()[j] == post[post.len() - 1 - j]);
                            }
                            assert(sel.reverse().take(limit as int) =~= post.reverse());
                        }
                        return out;
                    }
                    let ghost preout = out@;
                    out.push((entry.0.clone(), entry.1.deep_clone()));
                    proof {
                        crate::json::lemma_dv_fields_push(preout, out@[out@.len() - 1].0,
                            out@[out@.len() - 1].1);
                        assert(preout.push(out@[out@.len() - 1]) =~= out@);
                        let post = range_of(s.skip(i as int), from@, to@);
                        let cur = range_of(s.skip(i - 1), from@, to@);
                        assert(cur =~= seq![s[i - 1]] + post);
                        assert forall|j: int| 0 <= j < cur.len() implies cur.reverse()[j] == (
                        post.reverse() + seq![s[i - 1]])[j] by {
                            assert(cur.reverse()[j] == cur[cur.len() - 1 - j]);
                            if j < post.len() {
                                assert(cur[cur.len() - 1 - j] == post[post.len() - 1 - j]);
                                assert(post.reverse()[j] == post[post.len() - 1 - j]);
                            } else {
                                assert(cur[cur.len() - 1 - j] == s[i - 1]);
                            }
                        }
                        assert(cur.reverse() =~= post.reverse() + seq![s[i - 1]]);
                        assert(dv_fields(out@) =~= cur.reverse());
                    }
                } else {
                    proof {
                        assert(!in_range(s[i - 1].0, from@, to@));
                        assert(range_of(seq![s[i - 1]], from@, to@) == range_of(
                            seq![s[i - 1]].drop_first(),
                            from@,
                            to@,
                        ));
                        assert(range_of(seq![s[i - 1]], from@, to@) =~= Seq::<(
                            Seq<char>,
                            JsonV,
                        )>::empty());
                        assert(range_of(s.skip(i - 1), from@, to@) =~= range_of(
                            s.skip(i as int),
                            from@,
                            to@,
                        ));
                    }
                }
                i = i - 1;
            }
            proof {
                assert(s.skip(0) =~= s);
                crate::json::lemma_dv_fields_len(out@);
            }
            out
        }
    }
}

/// The shape of a range scan: `min(limit, hits)` entries, each from the
/// window, in ascending key order (descending on a reversed scan), and no
/// key twice.
pub proof fn lemma_range_scan_shape(
    s: Entries,
    from: Seq<char>,
    to: Seq<char>,
    limit: nat,
    reverse: bool,
)
    requires
        sorted_keys(s),
    ensures
        range_scan(s, from, to, limit, reverse).len() == if limit <= range_of(s, from, to).len() {
            limit
        } else {
            range_of(s, from, to).len()
        },
        forall|j: int|
            0 <= j < range_scan(s, from, to, limit, reverse).len() ==> in_range(
                (#[trigger] range_scan(s, from, to, limit, reverse)[j]).0,
                from,
                to,
            ),
        !reverse ==> sorted_keys(range_scan(s, from, to, limit, reverse)),
        reverse ==> sorted_keys_desc(range_scan(s, from, to, limit, reverse)),
        forall|i: int, j: int|
            0 <= i < j < range_scan(s, from, to, limit, reverse).len() ==> (
            #[trigger] range_scan(s, from, to, limit, reverse)[i]).0 != (#[trigger] range_scan(
                s,
                from,
                to,
                limit,
                reverse,
            )[j]).0,
{
    let sel = range_of(s, from, to);
    let ord = if reverse {
        sel.reverse()
    } else {
        sel
    };
    let out = range_scan(s, from, to, limit, reverse);
    lemma_range_of_sorted(s, from, to);
    lemma_range_of_members(s, from, to);
    assert(out.len() == if limit <= sel.len() {
        limit as int
    } else {
        sel.len() as int
    });
    assert(forall|j: int| 0 <= j < out.len() ==> out[j] == ord[j]);
    if reverse {
        assert(forall|j: int| 0 <= j < ord.len() ==> ord[j] == sel[sel.len() - 1 - j]);
    }
    assert forall|i: int, j: int| 0 <= i < j < out.len() implies (#[trigger] out[i]).0 != (
    #[trigger] out[j]).0 by {
        if reverse {
            assert(lex_lt(out[j].0, out[i].0));
        } else {
            assert(lex_lt(out[i].0, out[j].0));
        }
        crate::strutil::lemma_lex_lt_irreflexive(out[i].0);
    }
}

} // verus!
