//! The document model: a JSON value with integer numbers, and its
//! mathematical view.

use vstd::prelude::*;

verus! {

broadcast use vstd::std_specs::vec::group_vec_axioms;

/// A JSON document. Integer numbers are 64-bit values; any other number
/// is carried as its decimal text, serialized verbatim; object members
/// keep their insertion order.
pub enum Json {
    Null,
    Bool(bool),
    Int(i64),
    Num(String),
    Str(String),
    Arr(Vec<Json>),
    Obj(Vec<(String, Json)>),
}

/// The mathematical shape of a JSON document.
pub ghost enum JsonV {
    Null,
    Bool(bool),
    Int(int),
    Num(Seq<char>),
    Str(Seq<char>),
    Arr(Seq<JsonV>),
    Obj(Seq<(Seq<char>, JsonV)>),
}

impl Json {
    /// The view of a document.
    pub open spec fn dv(self) -> JsonV
        decreases self,
    {
        match self {
            Json::Null => JsonV::Null,
            Json::Bool(b) => JsonV::Bool(b),
            Json::Int(i) => JsonV::Int(i as int),
            Json::Num(s) => JsonV::Num(s@),
            Json::Str(s) => JsonV::Str(s@),
            Json::Arr(elems) => JsonV::Arr(dv_seq(elems@)),
            Json::Obj(fields) => JsonV::Obj(dv_fields(fields@)),
        }
    }
}

/// The views of the elements of an array.
pub open spec fn dv_seq(elems: Seq<Json>) -> Seq<JsonV>
    decreases elems,
{
    if elems.len() == 0 {
        Seq::empty()
    } else {
        seq![elems[0].dv()] + dv_seq(elems.drop_first())
    }
}

/// The views of the members of an object, in order.
pub open spec fn dv_fields(fields: Seq<(String, Json)>) -> Seq<(Seq<char>, JsonV)>
    decreases fields,
{
    if fields.len() == 0 {
        Seq::empty()
    } else {
        seq![(fields[0].0@, fields[0].1.dv())] + dv_fields(fields.drop_first())
    }
}

pub proof fn lemma_dv_seq_len(elems: Seq<Json>)
    ensures
        dv_seq(elems).len() == elems.len(),
        forall|i: int| 0 <= i < elems.len() ==> dv_seq(elems)[i] == (#[trigger] elems[i]).dv(),
    decreases elems,
{
    if elems.len() > 0 {
        lemma_dv_seq_len(elems.drop_first());
        assert forall|i: int| 0 <= i < elems.len() implies dv_seq(elems)[i] == (
        #[trigger] elems[i]).dv() by {
            if i > 0 {
                assert(dv_seq(elems)[i] == dv_seq(elems.drop_first())[i - 1]);
                assert(elems.drop_first()[i - 1] == elems[i]);
            }
        }
    }
}

pub proof fn lemma_dv_fields_len(fields: Seq<(String, Json)>)
    ensures
        dv_fields(fields).len() == fields.len(),
        forall|i: int|
            0 <= i < fields.len() ==> dv_fields(fields)[i] == ((#[trigger] fields[i]).0@,
            fields[i].1.dv()),
    decreases fields,
{
    if fields.len() > 0 {
        lemma_dv_fields_len(fields.drop_first());
        assert forall|i: int|
            0 <= i < fields.len() implies dv_fields(fields)[i] == ((#[trigger] fields[i]).0@,
        fields[i].1.dv()) by {
            if i > 0 {
                assert(dv_fields(fields)[i] == dv_fields(fields.drop_first())[i - 1]);
                assert(fields.drop_first()[i - 1] == fields[i]);
            }
        }
    }
}

pub proof fn lemma_dv_fields_push(s: Seq<(String, Json)>, k: String, v: Json)
    ensures
        dv_fields(s.push((k, v))) == dv_fields(s) + seq![(k@, v.dv())],
{
    lemma_dv_fields_len(s);
    lemma_dv_fields_len(s.push((k, v)));
    assert forall|j: int| 0 <= j < s.len() + 1 implies dv_fields(s.push((k, v)))[j] == (dv_fields(s)
        + seq![(k@, v.dv())])[j] by {
        if j < s.len() {
            assert(s.push((k, v))[j] == s[j]);
        } else {
            assert(s.push((k, v))[j] == (k, v));
        }
    }
    assert(dv_fields(s.push((k, v))) =~= dv_fields(s) + seq![(k@, v.dv())]);
}

impl Clone for Json {
    /// A structurally equal copy.
    fn clone(&self) -> (r: Json)
        ensures
            r.dv() == self.dv(),
    {
        self.deep_clone()
    }
}

/// The first member of an object with the given name, if any.
pub open spec fn obj_get_v(fields: Seq<(Seq<char>, JsonV)>, name: Seq<char>) -> Option<JsonV>
    decreases fields,
{
    if fields.len() == 0 {
        None
    } else if fields[0].0 == name {
        Some(fields[0].1)
    } else {
        obj_get_v(fields.drop_first(), name)
    }
}

/// The object with the first member of the given name replaced by `v`, or
/// with `(name, v)` appended when no member has that name.
pub open spec fn obj_set_v(
    fields: Seq<(Seq<char>, JsonV)>,
    name: Seq<char>,
    v: JsonV,
) -> Seq<(Seq<char>, JsonV)>
    decreases fields,
{
    if fields.len() == 0 {
        seq![(name, v)]
    } else if fields[0].0 == name {
        seq![(fields[0].0, v)] + fields.drop_first()
    } else {
        seq![fields[0]] + obj_set_v(fields.drop_first(), name, v)
    }
}

impl Json {
    /// A structurally equal copy.
    #[verifier::loop_isolation(false)]
    pub fn deep_clone(&self) -> (r: Json)
        ensures
            r.dv() == self.dv(),
        decreases self,
    {
        match self {
            Json::Null => Json::Null,
            Json::Bool(b) => Json::Bool(*b),
            Json::Int(i) => Json::Int(*i),
            Json::Num(s) => Json::Num(s.clone()),
            Json::Str(s) => Json::Str(s.clone()),
            Json::Arr(elems) => {
                let mut out: Vec<Json> = Vec::new();
                let mut i: usize = 0;
                while i < elems.len()
                    invariant
                        i <= elems@.len(),
                        out@.len() == i,
                        forall|j: int| 0 <= j < i ==> (#[trigger] out@[j]).dv() == elems@[j].dv(),
                    decreases elems@.len() - i,
                {
                    out.push(elems[i].deep_clone());
                    i = i + 1;
                }
                proof {
                    lemma_dv_seq_len(elems@);
                    lemma_dv_seq_len(out@);
                    assert forall|j: int| 0 <= j < out@.len() implies dv_seq(out@)[j] == dv_seq(
                        elems@,
                    )[j] by {
                        assert(dv_seq(out@)[j] == out@[j].dv());
                        assert(dv_seq(elems@)[j] == elems@[j].dv());
                    }
                    assert(dv_seq(out@) =~= dv_seq(elems@));
                }
                Json::Arr(out)
            },
            Json::Obj(fields) => {
                let mut out: Vec<(String, Json)> = Vec::new();
                let mut i: usize = 0;
                while i < fields.len()
                    invariant
                        i <= fields@.len(),
                        out@.len() == i,
                        forall|j: int|
                            0 <= j < i ==> (#[trigger] out@[j]).0@ == fields@[j].0@ && out@[j].1.dv()
                                == fields@[j].1.dv(),
                    decreases fields@.len() - i,
                {
                    let entry = &fields[i];
                    out.push((entry.0.clone(), entry.1.deep_clone()));
                    i = i + 1;
                }
                proof {
                    lemma_dv_fields_len(fields@);
                    lemma_dv_fields_len(out@);
                    assert forall|j: int| 0 <= j < out@.len() implies dv_fields(out@)[j]
                        == dv_fields(fields@)[j] by {
                        assert(dv_fields(out@)[j] == (out@[j].0@, out@[j].1.dv()));
                        assert(dv_fields(fields@)[j] == (fields@[j].0@, fields@[j].1.dv()));
                    }
                    assert(dv_fields(out@) =~= dv_fields(fields@));
                }
                Json::Obj(out)
            },
        }
    }

    /// Structural equality of documents.
    #[verifier::loop_isolation(false)]
    pub fn same_as(&self, other: &Json) -> (r: bool)
        ensures
            r == (self.dv() == other.dv()),
        decreases self,
    {
        match (self, other) {
            (Json::Null, Json::Null) => true,
            (Json::Bool(a), Json::Bool(b)) => a == b,
            (Json::Int(a), Json::Int(b)) => a == b,
            (Json::Num(a), Json::Num(b)) => crate::strutil::str_eq(a.as_str(), b.as_str()),
            (Json::Str(a), Json::Str(b)) => crate::strutil::str_eq(a.as_str(), b.as_str()),
            (Json::Arr(a), Json::Arr(b)) => {
                proof {
                    lemma_dv_seq_len(a@);
                    lemma_dv_seq_len(b@);
                }
                if a.len() != b.len() {
                    return false;
                }
                let mut i: usize = 0;
                while i < a.len()
                    invariant
                        i <= a@.len(),
                        a@.len() == b@.len(),
                        dv_seq(a@).len() == a@.len(),
                        dv_seq(b@).len() == b@.len(),
                        forall|j: int| 0 <= j < a@.len() ==> dv_seq(a@)[j] == (#[trigger] a@[j]).dv(),
                        forall|j: int| 0 <= j < b@.len() ==> dv_seq(b@)[j] == (#[trigger] b@[j]).dv(),
                        forall|j: int| 0 <= j < i ==> (#[trigger] a@[j]).dv() == b@[j].dv(),
                    decreases a@.len() - i,
                {
                    if !a[i].same_as(&b[i]) {
                        proof {
                            assert(dv_seq(a@)[i as int] != dv_seq(b@)[i as int]);
                        }
                        return false;
                    }
                    i = i + 1;
                }
                proof {
                    assert forall|j: int| 0 <= j < a@.len() implies dv_seq(a@)[j] == dv_seq(
                        b@,
                    )[j] by {
                        assert(dv_seq(a@)[j] == a@[j].dv());
                        assert(dv_seq(b@)[j] == b@[j].dv());
                    }
                    assert(dv_seq(a@) =~= dv_seq(b@));
                }
                true
            },
            (Json::Obj(a), Json::Obj(b)) => {
                proof {
                    lemma_dv_fields_len(a@);
                    lemma_dv_fields_len(b@);
                }
                if a.len() != b.len() {
                    return false;
                }
                let mut i: usize = 0;
                while i < a.len()
                    invariant
                        i <= a@.len(),
                        a@.len() == b@.len(),
                        dv_fields(a@).len() == a@.len(),
                        dv_fields(b@).len() == b@.len(),
                        forall|j: int|
                            0 <= j < a@.len() ==> dv_fields(a@)[j] == ((#[trigger] a@[j]).0@,
                            a@[j].1.dv()),
                        forall|j: int|
                            0 <= j < b@.len() ==> dv_fields(b@)[j] == ((#[trigger] b@[j]).0@,
                            b@[j].1.dv()),
                        forall|j: int|
                            0 <= j < i ==> (#[trigger] a@[j]).0@ == b@[j].0@ && a@[j].1.dv()
                                == b@[j].1.dv(),
                    decreases a@.len() - i,
                {
                    let ka = &a[i];
                    let kb = &b[i];
                    if !crate::strutil::str_eq(ka.0.as_str(), kb.0.as_str()) {
                        proof {
                            assert(dv_fields(a@)[i as int] != dv_fields(b@)[i as int]);
                        }
                        return false;
                    }
                    if !ka.1.same_as(&kb.1) {
                        proof {
                            assert(dv_fields(a@)[i as int] != dv_fields(b@)[i as int]);
                        }
                        return false;
                    }
                    i = i + 1;
                }
                proof {
                    assert forall|j: int| 0 <= j < a@.len() implies dv_fields(a@)[j] == dv_fields(
                        b@,
                    )[j] by {
                        assert(dv_fields(a@)[j] == (a@[j].0@, a@[j].1.dv()));
                        assert(dv_fields(b@)[j] == (b@[j].0@, b@[j].1.dv()));
                    }
                    assert(dv_fields(a@) =~= dv_fields(b@));
                }
                true
            },
            _ => {
                proof {
                    assert(self.dv() != other.dv());
                }
                false
            },
        }
    }

    /// Look up a member of an object document; `None` on any other shape.
    #[verifier::loop_isolation(false)]
    pub fn get_field(&self, name: &str) -> (r: Option<&Json>)
        ensures
            match r {
                Some(v) => self.dv() is Obj && obj_get_v(self.dv()->Obj_0, name@) == Some(v.dv()),
                None => !(self.dv() is Obj) || obj_get_v(self.dv()->Obj_0, name@) is None,
            },
    {
        match self {
            Json::Obj(fields) => {
                proof {
                    lemma_dv_fields_len(fields@);
                    assert(dv_fields(fields@).skip(0) =~= dv_fields(fields@));
                }
                let mut i: usize = 0;
                while i < fields.len()
                    invariant
                        i <= fields@.len(),
                        dv_fields(fields@).len() == fields@.len(),
                        forall|j: int|
                            0 <= j < fields@.len() ==> dv_fields(fields@)[j] == ((
                            #[trigger] fields@[j]).0@, fields@[j].1.dv()),
                        forall|j: int| 0 <= j < i ==> (#[trigger] fields@[j]).0@ != name@,
                        obj_get_v(dv_fields(fields@), name@) == obj_get_v(
                            dv_fields(fields@).skip(i as int),
                            name@,
                        ),
                    decreases fields@.len() - i,
                {
                    let entry = &fields[i];
                    if crate::strutil::str_eq(entry.0.as_str(), name) {
                        proof {
                            let rest = dv_fields(fields@).skip(i as int);
                            assert(rest[0] == dv_fields(fields@)[i as int]);
                            assert(dv_fields(fields@)[i as int] == (fields@[i as int].0@, fields@[
                            i as int].1.dv()));
                            assert(rest.len() > 0);
                            assert(rest[0].0 == name@);
                            assert(obj_get_v(rest, name@) == Some(rest[0].1));
                            assert(self.dv() == JsonV::Obj(dv_fields(fields@)));
                            assert(obj_get_v(self.dv()->Obj_0, name@) == Some(entry.1.dv()));
                        }
                        return Some(&entry.1);
                    }
                    proof {
                        assert(dv_fields(fields@).skip(i as int)[0] == dv_fields(fields@)[i as int]);
                        assert(dv_fields(fields@).skip(i as int).drop_first() =~= dv_fields(
                            fields@,
                        ).skip(i + 1));
                    }
                    i = i + 1;
                }
                proof {
                    assert(dv_fields(fields@).skip(i as int).len() == 0);
                }
                None
            },
            _ => None,
        }
    }
}


/// A document with one member set, when it is an object: the first member
/// of that name is replaced, or the pair is appended; any other document
/// is left alone.
pub open spec fn set_field_v(v: JsonV, name: Seq<char>, value: JsonV) -> JsonV {
    match v {
        JsonV::Obj(fields) => JsonV::Obj(obj_set_v(fields, name, value)),
        _ => v,
    }
}

impl Json {
    /// Set a member of an object document.
    #[verifier::loop_isolation(false)]
    pub fn set_field(self, name: &str, value: Json) -> (r: Json)
        ensures
            r.dv() == set_field_v(self.dv(), name@, value.dv()),
    {
        match self {
            Json::Obj(mut fields) => {
                proof {
                    lemma_dv_fields_len(fields@);
                }
                let ghost s = dv_fields(fields@);
                let mut i: usize = 0;
                while i < fields.len()
                    invariant
                        i <= fields@.len(),
                        s == dv_fields(fields@),
                        dv_fields(fields@).len() == fields@.len(),
                        forall|j: int|
                            0 <= j < fields@.len() ==> dv_fields(fields@)[j] == ((
                            #[trigger] fields@[j]).0@, fields@[j].1.dv()),
                        forall|j: int| 0 <= j < i ==> (#[trigger] s[j]).0 != name@,
                    decreases fields@.len() - i,
                {
                    if crate::strutil::str_eq(fields[i].0.as_str(), name) {
                        let ghost olde = fields@;
                        let mut pair = fields.remove(i);
                        pair.1 = value;
                        fields.insert(i, pair);
                        proof {
                            lemma_dv_fields_len(fields@);
                            assert(fields@ =~= olde.update(i as int, fields@[i as int]));
                            lemma_obj_set_v_at(s, name@, pair.1.dv(), i as int);
                            assert forall|j: int|
                                0 <= j < fields@.len() implies dv_fields(fields@)[j] == obj_set_v(
                                s,
                                name@,
                                fields@[i as int].1.dv(),
                            )[j] by {
                                if j != i {
                                    assert(fields@[j] == olde[j]);
                                    assert(s[j] == (olde[j].0@, olde[j].1.dv()));
                                }
                            }
                            assert(dv_fields(fields@) =~= obj_set_v(
                                s,
                                name@,
                                fields@[i as int].1.dv(),
                            ));
                        }
                        return Json::Obj(fields);
                    }
                    i = i + 1;
                }
                let ghost olde = fields@;
                let mut key_string = String::new();
                key_string.append(name);
                proof {
                    assert(key_string@ =~= name@);
                }
                fields.push((key_string, value));
                proof {
                    lemma_dv_fields_push(olde, fields@[fields@.len() - 1].0,
                        fields@[fields@.len() - 1].1);
                    assert(olde.push(fields@[fields@.len() - 1]) =~= fields@);
                    lemma_obj_set_v_append(s, name@, fields@[fields@.len() - 1].1.dv());
                    assert(dv_fields(fields@) =~= obj_set_v(
                        s,
                        name@,
                        fields@[fields@.len() - 1].1.dv(),
                    ));
                }
                Json::Obj(fields)
            },
            other => other,
        }
    }
}

/// Replacing at the first matching position is what `obj_set_v` does.
pub proof fn lemma_obj_set_v_at(s: Seq<(Seq<char>, JsonV)>, name: Seq<char>, v: JsonV, i: int)
    requires
        0 <= i < s.len(),
        forall|j: int| 0 <= j < i ==> (#[trigger] s[j]).0 != name,
        s[i].0 == name,
    ensures
        obj_set_v(s, name, v) == s.update(i, (s[i].0, v)),
    decreases s.len(),
{
    if i == 0 {
        assert(obj_set_v(s, name, v) == seq![(s[0].0, v)] + s.drop_first());
        assert(seq![(s[0].0, v)] + s.drop_first() =~= s.update(0, (s[0].0, v)));
    } else {
        let t = s.drop_first();
        assert(t[i - 1] == s[i]);
        assert(forall|j: int| 0 <= j < i - 1 ==> (#[trigger] t[j]).0 != name);
        lemma_obj_set_v_at(t, name, v, i - 1);
        assert(obj_set_v(s, name, v) == seq![s[0]] + obj_set_v(t, name, v));
        assert(seq![s[0]] + t.update(i - 1, (s[i].0, v)) =~= s.update(i, (s[i].0, v)));
    }
}

/// Appending is what `obj_set_v` does when no member matches.
pub proof fn lemma_obj_set_v_append(s: Seq<(Seq<char>, JsonV)>, name: Seq<char>, v: JsonV)
    requires
        forall|j: int| 0 <= j < s.len() ==> (#[trigger] s[j]).0 != name,
    ensures
        obj_set_v(s, name, v) == s.push((name, v)),
    decreases s.len(),
{
    if s.len() == 0 {
        assert(obj_set_v(s, name, v) =~= s.push((name, v)));
    } else {
        let t = s.drop_first();
        assert(forall|j: int| 0 <= j < t.len() ==> (#[trigger] t[j]).0 != name) by {
            assert(forall|j: int| 0 <= j < t.len() ==> t[j] == s[j + 1]);
        }
        lemma_obj_set_v_append(t, name, v);
        assert(obj_set_v(s, name, v) == seq![s[0]] + t.push((name, v)));
        assert(seq![s[0]] + t.push((name, v)) =~= s.push((name, v)));
    }
}

} // verus!
