//! The request handlers' decisions: each HTTP verb's computing part, from
//! plain values to a status and a JSON body, against the store and the
//! event fabric.

use vstd::prelude::*;
use vstd::string::StringExecFns;
use crate::events::{CollectionEvent, Operation};
use crate::json::{Json, JsonV, dv_fields, dv_seq, lemma_dv_fields_len, lemma_dv_seq_len,
    obj_get_v};
use crate::jsonpath::{select_v, select_docs, parse_query, plain_form, render_v, QueryV};
use crate::store::Store;
use crate::table::range_scan;

verus! {

/// A handler's answer: the HTTP status and the JSON body to send.
pub struct ApiResponse {
    pub status: u16,
    pub body: Json,
}

/// The key order of a scan.
#[derive(Clone, Copy, PartialEq, Eq, Structural, Debug)]
pub enum SortOrder {
    Ascending,
    Descending,
}

/// A range or filter query, as a request body or query string carries it.
pub struct RangeQuery {
    pub from: Option<String>,
    pub to: Option<String>,
    pub limit: Option<usize>,
    pub order: Option<SortOrder>,
    pub keys: bool,
    pub query: Option<String>,
}

impl Default for RangeQuery {
    /// An unconstrained query: the whole key space, ascending, unbounded,
    /// keys included.
    fn default() -> (r: RangeQuery)
        ensures
            r.from is None,
            r.to is None,
            r.limit is None,
            r.order is None,
            r.keys == true,
            r.query is None,
    {
        RangeQuery { from: None, to: None, limit: None, order: None, keys: true, query: None }
    }
}

/// The default upper bound of a scan: a high sentinel above every key in
/// use.
pub open spec fn high_sentinel() -> Seq<char> {
    seq!['\u{fff0}']
}

/// The `{key, value}` objects of a document list.
pub open spec fn keyed_docs_v(docs: Seq<(Seq<char>, JsonV)>) -> Seq<JsonV>
    decreases docs.len(),
{
    if docs.len() == 0 {
        Seq::empty()
    } else {
        seq![
            JsonV::Obj(
                seq![
                    (seq!['k', 'e', 'y'], JsonV::Str(docs[0].0)),
                    (seq!['v', 'a', 'l', 'u', 'e'], docs[0].1),
                ],
            ),
        ] + keyed_docs_v(docs.drop_first())
    }
}

/// The values of a document list.
pub open spec fn values_of_v(docs: Seq<(Seq<char>, JsonV)>) -> Seq<JsonV>
    decreases docs.len(),
{
    if docs.len() == 0 {
        Seq::empty()
    } else {
        seq![docs[0].1] + values_of_v(docs.drop_first())
    }
}

proof fn lemma_keyed_docs_snoc(docs: Seq<(Seq<char>, JsonV)>, i: int)
    requires
        0 <= i < docs.len(),
    ensures
        keyed_docs_v(docs.take(i + 1)) == keyed_docs_v(docs.take(i)) + seq![
            JsonV::Obj(
                seq![
                    (seq!['k', 'e', 'y'], JsonV::Str(docs[i].0)),
                    (seq!['v', 'a', 'l', 'u', 'e'], docs[i].1),
                ],
            ),
        ],
        values_of_v(docs.take(i + 1)) == values_of_v(docs.take(i)) + seq![docs[i].1],
    decreases i,
{
    if i == 0 {
        assert(docs.take(1) =~= seq![docs[0]]);
        assert(docs.take(1)[0] == docs[0]);
        assert(docs.take(1).drop_first() =~= Seq::<(Seq<char>, JsonV)>::empty());
        assert(docs.take(0) =~= Seq::<(Seq<char>, JsonV)>::empty());
        assert(keyed_docs_v(docs.take(1)) =~= keyed_docs_v(docs.take(0)) + seq![
            JsonV::Obj(
                seq![
                    (seq!['k', 'e', 'y'], JsonV::Str(docs[0].0)),
                    (seq!['v', 'a', 'l', 'u', 'e'], docs[0].1),
                ],
            ),
        ]);
        assert(values_of_v(docs.take(1)) =~= values_of_v(docs.take(0)) + seq![docs[0].1]);
    } else {
        let t = docs.drop_first();
        lemma_keyed_docs_snoc(t, i - 1);
        assert(docs.take(i + 1).drop_first() =~= t.take(i));
        assert(docs.take(i).drop_first() =~= t.take(i - 1));
        assert(docs.take(i + 1)[0] == docs[0]);
        assert(docs.take(i)[0] == docs[0]);
        assert(t[i - 1] == docs[i]);
        let head_k = JsonV::Obj(
            seq![
                (seq!['k', 'e', 'y'], JsonV::Str(docs[0].0)),
                (seq!['v', 'a', 'l', 'u', 'e'], docs[0].1),
            ],
        );
        let piece = JsonV::Obj(
            seq![
                (seq!['k', 'e', 'y'], JsonV::Str(docs[i].0)),
                (seq!['v', 'a', 'l', 'u', 'e'], docs[i].1),
            ],
        );
        assert(seq![head_k] + (keyed_docs_v(t.take(i - 1)) + seq![piece]) =~= (seq![head_k]
            + keyed_docs_v(t.take(i - 1))) + seq![piece]);
        assert(seq![docs[0].1] + (values_of_v(t.take(i - 1)) + seq![docs[i].1]) =~= (seq![
            docs[0].1,
        ] + values_of_v(t.take(i - 1))) + seq![docs[i].1]);
    }
}

/// Turn a document list into its response array: `{key, value}` objects,
/// or the bare values.
#[verifier::loop_isolation(false)]
pub fn docs_to_array(docs: Vec<(String, Json)>, keyed: bool) -> (r: Json)
    ensures
        r.dv() == JsonV::Arr(
            if keyed {
                keyed_docs_v(dv_fields(docs@))
            } else {
                values_of_v(dv_fields(docs@))
            },
        ),
{
    proof {
        reveal_strlit("key");
        reveal_strlit("value");
        lemma_dv_fields_len(docs@);
    }
    let ghost dvs = dv_fields(docs@);
    let mut out: Vec<Json> = Vec::new();
    let mut i: usize = 0;
    proof {
        lemma_dv_seq_len(out@);
        assert(dvs.take(0) =~= Seq::<(Seq<char>, JsonV)>::empty());
        assert(dv_seq(out@) =~= Seq::<JsonV>::empty());
    }
    while i < docs.len()
        invariant
            i <= docs@.len(),
            dv_seq(out@) == if keyed {
                keyed_docs_v(dvs.take(i as int))
            } else {
                values_of_v(dvs.take(i as int))
            },
        decreases docs@.len() - i,
    {
        let entry = &docs[i];
        proof {
            assert(dvs[i as int] == (docs@[i as int].0@, docs@[i as int].1.dv()));
            lemma_keyed_docs_snoc(dvs, i as int);
        }
        let ghost preout = out@;
        if keyed {
            let mut fields: Vec<(String, Json)> = Vec::new();
            fields.push((String::from_str("key"), Json::Str(entry.0.clone())));
            fields.push((String::from_str("value"), entry.1.deep_clone()));
            proof {
                lemma_dv_fields_len(fields@);
                assert(("key")@ =~= seq!['k', 'e', 'y']);
                assert(("value")@ =~= seq!['v', 'a', 'l', 'u', 'e']);
                assert(dv_fields(fields@)[0] == (fields@[0].0@, fields@[0].1.dv()));
                assert(dv_fields(fields@)[1] == (fields@[1].0@, fields@[1].1.dv()));
                assert(dv_fields(fields@) =~= seq![
                    (seq!['k', 'e', 'y'], JsonV::Str(dvs[i as int].0)),
                    (seq!['v', 'a', 'l', 'u', 'e'], dvs[i as int].1),
                ]);
            }
            out.push(Json::Obj(fields));
        } else {
            out.push(entry.1.deep_clone());
        }
        proof {
            lemma_dv_seq_len(preout);
            lemma_dv_seq_len(out@);
            assert(preout.push(out@[out@.len() - 1]) =~= out@);
            assert forall|j: int| 0 <= j < out@.len() implies dv_seq(out@)[j] == (if keyed {
                keyed_docs_v(dvs.take(i + 1))
            } else {
                values_of_v(dvs.take(i + 1))
            })[j] by {
                assert(dv_seq(out@)[j] == out@[j].dv());
                if j < preout.len() {
                    assert(out@[j] == preout[j]);
                    assert(dv_seq(preout)[j] == preout[j].dv());
                }
            }
            assert(dv_seq(out@) =~= if keyed {
                keyed_docs_v(dvs.take(i + 1))
            } else {
                values_of_v(dvs.take(i + 1))
            });
        }
        i = i + 1;
    }
    proof {
        assert(dvs.take(docs@.len() as int) =~= dvs);
    }
    Json::Arr(out)
}

/// A body of plain text, as a JSON string.
pub fn text_body(s: &str) -> (r: Json)
    ensures
        r.dv() == JsonV::Str(s@),
{
    let mut out = String::new();
    out.append(s);
    proof {
        assert(out@ =~= s@);
    }
    Json::Str(out)
}

/// Probe a collection: 200 when it exists, else 404.
pub fn collection_exists(store: &Store, internal: &str) -> (r: ApiResponse)
    ensures
        r.status == 200 <==> store.cf_lookup(internal@) is Some,
        r.status == 200 || r.status == 404,
{
    if store.cf_exists(internal) {
        ApiResponse { status: 200, body: Json::Null }
    } else {
        ApiResponse { status: 404, body: Json::Null }
    }
}

/// Probe a document: 200 when the collection holds the key, else 404.
pub fn head_doc(store: &Store, internal: &str, key: &str) -> (r: ApiResponse)
    requires
        store.wf(),
    ensures
        r.status == 200 <==> store.cf_lookup(internal@) is Some && obj_get_v(
            store.cf_lookup(internal@)->Some_0,
            key@,
        ) is Some,
        r.status == 200 || r.status == 404,
{
    match store.get_cf(internal, key) {
        Ok(_) => ApiResponse { status: 200, body: Json::Null },
        Err(_) => ApiResponse { status: 404, body: Json::Null },
    }
}

/// Read a document: 200 with the document, 404 when the collection or the
/// key is unknown.
pub fn get_doc(store: &Store, internal: &str, key: &str) -> (r: ApiResponse)
    requires
        store.wf(),
    ensures
        match obj_get_of_cf(store, internal@, key@) {
            Some(v) => r.status == 200 && r.body.dv() == v,
            None => r.status == 404,
        },
{
    match store.get_cf(internal, key) {
        Ok(v) => ApiResponse { status: 200, body: v.deep_clone() },
        Err(_) => ApiResponse { status: 404, body: Json::Null },
    }
}

/// The document under a key of a column family, when both exist.
pub open spec fn obj_get_of_cf(store: &Store, cf: Seq<char>, key: Seq<char>) -> Option<JsonV> {
    match store.cf_lookup(cf) {
        Some(contents) => obj_get_v(contents, key),
        None => None,
    }
}

/// Write a document: 201 with the document and its mutation event; 404 on
/// an unknown collection.
pub fn put_doc(store: &mut Store, internal: &str, key: &str, value: Json) -> (r: (
    ApiResponse,
    Option<CollectionEvent>,
))
    requires
        old(store).wf(),
    ensures
        final(store).wf(),
        old(store).cf_lookup(internal@) is Some ==> {
            &&& r.0.status == 201
            &&& r.0.body.dv() == value.dv()
            &&& r.1 matches Some(e) && e.operation == Operation::Create && e.key@ == key@
                && e.value.dv() == value.dv()
            &&& forall|q: Seq<char>|
                final(store).cf_lookup(q) == if q == internal@ {
                    Some(
                        crate::table::sorted_insert(
                            old(store).cf_lookup(internal@)->Some_0,
                            key@,
                            value.dv(),
                        ),
                    )
                } else {
                    old(store).cf_lookup(q)
                }
        },
        old(store).cf_lookup(internal@) is None ==> r.0.status == 404 && r.1 is None
            && final(store).cfs_v() == old(store).cfs_v(),
{
    let body = value.deep_clone();
    let event_value = value.deep_clone();
    match store.insert_cf(internal, key, value) {
        Ok(()) => {
            let mut key_string = String::new();
            key_string.append(key);
            proof {
                assert(key_string@ =~= key@);
            }
            let event = CollectionEvent {
                operation: Operation::Create,
                key: key_string,
                value: event_value,
            };
            (ApiResponse { status: 201, body }, Some(event))
        },
        Err(_) => (ApiResponse { status: 404, body: Json::Null }, None),
    }
}

/// Delete a document: 200 and a delete event when the collection exists
/// (deleting an absent key is accepted); 404 on an unknown collection.
pub fn delete_doc(store: &mut Store, internal: &str, key: &str) -> (r: (
    ApiResponse,
    Option<CollectionEvent>,
))
    requires
        old(store).wf(),
    ensures
        final(store).wf(),
        old(store).cf_lookup(internal@) is Some ==> {
            &&& r.0.status == 200
            &&& r.1 matches Some(e) && e.operation == Operation::Delete && e.key@ == key@
                && e.value.dv() == JsonV::Null
            &&& forall|q: Seq<char>|
                final(store).cf_lookup(q) == if q == internal@ {
                    Some(
                        crate::table::sorted_remove(
                            old(store).cf_lookup(internal@)->Some_0,
                            key@,
                        ),
                    )
                } else {
                    old(store).cf_lookup(q)
                }
        },
        old(store).cf_lookup(internal@) is None ==> r.0.status == 404 && r.1 is None
            && final(store).cfs_v() == old(store).cfs_v(),
{
    match store.delete_cf(internal, key) {
        Ok(()) => {
            let mut key_string = String::new();
            key_string.append(key);
            proof {
                assert(key_string@ =~= key@);
            }
            let event = CollectionEvent {
                operation: Operation::Delete,
                key: key_string,
                value: Json::Null,
            };
            (ApiResponse { status: 200, body: Json::Null }, Some(event))
        },
        Err(_) => (ApiResponse { status: 404, body: Json::Null }, None),
    }
}

/// The batch a `_batch` request writes, and the events it publishes: one
/// create per pair, in order.
#[verifier::loop_isolation(false)]
pub fn batch_put(store: &mut Store, internal: &str, items: Vec<(String, Json)>) -> (r: (
    ApiResponse,
    Vec<CollectionEvent>,
))
    requires
        old(store).wf(),
    ensures
        final(store).wf(),
        old(store).cf_lookup(internal@) is Some ==> {
            &&& r.0.status == 201
            &&& forall|q: Seq<char>|
                final(store).cf_lookup(q) == if q == internal@ {
                    Some(
                        crate::store::batch_apply(
                            old(store).cf_lookup(internal@)->Some_0,
                            dv_fields(items@),
                        ),
                    )
                } else {
                    old(store).cf_lookup(q)
                }
            &&& r.1@.len() == items@.len()
            &&& forall|j: int|
                0 <= j < items@.len() ==> (#[trigger] r.1@[j]).operation == Operation::Create
                    && r.1@[j].key@ == dv_fields(items@)[j].0 && r.1@[j].value.dv() == dv_fields(
                    items@,
                )[j].1
        },
        old(store).cf_lookup(internal@) is None ==> r.0.status == 404 && r.1@.len() == 0
            && final(store).cfs_v() == old(store).cfs_v(),
{
    proof {
        lemma_dv_fields_len(items@);
    }
    match store.batch_insert_cf(internal, &items) {
        Ok(()) => {
            let mut events: Vec<CollectionEvent> = Vec::new();
            let mut i: usize = 0;
            while i < items.len()
                invariant
                    i <= items@.len(),
                    events@.len() == i,
                    dv_fields(items@).len() == items@.len(),
                    forall|j: int|
                        0 <= j < items@.len() ==> dv_fields(items@)[j] == ((
                        #[trigger] items@[j]).0@, items@[j].1.dv()),
                    forall|j: int|
                        0 <= j < i ==> (#[trigger] events@[j]).operation == Operation::Create
                            && events@[j].key@ == dv_fields(items@)[j].0 && events@[j].value.dv()
                            == dv_fields(items@)[j].1,
                decreases items@.len() - i,
            {
                let item = &items[i];
                events.push(
                    CollectionEvent {
                        operation: Operation::Create,
                        key: item.0.clone(),
                        value: item.1.deep_clone(),
                    },
                );
                i = i + 1;
            }
            let body = docs_to_array(items, true);
            (ApiResponse { status: 201, body }, events)
        },
        Err(_) => (ApiResponse { status: 404, body: Json::Null }, Vec::new()),
    }
}


/// The effective scan window and order of a request: a missing lower
/// bound is the empty string, a missing upper bound the high sentinel, a
/// missing limit unbounded, a missing order ascending.
pub open spec fn eff_from(q: &RangeQuery) -> Seq<char> {
    match q.from {
        Some(s) => s@,
        None => Seq::empty(),
    }
}

pub open spec fn eff_to(q: &RangeQuery) -> Seq<char> {
    match q.to {
        Some(s) => s@,
        None => high_sentinel(),
    }
}

pub open spec fn eff_limit(q: &RangeQuery) -> nat {
    match q.limit {
        Some(l) => l as nat,
        None => usize::MAX as nat,
    }
}

pub open spec fn eff_reverse(q: &RangeQuery) -> bool {
    q.order == Some(SortOrder::Descending)
}

/// List a window of a collection: 404 on an unknown collection, else 200
/// with the scanned documents, keyed or bare as asked.
pub fn list_range(store: &Store, internal: &str, q: &RangeQuery) -> (r: ApiResponse)
    requires
        store.wf(),
    ensures
        store.cf_lookup(internal@) is None ==> r.status == 404,
        store.cf_lookup(internal@) matches Some(contents) ==> {
            &&& r.status == 200
            &&& r.body.dv() == JsonV::Arr(
                {
                    let scanned = range_scan(
                        contents,
                        eff_from(q),
                        eff_to(q),
                        eff_limit(q),
                        eff_reverse(q),
                    );
                    if q.keys {
                        keyed_docs_v(scanned)
                    } else {
                        values_of_v(scanned)
                    }
                },
            )
        },
{
    proof {
        reveal_strlit("");
        reveal_strlit("\u{fff0}");
    }
    let from_default = String::from_str("");
    let to_default = String::from_str("\u{fff0}");
    let from = match &q.from {
        Some(s) => s.as_str(),
        None => from_default.as_str(),
    };
    let to = match &q.to {
        Some(s) => s.as_str(),
        None => to_default.as_str(),
    };
    let limit = match q.limit {
        Some(l) => l,
        None => usize::MAX,
    };
    let reverse = match q.order {
        Some(SortOrder::Descending) => true,
        _ => false,
    };
    proof {
        assert(from@ =~= eff_from(q));
        assert(("\u{fff0}")@ =~= high_sentinel());
        assert(to@ =~= eff_to(q));
    }
    match store.get_range_cf(internal, from, to, limit, reverse) {
        Ok(items) => ApiResponse { status: 200, body: docs_to_array(items, q.keys) },
        Err(_) => ApiResponse { status: 404, body: Json::Null },
    }
}

/// Answer a posted query: a JSONPath expression filters the collection, a
/// body without one asks for a range; 404 on an unknown collection, 400
/// on an expression that does not parse. The canonical text of any
/// plain-form query is owed its answer.
pub fn run_query(store: &Store, internal: &str, q: &RangeQuery) -> (r: ApiResponse)
    requires
        store.wf(),
    ensures
        store.cf_lookup(internal@) is None ==> r.status == 404,
        store.cf_lookup(internal@) matches Some(contents) ==> match q.query {
            Some(path) => {
                &&& (r.status == 200 || r.status == 400)
                &&& (path@ == seq!['$'] || (exists|qv: QueryV|
                    #[trigger] crate::jsonpath::plain_form(qv) && path@ == render_v(qv)))
                    ==> r.status == 200
                &&& r.status == 200 ==> (forall|qv: QueryV|
                    #[trigger] plain_form(qv) && path@ == render_v(qv) ==> r.body.dv()
                        == JsonV::Arr(
                        if q.keys {
                            keyed_docs_v(select_v(qv, contents))
                        } else {
                            values_of_v(select_v(qv, contents))
                        },
                    ))
                &&& r.status == 200 ==> exists|qv: QueryV|
                    (path@ == render_v(qv) || path@ =~= seq!['$'] && qv == QueryV::All) && r.body.dv()
                        == JsonV::Arr(
                        if q.keys {
                            keyed_docs_v(select_v(qv, contents))
                        } else {
                            values_of_v(select_v(qv, contents))
                        },
                    )
            },
            None => {
                &&& r.status == 200
                &&& r.body.dv() == JsonV::Arr(
                    {
                        let scanned = range_scan(
                            contents,
                            eff_from(q),
                            eff_to(q),
                            eff_limit(q),
                            eff_reverse(q),
                        );
                        if q.keys {
                            keyed_docs_v(scanned)
                        } else {
                            values_of_v(scanned)
                        }
                    },
                )
            },
        },
{
    if !store.cf_exists(internal) {
        return ApiResponse { status: 404, body: Json::Null };
    }
    match &q.query {
        Some(path) => {
            match parse_query(path.as_str()) {
                Some(query) => {
                    let docs = match store.export_cf(internal) {
                        Ok(docs) => docs,
                        Err(_) => {
                            return ApiResponse { status: 404, body: Json::Null };
                        },
                    };
                    let selected = select_docs(&query, docs);
                    let body = docs_to_array(selected, q.keys);
                    proof {
                        let qv = query.v();
                        assert((path@ == render_v(qv) || path@ =~= seq!['$'] && qv == QueryV::All)
                            && body.dv() == JsonV::Arr(
                            if q.keys {
                                keyed_docs_v(select_v(qv, store.cf_lookup(internal@)->Some_0))
                            } else {
                                values_of_v(select_v(qv, store.cf_lookup(internal@)->Some_0))
                            },
                        ));
                    }
                    ApiResponse { status: 200, body }
                },
                None => ApiResponse {
                    status: 400,
                    body: text_body("Invalid query expression"),
                },
            }
        },
        None => list_range(store, internal, q),
    }
}

/// The stored secret record, as JSON.
pub open spec fn secret_jv(created_at: Seq<char>, hash: Seq<char>) -> JsonV {
    JsonV::Obj(
        seq![
            (
                seq!['c', 'r', 'e', 'a', 't', 'e', 'd', '_', 'a', 't'],
                JsonV::Str(created_at),
            ),
            (seq!['s', 'e', 'c', 'r', 'e', 't'], JsonV::Str(hash)),
        ],
    )
}

/// A secret record as a JSON document.
pub fn secret_json(s: &crate::tenant::Secret) -> (r: Json)
    ensures
        r.dv() == secret_jv(s.created_at@, s.secret@),
{
    proof {
        reveal_strlit("created_at");
        reveal_strlit("secret");
    }
    let mut fields: Vec<(String, Json)> = Vec::new();
    fields.push((String::from_str("created_at"), Json::Str(s.created_at.clone())));
    fields.push((String::from_str("secret"), Json::Str(s.secret.clone())));
    proof {
        lemma_dv_fields_len(fields@);
        assert(("created_at")@ =~= seq!['c', 'r', 'e', 'a', 't', 'e', 'd', '_', 'a', 't']);
        assert(("secret")@ =~= seq!['s', 'e', 'c', 'r', 'e', 't']);
        assert(dv_fields(fields@)[0] == (fields@[0].0@, fields@[0].1.dv()));
        assert(dv_fields(fields@)[1] == (fields@[1].0@, fields@[1].1.dv()));
        assert(dv_fields(fields@) =~= secret_jv(s.created_at@, s.secret@)->Obj_0);
    }
    Json::Obj(fields)
}

/// The hash a request must match: the `secret` member of the secrets row
/// for the internal name; the empty string when the row or member is
/// anything else.
pub open spec fn stored_hash_of(store: &Store, internal: Seq<char>) -> Seq<char> {
    match obj_get_of_cf(store, seq!['s', 'e', 'c', 'r', 'e', 't', 's'], internal) {
        Some(row) => match row {
            JsonV::Obj(fields) => match obj_get_v(fields, seq!['s', 'e', 'c', 'r', 'e', 't']) {
                Some(JsonV::Str(h)) => h,
                _ => Seq::empty(),
            },
            _ => Seq::empty(),
        },
        None => Seq::empty(),
    }
}

/// The auth gate against the store: the admin token, or a secret hashing
/// to the stored row for the internal name.
pub fn authorize_request(
    store: &Store,
    internal: &str,
    admin_header: Option<&str>,
    admin_token: &str,
    secret_header: Option<&str>,
) -> (r: bool)
    requires
        store.wf(),
    ensures
        r == crate::tenant::authorized(
            match admin_header {
                Some(h) => Some(h@),
                None => None,
            },
            admin_token@,
            match secret_header {
                Some(h) => Some(h@),
                None => None,
            },
            stored_hash_of(store, internal@),
        ),
{
    proof {
        reveal_strlit("secrets");
        reveal_strlit("secret");
        assert(("secrets")@ =~= seq!['s', 'e', 'c', 'r', 'e', 't', 's']);
        assert(("secret")@ =~= seq!['s', 'e', 'c', 'r', 'e', 't']);
    }
    if crate::tenant::verify_admin_token(admin_header, admin_token) {
        return true;
    }
    let header = match secret_header {
        Some(h) => h,
        None => {
            return false;
        },
    };
    let input_hash = crate::hash::hash_secret_key(header);
    let stored: Option<&Json> = match store.get_cf("secrets", internal) {
        Ok(row) => row.get_field("secret"),
        Err(_) => None,
    };
    match stored {
        Some(v) => match v {
            Json::Str(h) => crate::strutil::str_eq(input_hash.as_str(), h.as_str()),
            _ => {
                proof {
                    assert(input_hash@.len() == 64);
                }
                false
            },
        },
        None => {
            proof {
                assert(input_hash@.len() == 64);
            }
            false
        },
    }
}


/// `name` with the backups suffix appended.
pub open spec fn backups_name_v(name: Seq<char>) -> Seq<char> {
    name + seq!['-', 'b', 'a', 'c', 'k', 'u', 'p', 's']
}

pub fn backups_name(name: &str) -> (r: String)
    ensures
        r@ == backups_name_v(name@),
{
    proof {
        reveal_strlit("-backups");
    }
    let mut out = String::new();
    out.append(name);
    out.append("-backups");
    proof {
        assert(("-backups")@ =~= seq!['-', 'b', 'a', 'c', 'k', 'u', 'p', 's']);
        assert(out@ =~= backups_name_v(name@));
    }
    out
}

/// The `{message, secret_key}` body returned once at creation.
pub open spec fn created_body_v(user: Seq<char>, secret: Seq<char>) -> JsonV {
    JsonV::Obj(
        seq![
            (
                seq!['m', 'e', 's', 's', 'a', 'g', 'e'],
                JsonV::Str(
                    seq!['C', 'o', 'l', 'l', 'e', 'c', 't', 'i', 'o', 'n', ' '] + user + seq![
                        ' ',
                        'c',
                        'r',
                        'e',
                        'a',
                        't',
                        'e',
                        'd',
                    ],
                ),
            ),
            (seq!['s', 'e', 'c', 'r', 'e', 't', '_', 'k', 'e', 'y'], JsonV::Str(secret)),
        ],
    )
}

/// Create a collection: its own column family, its backups sibling, and
/// the hashed secret stored under both internal names; the plaintext
/// secret is returned exactly once. 409 when the internal name is taken,
/// 500 when the secrets column family is missing.
pub fn create_collection(
    store: &mut Store,
    user: &str,
    internal: &str,
    secret_key: &str,
    timestamp: String,
) -> (r: ApiResponse)
    requires
        old(store).wf(),
    ensures
        final(store).wf(),
        old(store).cf_lookup(internal@) is Some ==> r.status == 409 && final(store).cfs_v() == old(
            store,
        ).cfs_v(),
        old(store).cf_lookup(internal@) is None && old(store).cf_lookup(
            seq!['s', 'e', 'c', 'r', 'e', 't', 's'],
        ) is Some ==> {
            &&& r.status == 201
            &&& r.body.dv() == created_body_v(user@, secret_key@)
            &&& final(store).cf_lookup(internal@) is Some
            &&& final(store).cf_lookup(backups_name_v(internal@)) is Some
            &&& (obj_get_of_cf(final(store), seq!['s', 'e', 'c', 'r', 'e', 't', 's'], internal@)
                matches Some(row) && row == secret_jv(
                timestamp@,
                crate::hash::sha256_hex(secret_key@),
            ))
            &&& (obj_get_of_cf(
                final(store),
                seq!['s', 'e', 'c', 'r', 'e', 't', 's'],
                backups_name_v(internal@),
            ) matches Some(row) && row == secret_jv(
                timestamp@,
                crate::hash::sha256_hex(secret_key@),
            ))
        },
        old(store).cf_lookup(internal@) is None && old(store).cf_lookup(
            seq!['s', 'e', 'c', 'r', 'e', 't', 's'],
        ) is None ==> r.status == 500 && final(store).cfs_v() == old(store).cfs_v(),
{
    proof {
        reveal_strlit("secrets");
        assert(("secrets")@ =~= seq!['s', 'e', 'c', 'r', 'e', 't', 's']);
        reveal_strlit("message");
        reveal_strlit("secret_key");
        reveal_strlit("Collection ");
        reveal_strlit(" created");
        reveal_strlit(" already exists");
    }
    if store.cf_exists(internal) {
        let mut msg = String::new();
        msg.append("Collection ");
        msg.append(user);
        msg.append(" already exists");
        return ApiResponse { status: 409, body: Json::Str(msg) };
    }
    // Without the secrets records no collection may come to be: a
    // collection without its secrets row would break the data model.
    if !store.cf_exists("secrets") {
        return ApiResponse { status: 500, body: text_body("The secrets records are unavailable") };
    }
    let backups_cf = backups_name(internal);
    let ghost secrets_name0: Seq<char> = seq!['s', 'e', 'c', 'r', 'e', 't', 's'];
    match store.create_cf(internal) {
        Ok(()) => {},
        Err(_) => {
            return ApiResponse { status: 500, body: text_body("Failed to create collection") };
        },
    }
    proof {
        if old(store).cf_lookup(internal@) is None && old(store).cf_lookup(secrets_name0) is Some {
            assert(store.cf_lookup(secrets_name0) is Some);
        }
    }
    // The backups sibling may already exist and survive from an earlier
    // life of the collection; that is tolerated.
    let _backups_created = store.create_cf(backups_cf.as_str());
    proof {
        assert(secrets_name0.len() == 7);
        assert(backups_name_v(internal@).len() == internal@.len() + 8);
        assert(secrets_name0 != backups_name_v(internal@));
        if old(store).cf_lookup(internal@) is None && old(store).cf_lookup(secrets_name0) is Some {
            assert(store.cf_lookup(secrets_name0) is Some);
        }
    }
    let secret = crate::tenant::create_secret(secret_key, timestamp);
    let secret_doc = secret_json(&secret);
    let secret_doc_twin = secret_doc.deep_clone();
    let ghost secrets_name: Seq<char> = seq!['s', 'e', 'c', 'r', 'e', 't', 's'];
    let ghost jv = secret_jv(timestamp@, crate::hash::sha256_hex(secret_key@));
    proof {
        assert(secrets_name.len() == 7);
        assert(backups_name_v(internal@).len() == internal@.len() + 8);
        assert(secrets_name != backups_name_v(internal@));
        assert(internal@ != backups_name_v(internal@));
    }
    let ghost c_before1 = store.cf_lookup(secrets_name);
    proof {
        if old(store).cf_lookup(internal@) is None && old(store).cf_lookup(secrets_name) is Some {
            assert(("secrets")@ == secrets_name);
            assert(internal@ != secrets_name);
            assert(c_before1 is Some);
        }
    }
    match store.insert_cf("secrets", internal, secret_doc) {
        Ok(()) => {},
        Err(_) => {
            return ApiResponse { status: 500, body: text_body("Failed to store secret") };
        },
    }
    let ghost c_after1 = store.cf_lookup(secrets_name);
    match store.insert_cf("secrets", backups_cf.as_str(), secret_doc_twin) {
        Ok(()) => {},
        Err(_) => {
            return ApiResponse { status: 500, body: text_body("Failed to store secret") };
        },
    }
    proof {
        crate::table::lemma_sorted_insert_lookup(c_after1->Some_0, backups_name_v(internal@), jv,
            internal@);
        crate::table::lemma_sorted_insert_lookup(c_before1->Some_0, internal@, jv, internal@);
        crate::table::lemma_sorted_insert_lookup(c_after1->Some_0, backups_name_v(internal@), jv,
            backups_name_v(internal@));
    }
    let mut msg = String::new();
    msg.append("Collection ");
    msg.append(user);
    msg.append(" created");
    let mut secret_copy = String::new();
    secret_copy.append(secret_key);
    let mut fields: Vec<(String, Json)> = Vec::new();
    fields.push((String::from_str("message"), Json::Str(msg)));
    fields.push((String::from_str("secret_key"), Json::Str(secret_copy)));
    proof {
        lemma_dv_fields_len(fields@);
        assert(dv_fields(fields@)[0] == (fields@[0].0@, fields@[0].1.dv()));
        assert(dv_fields(fields@)[1] == (fields@[1].0@, fields@[1].1.dv()));
        assert(("message")@ =~= seq!['m', 'e', 's', 's', 'a', 'g', 'e']);
        assert(("secret_key")@ =~= seq!['s', 'e', 'c', 'r', 'e', 't', '_', 'k', 'e', 'y']);
        assert(("Collection ")@ =~= seq!['C', 'o', 'l', 'l', 'e', 'c', 't', 'i', 'o', 'n', ' ']);
        assert((" created")@ =~= seq![' ', 'c', 'r', 'e', 'a', 't', 'e', 'd']);
        assert(fields@[0].1->Str_0@ =~= seq![
            'C',
            'o',
            'l',
            'l',
            'e',
            'c',
            't',
            'i',
            'o',
            'n',
            ' ',
        ] + user@ + seq![' ', 'c', 'r', 'e', 'a', 't', 'e', 'd']);
        assert(dv_fields(fields@) =~= created_body_v(user@, secret_key@)->Obj_0);
        crate::table::lemma_sorted_insert_sorted(
            Seq::<(Seq<char>, JsonV)>::empty(),
            internal@,
            secret_jv(timestamp@, crate::hash::sha256_hex(secret_key@)),
        );
    }
    ApiResponse { status: 201, body: Json::Obj(fields) }
}

/// The bookkeeping column families no request may drop: the secrets,
/// backup and restore records every collection depends on.
pub open spec fn reserved_name(name: Seq<char>) -> bool {
    ||| name == seq!['s', 'e', 'c', 'r', 'e', 't', 's']
    ||| name == seq!['b', 'a', 'c', 'k', 'u', 'p', 's']
    ||| name == seq!['r', 'e', 's', 't', 'o', 'r', 'e', 's']
}

/// Whether a drop request must be refused: the name is a backups
/// collection whose base collection still exists.
pub open spec fn drop_blocked(store: &Store, user: Seq<char>, internal: Seq<char>) -> bool {
    crate::strutil::ends_with(user, seq!['-', 'b', 'a', 'c', 'k', 'u', 'p', 's'])
        && internal.len() >= 8 && store.cf_lookup(internal.take(internal.len() - 8)) is Some
}

/// Drop a collection. A backups collection can go only once its base
/// collection is gone; dropping a base collection leaves its backups
/// sibling in place, to be dropped by its own request.
pub fn drop_collection(store: &mut Store, user: &str, internal: &str) -> (r: ApiResponse)
    requires
        old(store).wf(),
    ensures
        final(store).wf(),
        reserved_name(internal@) ==> r.status == 400 && final(store).cfs_v() == old(
            store,
        ).cfs_v(),
        !reserved_name(internal@) && old(store).cf_lookup(internal@) is None ==> r.status == 404
            && final(store).cfs_v() == old(store).cfs_v(),
        !reserved_name(internal@) && old(store).cf_lookup(internal@) is Some ==> {
            &&& r.status == 200
            &&& drop_blocked(old(store), user@, internal@) ==> final(store).cfs_v() == old(
                store,
            ).cfs_v()
            &&& !drop_blocked(old(store), user@, internal@) ==> (forall|q: Seq<char>|
                final(store).cf_lookup(q) == if q == internal@ {
                    None::<crate::table::Entries>
                } else {
                    old(store).cf_lookup(q)
                })
        },
{
    proof {
        reveal_strlit("-backups");
        assert(("-backups")@ =~= seq!['-', 'b', 'a', 'c', 'k', 'u', 'p', 's']);
        assert(("-backups")@.len() == 8);
        reveal_strlit("secrets");
        reveal_strlit("backups");
        reveal_strlit("restores");
        assert(("secrets")@ =~= seq!['s', 'e', 'c', 'r', 'e', 't', 's']);
        assert(("backups")@ =~= seq!['b', 'a', 'c', 'k', 'u', 'p', 's']);
        assert(("restores")@ =~= seq!['r', 'e', 's', 't', 'o', 'r', 'e', 's']);
    }
    if crate::strutil::str_eq(internal, "secrets") || crate::strutil::str_eq(internal, "backups")
        || crate::strutil::str_eq(internal, "restores") {
        return ApiResponse {
            status: 400,
            body: text_body("The bookkeeping collections cannot be dropped"),
        };
    }
    if !store.cf_exists(internal) {
        return ApiResponse { status: 404, body: text_body("Collection does not exist") };
    }
    if crate::strutil::str_ends_with(user, "-backups") {
        // A backups collection: refuse while the base collection stands.
        let suffix_len: usize = 8;
        let internal_len = vstd::string::StrSliceExecFns::unicode_len(internal);
        if internal_len >= suffix_len {
            let base = crate::strutil::strip_suffix_chars(internal, suffix_len);
            if store.cf_exists(base.as_str()) {
                return ApiResponse {
                    status: 200,
                    body: text_body(
                        "The base collection still exists; delete it before its backups",
                    ),
                };
            }
        }
        match store.drop_cf(internal) {
            Ok(()) => ApiResponse { status: 200, body: text_body("Collection deleted") },
            Err(_) => ApiResponse { status: 200, body: Json::Null },
        }
    } else {
        match store.drop_cf(internal) {
            Ok(()) => ApiResponse { status: 200, body: text_body("Collection deleted") },
            Err(_) => ApiResponse { status: 200, body: Json::Null },
        }
    }
}

/// What the resolver hands the handlers: the internal name, and at
/// creation the plaintext secret in use.
pub struct Resolution {
    pub internal: String,
    pub fresh_secret: Option<String>,
}

/// Map a request to its internal collection name. Creation derives the
/// name from the presented or a freshly generated secret and passes the
/// plaintext on. Otherwise a legacy secrets row for the bare user name
/// takes precedence: the stored hash's eight-character prefix is hashed
/// again as the namespace source. Else a presented secret derives the
/// name; with nothing at hand the user name stands as it is.
pub fn resolve_internal(
    is_create: bool,
    user: &str,
    header_secret: Option<&str>,
    legacy: Option<&crate::tenant::Secret>,
    generated: String,
) -> (r: Resolution)
    ensures
        is_create ==> {
            let secret = match header_secret {
                Some(h) => h@,
                None => generated@,
            };
            &&& r.internal@ == crate::tenant::internal_name_of(secret, user@)
            &&& (r.fresh_secret matches Some(s) && s@ == secret)
        },
        !is_create ==> r.fresh_secret is None && r.internal@ == (match legacy {
            Some(row) => row.secret@.take(if row.secret@.len() < 8 {
                row.secret@.len() as int
            } else {
                8
            }) + seq!['-'] + user@,
            None => match header_secret {
                Some(h) => crate::tenant::internal_name_of(h@, user@),
                None => user@,
            },
        }),
{
    if is_create {
        let secret: String = match header_secret {
            Some(h) => {
                let mut s = String::new();
                s.append(h);
                proof {
                    assert(s@ =~= h@);
                }
                s
            },
            None => generated,
        };
        let internal = crate::tenant::internal_name(secret.as_str(), user);
        Resolution { internal, fresh_secret: Some(secret) }
    } else {
        match legacy {
            Some(row) => {
                let hash_len = vstd::string::StrSliceExecFns::unicode_len(row.secret.as_str());
                let prefix_len = if hash_len < 8 {
                    hash_len
                } else {
                    8
                };
                let prefix = vstd::string::StrSliceExecFns::substring_char(
                    row.secret.as_str(),
                    0,
                    prefix_len,
                );
                proof {
                    assert(prefix@ =~= row.secret@.take(if row.secret@.len() < 8 {
                        row.secret@.len() as int
                    } else {
                        8
                    }));
                }
                let internal = crate::tenant::join_internal(prefix, user);
                Resolution { internal, fresh_secret: None }
            },
            None => match header_secret {
                Some(h) => {
                    let internal = crate::tenant::internal_name(h, user);
                    Resolution { internal, fresh_secret: None }
                },
                None => {
                    let mut internal = String::new();
                    internal.append(user);
                    proof {
                        assert(internal@ =~= user@);
                    }
                    Resolution { internal, fresh_secret: None }
                },
            },
        }
    }
}


/// The knobs of the synthetic workload endpoint.
pub struct BenchmarkParams {
    pub count: usize,
    pub size: usize,
    pub batch_size: usize,
    pub query_count: usize,
    pub include_storage: bool,
}

impl Default for BenchmarkParams {
    fn default() -> (r: BenchmarkParams)
        ensures
            r.count == 1000,
            r.size == 512,
            r.batch_size == 100,
            r.query_count == 10,
            r.include_storage == false,
    {
        BenchmarkParams {
            count: 1000,
            size: 512,
            batch_size: 100,
            query_count: 10,
            include_storage: false,
        }
    }
}


/// Resolve a request as the middleware does, drawing a fresh 32-character
/// secret when creation presents none.
pub fn resolve_request(
    is_create: bool,
    user: &str,
    header_secret: Option<&str>,
    legacy: Option<&crate::tenant::Secret>,
) -> (r: Resolution)
    ensures
        is_create ==> (match header_secret {
            Some(h) => r.internal@ == crate::tenant::internal_name_of(h@, user@) && (r.fresh_secret
                matches Some(s) && s@ == h@),
            None => (r.fresh_secret matches Some(s) && s@.len() == 32 && r.internal@
                == crate::tenant::internal_name_of(s@, user@)),
        }),
        !is_create ==> r.fresh_secret is None && r.internal@ == (match legacy {
            Some(row) => row.secret@.take(if row.secret@.len() < 8 {
                row.secret@.len() as int
            } else {
                8
            }) + seq!['-'] + user@,
            None => match header_secret {
                Some(h) => crate::tenant::internal_name_of(h@, user@),
                None => user@,
            },
        }),
{
    let generated = crate::idgen::generate_id(32);
    resolve_internal(is_create, user, header_secret, legacy, generated)
}

/// Create a collection at the wall clock's current moment: whatever
/// timestamp the clock reports becomes the secret record's creation time.
pub fn create_collection_now(
    store: &mut Store,
    user: &str,
    internal: &str,
    secret_key: &str,
) -> (r: ApiResponse)
    requires
        old(store).wf(),
    ensures
        final(store).wf(),
        old(store).cf_lookup(internal@) is Some ==> r.status == 409 && final(store).cfs_v() == old(
            store,
        ).cfs_v(),
        old(store).cf_lookup(internal@) is None && old(store).cf_lookup(
            seq!['s', 'e', 'c', 'r', 'e', 't', 's'],
        ) is Some ==> {
            &&& r.status == 201
            &&& r.body.dv() == created_body_v(user@, secret_key@)
            &&& final(store).cf_lookup(internal@) is Some
            &&& final(store).cf_lookup(backups_name_v(internal@)) is Some
            &&& exists|t: Seq<char>|
                obj_get_of_cf(final(store), seq!['s', 'e', 'c', 'r', 'e', 't', 's'], internal@)
                    == Some(secret_jv(t, crate::hash::sha256_hex(secret_key@)))
        },
{
    let timestamp = crate::idgen::now_rfc3339();
    let ghost tv = timestamp@;
    let r = create_collection(store, user, internal, secret_key, timestamp);
    proof {
        if old(store).cf_lookup(internal@) is None && old(store).cf_lookup(
            seq!['s', 'e', 'c', 'r', 'e', 't', 's'],
        ) is Some {
            assert(obj_get_of_cf(store, seq!['s', 'e', 'c', 'r', 'e', 't', 's'], internal@)
                == Some(secret_jv(tv, crate::hash::sha256_hex(secret_key@))));
        }
    }
    r
}

} // verus!
