//! Backup artifacts: a column family's contents as one JSON document, and
//! the ingestion that restores them.

use vstd::prelude::*;
use vstd::string::StringExecFns;
use crate::json::{Json, JsonV, dv_fields, set_field_v, obj_get_v};
use crate::store::{Store, StoreError, batch_apply};
use crate::strutil::{lex_lt, lemma_lex_lt_irreflexive, lemma_lex_lt_asymmetric};
use crate::table::{Entries, sorted_keys, sorted_insert};

verus! {

impl Store {
    /// The backup artifact of a column family: one JSON object holding
    /// every document under its key, in key order.
    pub fn create_backup_json(&self, cf: &str) -> (r: Result<Json, StoreError>)
        requires
            self.wf(),
        ensures
            match r {
                Ok(j) => {
                    &&& self.cf_lookup(cf@) is Some
                    &&& j.dv() == JsonV::Obj(self.cf_lookup(cf@)->Some_0)
                },
                Err(e) => {
                    &&& e == StoreError::InvalidColumnFamily
                    &&& self.cf_lookup(cf@) is None
                },
            },
    {
        match self.export_cf(cf) {
            Ok(entries) => Ok(Json::Obj(entries)),
            Err(e) => Err(e),
        }
    }

    /// Ingest a backup artifact into a column family: every document of
    /// the artifact lands under its key, overwriting what was there;
    /// other keys stay. Anything but a JSON object is refused.
    pub fn restore_backup_json(&mut self, cf: &str, backup: Json) -> (r: Result<(), StoreError>)
        requires
            old(self).wf(),
        ensures
            final(self).wf(),
            match r {
                Ok(()) => {
                    &&& backup.dv() is Obj
                    &&& old(self).cf_lookup(cf@) is Some
                    &&& forall|q: Seq<char>|
                        final(self).cf_lookup(q) == if q == cf@ {
                            Some(
                                batch_apply(
                                    old(self).cf_lookup(cf@)->Some_0,
                                    backup.dv()->Obj_0,
                                ),
                            )
                        } else {
                            old(self).cf_lookup(q)
                        }
                },
                Err(e) => {
                    &&& e == StoreError::Serialization || e == StoreError::InvalidColumnFamily
                    &&& e == StoreError::Serialization ==> !(backup.dv() is Obj)
                        && final(self).cfs_v() == old(self).cfs_v()
                    &&& e == StoreError::InvalidColumnFamily ==> backup.dv() is Obj && old(
                        self,
                    ).cf_lookup(cf@) is None && final(self).cfs_v() == old(self).cfs_v()
                },
            },
    {
        match backup {
            Json::Obj(fields) => {
                let r = self.batch_insert_cf(cf, &fields);
                match r {
                    Ok(()) => Ok(()),
                    Err(e) => Err(e),
                }
            },
            _ => Err(StoreError::Serialization),
        }
    }
}

/// Inserting a key above every present key appends it.
proof fn lemma_sorted_insert_above(s: Entries, k: Seq<char>, v: JsonV)
    requires
        sorted_keys(s),
        forall|i: int| 0 <= i < s.len() ==> lex_lt((#[trigger] s[i]).0, k),
    ensures
        sorted_insert(s, k, v) == s.push((k, v)),
    decreases s.len(),
{
    if s.len() == 0 {
        assert(sorted_insert(s, k, v) =~= s.push((k, v)));
    } else {
        lemma_lex_lt_irreflexive(k);
        lemma_lex_lt_asymmetric(k, s[0].0);
        let t = s.drop_first();
        assert(forall|i: int| 0 <= i < t.len() ==> lex_lt((#[trigger] t[i]).0, k)) by {
            assert(forall|i: int| 0 <= i < t.len() ==> t[i] == s[i + 1]);
        }
        assert(sorted_keys(t));
        lemma_sorted_insert_above(t, k, v);
        assert(sorted_insert(s, k, v) == seq![s[0]] + t.push((k, v)));
        assert(seq![s[0]] + t.push((k, v)) =~= s.push((k, v)));
    }
}

/// Ingesting entries whose keys ascend past a table extends the table by
/// exactly those entries.
proof fn lemma_batch_extends(s: Entries, items: Entries)
    requires
        sorted_keys(s + items),
    ensures
        batch_apply(s, items) == s + items,
    decreases items.len(),
{
    if items.len() == 0 {
        assert(s + items =~= s);
    } else {
        let k = items[0].0;
        let v = items[0].1;
        assert(sorted_keys(s)) by {
            assert(forall|i: int, j: int|
                0 <= i < j < s.len() ==> lex_lt(#[trigger] (s + items)[i].0, #[trigger] (s
                    + items)[j].0));
            assert forall|i: int, j: int| 0 <= i < j < s.len() implies lex_lt(
                #[trigger] s[i].0,
                #[trigger] s[j].0,
            ) by {
                assert((s + items)[i] == s[i] && (s + items)[j] == s[j]);
            }
        }
        assert forall|i: int| 0 <= i < s.len() implies lex_lt((#[trigger] s[i]).0, k) by {
            assert((s + items)[i] == s[i]);
            assert((s + items)[s.len() as int] == items[0]);
        }
        lemma_sorted_insert_above(s, k, v);
        assert(s.push((k, v)) =~= s + seq![items[0]]);
        assert((s + seq![items[0]]) + items.drop_first() =~= s + items);
        lemma_batch_extends(s + seq![items[0]], items.drop_first());
    }
}

/// A backup restored into an empty column family rebuilds exactly the
/// contents it was taken from: ingesting a table's own ordered entries
/// yields that table again.
pub proof fn lemma_backup_round_trip(contents: Entries)
    requires
        sorted_keys(contents),
    ensures
        batch_apply(Seq::<(Seq<char>, JsonV)>::empty(), contents) == contents,
{
    assert(Seq::<(Seq<char>, JsonV)>::empty() + contents =~= contents);
    lemma_batch_extends(Seq::<(Seq<char>, JsonV)>::empty(), contents);
}


/// The `{message, id, collection}` body acknowledging a started
/// operation.
pub open spec fn operation_body_v(message: Seq<char>, id: Seq<char>, collection: Seq<char>) -> JsonV {
    JsonV::Obj(
        seq![
            (seq!['m', 'e', 's', 's', 'a', 'g', 'e'], JsonV::Str(message)),
            (seq!['i', 'd'], JsonV::Str(id)),
            (
                seq!['c', 'o', 'l', 'l', 'e', 'c', 't', 'i', 'o', 'n'],
                JsonV::Str(collection),
            ),
        ],
    )
}

pub fn operation_body(message: &str, id: &str, collection: &str) -> (r: Json)
    ensures
        r.dv() == operation_body_v(message@, id@, collection@),
{
    proof {
        reveal_strlit("message");
        reveal_strlit("id");
        reveal_strlit("collection");
    }
    let mut fields: Vec<(String, Json)> = Vec::new();
    let mut m = String::new();
    m.append(message);
    let mut i = String::new();
    i.append(id);
    let mut c = String::new();
    c.append(collection);
    fields.push((String::from_str("message"), Json::Str(m)));
    fields.push((String::from_str("id"), Json::Str(i)));
    fields.push((String::from_str("collection"), Json::Str(c)));
    proof {
        crate::json::lemma_dv_fields_len(fields@);
        assert(("message")@ =~= seq!['m', 'e', 's', 's', 'a', 'g', 'e']);
        assert(("id")@ =~= seq!['i', 'd']);
        assert(("collection")@ =~= seq!['c', 'o', 'l', 'l', 'e', 'c', 't', 'i', 'o', 'n']);
        assert(fields@.len() == 3);
        assert(crate::json::dv_fields(fields@)[0] == (fields@[0].0@, fields@[0].1.dv()));
        assert(crate::json::dv_fields(fields@)[1] == (fields@[1].0@, fields@[1].1.dv()));
        assert(crate::json::dv_fields(fields@)[2] == (fields@[2].0@, fields@[2].1.dv()));
        assert(fields@[0].1.dv() == JsonV::Str(message@));
        assert(fields@[1].1.dv() == JsonV::Str(id@));
        assert(fields@[2].1.dv() == JsonV::Str(collection@));
        assert(crate::json::dv_fields(fields@) =~= operation_body_v(
            message@,
            id@,
            collection@,
        )->Obj_0);
    }
    Json::Obj(fields)
}

/// The record a finished operation stores: an in-progress record with
/// the outcome folded in, field by field; a record no longer in progress
/// has been closed already and stays as it is; when the re-read failed,
/// a record synthesized from what is still known takes its place.
pub open spec fn finished_record_v(
    old_row: Option<JsonV>,
    ok: bool,
    detail: Seq<char>,
    finished_at: Seq<char>,
    id: Seq<char>,
    collection: Seq<char>,
    with_url: bool,
) -> JsonV {
    match old_row {
        Some(row) => if !(crate::records::obj_get_of(row, seq!['s', 't', 'a', 't', 'u', 's'])
            == Some(JsonV::Str(crate::records::OperationStatus::InProgress.label()))) {
            row
        } else {
            let stamped = set_field_v(
                set_field_v(
                    row,
                    seq!['s', 't', 'a', 't', 'u', 's'],
                    JsonV::Str(
                        if ok {
                            crate::records::OperationStatus::Completed.label()
                        } else {
                            crate::records::OperationStatus::Failed.label()
                        },
                    ),
                ),
                seq!['f', 'i', 'n', 'i', 's', 'h', 'e', 'd', '_', 'a', 't'],
                JsonV::Str(finished_at),
            );
            if ok && with_url {
                set_field_v(stamped, seq!['u', 'r', 'l'], JsonV::Str(detail))
            } else if !ok {
                set_field_v(stamped, seq!['e', 'r', 'r', 'o', 'r'], JsonV::Str(detail))
            } else {
                stamped
            }
        },
        None => crate::records::backup_record_jv(
            id,
            collection,
            finished_at,
            Some(finished_at),
            crate::records::OperationStatus::Failed,
            None,
            Some(detail),
        ),
    }
}

/// Fold an operation's outcome into its stored record: success stamps
/// completion (and, for a backup, the artifact's path), failure stamps
/// the error. A record no longer in progress has been closed already and
/// is returned unchanged; one that cannot be re-read is replaced by a
/// failed record synthesized from what is known.
pub fn finished_record(
    old_row: Option<&Json>,
    outcome: &Result<String, String>,
    finished_at: &str,
    id: &str,
    collection: &str,
    with_url: bool,
) -> (r: Json)
    ensures
        r.dv() == finished_record_v(
            match old_row {
                Some(j) => Some(j.dv()),
                None => None,
            },
            outcome is Ok,
            match outcome {
                Ok(u) => u@,
                Err(e) => e@,
            },
            finished_at@,
            id@,
            collection@,
            with_url,
        ),
{
    proof {
        reveal_strlit("status");
        reveal_strlit("finished_at");
        reveal_strlit("url");
        reveal_strlit("error");
        assert(("status")@ =~= seq!['s', 't', 'a', 't', 'u', 's']);
        assert(("finished_at")@ =~= seq!['f', 'i', 'n', 'i', 's', 'h', 'e', 'd', '_', 'a', 't']);
        assert(("url")@ =~= seq!['u', 'r', 'l']);
        assert(("error")@ =~= seq!['e', 'r', 'r', 'o', 'r']);
    }
    match old_row {
        Some(row) => {
            proof {
                reveal_strlit("in_progress");
                assert(("in_progress")@ =~= crate::records::OperationStatus::InProgress.label());
            }
            let still_open = match row.get_field("status") {
                Some(v) => match v {
                    Json::Str(tag) => crate::strutil::str_eq(tag.as_str(), "in_progress"),
                    _ => false,
                },
                None => false,
            };
            if !still_open {
                return row.deep_clone();
            }
            let status = match outcome {
                Ok(_) => crate::records::OperationStatus::Completed,
                Err(_) => crate::records::OperationStatus::Failed,
            };
            let mut fin = String::new();
            fin.append(finished_at);
            proof {
                assert(fin@ =~= finished_at@);
            }
            let stamped = row.deep_clone().set_field(
                "status",
                Json::Str(status.name()),
            ).set_field("finished_at", Json::Str(fin));
            match outcome {
                Ok(url) => {
                    if with_url {
                        stamped.set_field("url", Json::Str(url.clone()))
                    } else {
                        stamped
                    }
                },
                Err(e) => stamped.set_field("error", Json::Str(e.clone())),
            }
        },
        None => {
            let mut id_string = String::new();
            id_string.append(id);
            let mut coll = String::new();
            coll.append(collection);
            let mut started = String::new();
            started.append(finished_at);
            let mut fin = String::new();
            fin.append(finished_at);
            let detail: String = match outcome {
                Ok(u) => u.clone(),
                Err(e) => e.clone(),
            };
            let rec = crate::records::BackupRecord {
                id: id_string,
                collection: coll,
                started_at: started,
                finished_at: Some(fin),
                status: crate::records::OperationStatus::Failed,
                url: None,
                error: Some(detail),
            };
            let out = rec.to_json();
            proof {
                assert(id_string@ =~= id@);
                assert(coll@ =~= collection@);
                assert(started@ =~= finished_at@);
            }
            out
        },
    }
}

impl Store {
    /// Store a record under its id in a records column family.
    pub fn put_record(&mut self, records_cf: &str, id: &str, record: Json) -> (r: Result<
        (),
        StoreError,
    >)
        requires
            old(self).wf(),
        ensures
            final(self).wf(),
            match r {
                Ok(()) => {
                    &&& old(self).cf_lookup(records_cf@) is Some
                    &&& obj_get_of_store(final(self), records_cf@, id@) == Some(record.dv())
                    &&& forall|q: Seq<char>|
                        q != records_cf@ ==> final(self).cf_lookup(q) == old(self).cf_lookup(q)
                },
                Err(e) => {
                    &&& e == StoreError::InvalidColumnFamily
                    &&& old(self).cf_lookup(records_cf@) is None
                    &&& final(self).cfs_v() == old(self).cfs_v()
                },
            },
    {
        let ghost olds = self.cf_lookup(records_cf@);
        let ghost rv = record.dv();
        let r = self.insert_cf(records_cf, id, record);
        match r {
            Ok(()) => {
                proof {
                    crate::table::lemma_sorted_insert_lookup(olds->Some_0, id@, rv, id@);
                }
                Ok(())
            },
            Err(e) => Err(e),
        }
    }

    /// The stored record under an id, cloned.
    pub fn read_record(&self, records_cf: &str, id: &str) -> (r: Option<Json>)
        requires
            self.wf(),
        ensures
            match r {
                Some(j) => obj_get_of_store(self, records_cf@, id@) == Some(j.dv()),
                None => obj_get_of_store(self, records_cf@, id@) is None,
            },
    {
        match self.get_cf(records_cf, id) {
            Ok(v) => Some(v.deep_clone()),
            Err(_) => None,
        }
    }
}

/// A stored document of a column family, when both exist.
pub open spec fn obj_get_of_store(store: &Store, cf: Seq<char>, key: Seq<char>) -> Option<JsonV> {
    match store.cf_lookup(cf) {
        Some(contents) => obj_get_v(contents, key),
        None => None,
    }
}

/// The records of a collection: those whose `collection` member is the
/// user-visible name.
pub open spec fn records_of_collection_v(rows: Seq<(Seq<char>, JsonV)>, user: Seq<char>) -> Seq<
    JsonV,
>
    decreases rows.len(),
{
    if rows.len() == 0 {
        Seq::empty()
    } else {
        (if member_is_str(rows[0].1, user) {
            seq![rows[0].1]
        } else {
            Seq::empty()
        }) + records_of_collection_v(rows.drop_first(), user)
    }
}

/// Whether a record's `collection` member is the given string.
pub open spec fn member_is_str(row: JsonV, user: Seq<char>) -> bool {
    match row {
        JsonV::Obj(fields) => obj_get_v(
            fields,
            seq!['c', 'o', 'l', 'l', 'e', 'c', 't', 'i', 'o', 'n'],
        ) == Some(JsonV::Str(user)),
        _ => false,
    }
}

proof fn lemma_records_concat(a: Seq<(Seq<char>, JsonV)>, b: Seq<(Seq<char>, JsonV)>, user: Seq<char>)
    ensures
        records_of_collection_v(a + b, user) == records_of_collection_v(a, user)
            + records_of_collection_v(b, user),
    decreases a.len(),
{
    if a.len() == 0 {
        assert(a + b =~= b);
        assert(records_of_collection_v(a, user) + records_of_collection_v(b, user)
            =~= records_of_collection_v(b, user));
    } else {
        lemma_records_concat(a.drop_first(), b, user);
        assert((a + b).drop_first() =~= a.drop_first() + b);
        assert((a + b)[0] == a[0]);
        if member_is_str(a[0].1, user) {
            assert(seq![a[0].1] + (records_of_collection_v(a.drop_first(), user)
                + records_of_collection_v(b, user)) =~= (seq![a[0].1] + records_of_collection_v(
                a.drop_first(),
                user,
            )) + records_of_collection_v(b, user));
        }
    }
}

/// The records whose `collection` member names the collection, in stored
/// order.
#[verifier::loop_isolation(false)]
pub fn filter_records(rows: Vec<(String, Json)>, user: &str) -> (r: Vec<Json>)
    ensures
        crate::json::dv_seq(r@) == records_of_collection_v(dv_fields(rows@), user@),
{
    proof {
        reveal_strlit("collection");
        assert(("collection")@ =~= seq!['c', 'o', 'l', 'l', 'e', 'c', 't', 'i', 'o', 'n']);
        crate::json::lemma_dv_fields_len(rows@);
    }
    let ghost dvs = dv_fields(rows@);
    let mut out: Vec<Json> = Vec::new();
    let mut i: usize = 0;
    proof {
        crate::json::lemma_dv_seq_len(out@);
        assert(dvs.take(0) =~= Seq::<(Seq<char>, JsonV)>::empty());
        assert(crate::json::dv_seq(out@) =~= Seq::<JsonV>::empty());
    }
    while i < rows.len()
        invariant
            i <= rows@.len(),
            crate::json::dv_seq(out@) == records_of_collection_v(dvs.take(i as int), user@),
        decreases rows@.len() - i,
    {
        let row = &rows[i];
        proof {
            assert(dvs[i as int] == (rows@[i as int].0@, rows@[i as int].1.dv()));
            assert(dvs.take(i + 1) =~= dvs.take(i as int) + seq![dvs[i as int]]);
            lemma_records_concat(dvs.take(i as int), seq![dvs[i as int]], user@);
            assert(seq![dvs[i as int]][0] == dvs[i as int]);
            assert(seq![dvs[i as int]].drop_first() =~= Seq::<(Seq<char>, JsonV)>::empty());
            assert(records_of_collection_v(Seq::<(Seq<char>, JsonV)>::empty(), user@) == Seq::<
                JsonV,
            >::empty());
            assert(records_of_collection_v(seq![dvs[i as int]], user@) == (if member_is_str(
                seq![dvs[i as int]][0].1,
                user@,
            ) {
                seq![seq![dvs[i as int]][0].1]
            } else {
                Seq::<JsonV>::empty()
            }) + records_of_collection_v(seq![dvs[i as int]].drop_first(), user@));
        }
        let keep = match row.1.get_field("collection") {
            Some(v) => match v {
                Json::Str(s) => crate::strutil::str_eq(s.as_str(), user),
                _ => false,
            },
            None => false,
        };
        if keep {
            let ghost preout = out@;
            out.push(row.1.deep_clone());
            proof {
                crate::json::lemma_dv_seq_len(preout);
                crate::json::lemma_dv_seq_len(out@);
                assert(preout.push(out@[out@.len() - 1]) =~= out@);
                assert(member_is_str(dvs[i as int].1, user@));
                assert(records_of_collection_v(seq![dvs[i as int]], user@) =~= seq![dvs[
                i as int].1]);
                assert forall|j: int|
                    0 <= j < out@.len() implies crate::json::dv_seq(out@)[j]
                    == records_of_collection_v(dvs.take(i + 1), user@)[j] by {
                    assert(crate::json::dv_seq(out@)[j] == out@[j].dv());
                    if j < preout.len() {
                        assert(out@[j] == preout[j]);
                        assert(crate::json::dv_seq(preout)[j] == preout[j].dv());
                    }
                }
                assert(crate::json::dv_seq(out@) =~= records_of_collection_v(
                    dvs.take(i + 1),
                    user@,
                ));
            }
        } else {
            proof {
                assert(!member_is_str(dvs[i as int].1, user@));
                assert(records_of_collection_v(seq![dvs[i as int]], user@) =~= Seq::<
                    JsonV,
                >::empty());
                assert(crate::json::dv_seq(out@) =~= records_of_collection_v(
                    dvs.take(i + 1),
                    user@,
                ));
            }
        }
        i = i + 1;
    }
    proof {
        assert(dvs.take(rows@.len() as int) =~= dvs);
    }
    out
}


/// The published path of a backup artifact: `/backups/{user}-{id}.sst`.
pub open spec fn backup_url_v(user: Seq<char>, id: Seq<char>) -> Seq<char> {
    seq!['/', 'b', 'a', 'c', 'k', 'u', 'p', 's', '/'] + user + seq!['-'] + id + seq![
        '.',
        's',
        's',
        't',
    ]
}

pub fn backup_url(user: &str, id: &str) -> (r: String)
    ensures
        r@ == backup_url_v(user@, id@),
{
    proof {
        reveal_strlit("/backups/");
        reveal_strlit("-");
        reveal_strlit(".sst");
    }
    let mut out = String::new();
    out.append("/backups/");
    out.append(user);
    out.append("-");
    out.append(id);
    out.append(".sst");
    proof {
        assert(("/backups/")@ =~= seq!['/', 'b', 'a', 'c', 'k', 'u', 'p', 's', '/']);
        assert(("-")@ =~= seq!['-']);
        assert((".sst")@ =~= seq!['.', 's', 's', 't']);
        assert(out@ =~= backup_url_v(user@, id@));
    }
    out
}

impl Store {
    /// Open a backup: the collection must exist; a fresh in-progress
    /// record lands in the global records and in the collection's own
    /// backups sibling; the id goes back to the client.
    pub fn start_backup(&mut self, user: &str, internal: &str, id: &str, started_at: &str) -> (r:
        crate::api::ApiResponse)
        requires
            old(self).wf(),
        ensures
            final(self).wf(),
            old(self).cf_lookup(internal@) is None ==> r.status == 404 && final(self).cfs_v()
                == old(self).cfs_v(),
            r.status == 200 || r.status == 404 || r.status == 500,
            old(self).cf_lookup(internal@) is Some && old(self).cf_lookup(
                seq!['b', 'a', 'c', 'k', 'u', 'p', 's'],
            ) is Some && old(self).cf_lookup(crate::api::backups_name_v(internal@)) is Some
                ==> r.status == 200,
            r.status == 200 ==> {
                &&& obj_get_of_store(
                    final(self),
                    seq!['b', 'a', 'c', 'k', 'u', 'p', 's'],
                    id@,
                ) == Some(
                    crate::records::backup_record_jv(
                        id@,
                        user@,
                        started_at@,
                        None,
                        crate::records::OperationStatus::InProgress,
                        None,
                        None,
                    ),
                )
                &&& obj_get_of_store(
                    final(self),
                    crate::api::backups_name_v(internal@),
                    id@,
                ) == Some(
                    crate::records::backup_record_jv(
                        id@,
                        user@,
                        started_at@,
                        None,
                        crate::records::OperationStatus::InProgress,
                        None,
                        None,
                    ),
                )
                &&& r.body.dv() == operation_body_v(
                    seq!['B', 'a', 'c', 'k', 'u', 'p', ' ', 's', 't', 'a', 'r', 't', 'e', 'd'],
                    id@,
                    user@,
                )
            },
    {
        proof {
            reveal_strlit("backups");
            reveal_strlit("Backup started");
            assert(("backups")@ =~= seq!['b', 'a', 'c', 'k', 'u', 'p', 's']);
            assert(("Backup started")@ =~= seq![
                'B',
                'a',
                'c',
                'k',
                'u',
                'p',
                ' ',
                's',
                't',
                'a',
                'r',
                't',
                'e',
                'd',
            ]);
        }
        if !self.cf_exists(internal) {
            return crate::api::ApiResponse { status: 404, body: Json::Null };
        }
        let mut id_string = String::new();
        id_string.append(id);
        let mut user_string = String::new();
        user_string.append(user);
        let mut started = String::new();
        started.append(started_at);
        proof {
            assert(id_string@ =~= id@);
            assert(user_string@ =~= user@);
            assert(started@ =~= started_at@);
        }
        let record = crate::records::BackupRecord::start(id_string, user_string, started);
        let doc = record.to_json();
        let doc_twin = doc.deep_clone();
        let sibling = crate::api::backups_name(internal);
        proof {
            assert(("backups")@.len() == 7);
            assert(crate::api::backups_name_v(internal@).len() == internal@.len() + 8);
            assert(("backups")@ != crate::api::backups_name_v(internal@));
        }
        match self.put_record("backups", id, doc) {
            Ok(()) => {},
            Err(_) => {
                return crate::api::ApiResponse {
                    status: 500,
                    body: crate::api::text_body("Failed to create backup record"),
                };
            },
        }
        proof {
            assert(obj_get_of_store(self, ("backups")@, id@) == Some(record.jv()));
        }
        match self.put_record(sibling.as_str(), id, doc_twin) {
            Ok(()) => {},
            Err(_) => {
                return crate::api::ApiResponse {
                    status: 500,
                    body: crate::api::text_body("Failed to create backup record"),
                };
            },
        }
        crate::api::ApiResponse {
            status: 200,
            body: operation_body("Backup started", id, user),
        }
    }

    /// Close a backup over the outcome of its work: the re-read record,
    /// stamped completed with its artifact's path or failed with the
    /// error, lands back in both record stores; a record that cannot be
    /// re-read is replaced by a synthesized failed one.
    pub fn finish_backup(
        &mut self,
        user: &str,
        internal: &str,
        id: &str,
        outcome: Result<String, String>,
        finished_at: &str,
    ) -> (r: Result<(), StoreError>)
        requires
            old(self).wf(),
        ensures
            final(self).wf(),
            old(self).cf_lookup(seq!['b', 'a', 'c', 'k', 'u', 'p', 's']) is Some && old(
                self,
            ).cf_lookup(crate::api::backups_name_v(internal@)) is Some ==> (r is Ok),
            r is Ok ==> {
                &&& obj_get_of_store(
                    final(self),
                    seq!['b', 'a', 'c', 'k', 'u', 'p', 's'],
                    id@,
                ) == Some(
                    finished_record_v(
                        obj_get_of_store(
                            old(self),
                            seq!['b', 'a', 'c', 'k', 'u', 'p', 's'],
                            id@,
                        ),
                        outcome is Ok,
                        match outcome {
                            Ok(u) => u@,
                            Err(e) => e@,
                        },
                        finished_at@,
                        id@,
                        user@,
                        true,
                    ),
                )
                &&& obj_get_of_store(
                    final(self),
                    crate::api::backups_name_v(internal@),
                    id@,
                ) == Some(
                    finished_record_v(
                        obj_get_of_store(
                            old(self),
                            seq!['b', 'a', 'c', 'k', 'u', 'p', 's'],
                            id@,
                        ),
                        outcome is Ok,
                        match outcome {
                            Ok(u) => u@,
                            Err(e) => e@,
                        },
                        finished_at@,
                        id@,
                        user@,
                        true,
                    ),
                )
            },
    {
        proof {
            reveal_strlit("backups");
            assert(("backups")@ =~= seq!['b', 'a', 'c', 'k', 'u', 'p', 's']);
            assert(("backups")@.len() == 7);
            assert(crate::api::backups_name_v(internal@).len() == internal@.len() + 8);
            assert(("backups")@ != crate::api::backups_name_v(internal@));
        }
        let old_row = self.read_record("backups", id);
        let updated = finished_record(old_row.as_ref(), &outcome, finished_at, id, user, true);
        let updated_twin = updated.deep_clone();
        let sibling = crate::api::backups_name(internal);
        match self.put_record("backups", id, updated) {
            Ok(()) => {},
            Err(e) => {
                return Err(e);
            },
        }
        match self.put_record(sibling.as_str(), id, updated_twin) {
            Ok(()) => {},
            Err(e) => {
                return Err(e);
            },
        }
        Ok(())
    }

    /// Close a restore over the outcome of its work, in the single
    /// restores record store.
    pub fn finish_restore(
        &mut self,
        user: &str,
        id: &str,
        outcome: Result<String, String>,
        finished_at: &str,
    ) -> (r: Result<(), StoreError>)
        requires
            old(self).wf(),
        ensures
            final(self).wf(),
            old(self).cf_lookup(seq!['r', 'e', 's', 't', 'o', 'r', 'e', 's']) is Some ==> (r
                is Ok),
            r is Ok ==> obj_get_of_store(
                final(self),
                seq!['r', 'e', 's', 't', 'o', 'r', 'e', 's'],
                id@,
            ) == Some(
                finished_record_v(
                    obj_get_of_store(
                        old(self),
                        seq!['r', 'e', 's', 't', 'o', 'r', 'e', 's'],
                        id@,
                    ),
                    outcome is Ok,
                    match outcome {
                        Ok(u) => u@,
                        Err(e) => e@,
                    },
                    finished_at@,
                    id@,
                    user@,
                    false,
                ),
            ),
    {
        proof {
            reveal_strlit("restores");
            assert(("restores")@ =~= seq!['r', 'e', 's', 't', 'o', 'r', 'e', 's']);
        }
        let old_row = self.read_record("restores", id);
        let updated = finished_record(old_row.as_ref(), &outcome, finished_at, id, user, false);
        match self.put_record("restores", id, updated) {
            Ok(()) => Ok(()),
            Err(e) => Err(e),
        }
    }
}


/// Whether a stored backup row admits a restore: completed, naming a
/// file.
pub open spec fn backup_row_ready(row: JsonV) -> bool {
    &&& crate::records::obj_get_of(row, seq!['s', 't', 'a', 't', 'u', 's']) == Some(
        JsonV::Str(crate::records::OperationStatus::Completed.label()),
    )
    &&& crate::records::obj_get_of(row, seq!['u', 'r', 'l']) matches Some(JsonV::Str(_))
}

/// Whether a restore request can proceed: the collection and the restores
/// records exist, a backup is named, and its row admits a restore.
pub open spec fn restore_ready(
    store: &Store,
    internal: Seq<char>,
    backup_id: Option<Seq<char>>,
) -> bool {
    &&& store.cf_lookup(internal) is Some
    &&& store.cf_lookup(seq!['r', 'e', 's', 't', 'o', 'r', 'e', 's']) is Some
    &&& match backup_id {
        Some(b) => match obj_get_of_store(store, seq!['b', 'a', 'c', 'k', 'u', 'p', 's'], b) {
            Some(row) => backup_row_ready(row),
            None => false,
        },
        None => false,
    }
}

/// What opening a restore found.
pub enum RestorePrep {
    Refused(crate::api::ApiResponse),
    Pending { path: String },
}

impl Store {
    /// Open a restore: the collection must exist, the request must name a
    /// backup, and the named backup record must be completed and carry a
    /// file. A fresh in-progress restore record is stored; any rejection
    /// after that point stamps it failed. On success the artifact's disk
    /// path comes back for the caller to check and ingest.
    pub fn prepare_restore(
        &mut self,
        user: &str,
        internal: &str,
        restore_id: &str,
        backup_id: Option<&str>,
        started_at: &str,
    ) -> (r: RestorePrep)
        requires
            old(self).wf(),
        ensures
            final(self).wf(),
            old(self).cf_lookup(internal@) is None ==> (r matches RestorePrep::Refused(resp)
                && resp.status == 404),
            old(self).cf_lookup(internal@) is Some && backup_id is None ==> (r matches
                RestorePrep::Refused(resp) && resp.status == 400),
            restore_ready(
                old(self),
                internal@,
                match backup_id {
                    Some(b) => Some(b@),
                    None => None,
                },
            ) ==> (r is Pending),
            r matches RestorePrep::Pending { path } ==> {
                &&& backup_id matches Some(b)
                &&& (obj_get_of_store(
                    old(self),
                    seq!['b', 'a', 'c', 'k', 'u', 'p', 's'],
                    (match backup_id {
                        Some(b) => b@,
                        None => Seq::empty(),
                    }),
                ) matches Some(row) && backup_row_ready(row) && (crate::records::obj_get_of(
                    row,
                    seq!['u', 'r', 'l'],
                ) matches Some(JsonV::Str(u)) && path@ == seq!['.'] + u))
                &&& obj_get_of_store(
                    final(self),
                    seq!['r', 'e', 's', 't', 'o', 'r', 'e', 's'],
                    restore_id@,
                ) == Some(
                    crate::records::restore_record_jv(
                        restore_id@,
                        user@,
                        started_at@,
                        None,
                        crate::records::OperationStatus::InProgress,
                        None,
                    ),
                )
            },
    {
        proof {
            reveal_strlit("restores");
            reveal_strlit("backups");
            reveal_strlit("status");
            reveal_strlit("url");
            reveal_strlit(".");
            assert(("restores")@ =~= seq!['r', 'e', 's', 't', 'o', 'r', 'e', 's']);
            assert(("backups")@ =~= seq!['b', 'a', 'c', 'k', 'u', 'p', 's']);
            assert(("status")@ =~= seq!['s', 't', 'a', 't', 'u', 's']);
            assert(("url")@ =~= seq!['u', 'r', 'l']);
        }
        if !self.cf_exists(internal) {
            return RestorePrep::Refused(
                crate::api::ApiResponse { status: 404, body: Json::Null },
            );
        }
        let backup_id = match backup_id {
            Some(b) => b,
            None => {
                return RestorePrep::Refused(
                    crate::api::ApiResponse {
                        status: 400,
                        body: crate::api::text_body("backup_id parameter is required"),
                    },
                );
            },
        };
        let mut id_string = String::new();
        id_string.append(restore_id);
        let mut user_string = String::new();
        user_string.append(user);
        let mut started = String::new();
        started.append(started_at);
        proof {
            assert(id_string@ =~= restore_id@);
            assert(user_string@ =~= user@);
            assert(started@ =~= started_at@);
        }
        let record = crate::records::BackupRecord::start(id_string, user_string, started);
        let doc = record.to_restore_json();
        match self.put_record("restores", restore_id, doc) {
            Ok(()) => {},
            Err(_) => {
                return RestorePrep::Refused(
                    crate::api::ApiResponse {
                        status: 500,
                        body: crate::api::text_body("Failed to create restore record"),
                    },
                );
            },
        }
        let backup_row = match self.read_record("backups", backup_id) {
            Some(row) => row,
            None => {
                let mut fin = String::new();
                fin.append(started_at);
                let mut rid2 = String::new();
                rid2.append(restore_id);
                let mut user2 = String::new();
                user2.append(user);
                let mut started2 = String::new();
                started2.append(started_at);
                let failed = crate::records::BackupRecord::start(rid2, user2, started2).finish(
                    Err(String::from_str("Backup not found")),
                    fin,
                );
                let failed_doc = failed.to_restore_json();
                let _stored = self.put_record("restores", restore_id, failed_doc);
                return RestorePrep::Refused(
                    crate::api::ApiResponse {
                        status: 400,
                        body: crate::api::text_body("Backup not found"),
                    },
                );
            },
        };
        match crate::records::validate_restore(&backup_row, true) {
            crate::records::RestoreCheck::Ready => {
                let url = match backup_row.get_field("url") {
                    Some(v) => match v {
                        Json::Str(u) => u,
                        _ => {
                            return RestorePrep::Refused(
                                crate::api::ApiResponse {
                                    status: 400,
                                    body: crate::api::text_body("No file path found"),
                                },
                            );
                        },
                    },
                    None => {
                        return RestorePrep::Refused(
                            crate::api::ApiResponse {
                                status: 400,
                                body: crate::api::text_body("No file path found"),
                            },
                        );
                    },
                };
                let mut path = String::new();
                path.append(".");
                path.append(url.as_str());
                proof {
                    assert((".")@ =~= seq!['.']);
                    assert(path@ =~= seq!['.'] + url@);
                }
                RestorePrep::Pending { path }
            },
            _ => {
                let mut fin = String::new();
                fin.append(started_at);
                let mut rid2 = String::new();
                rid2.append(restore_id);
                let mut user2 = String::new();
                user2.append(user);
                let mut started2 = String::new();
                started2.append(started_at);
                let failed = crate::records::BackupRecord::start(rid2, user2, started2).finish(
                    Err(String::from_str("Backup is not in a completed state")),
                    fin,
                );
                let failed_doc = failed.to_restore_json();
                let _stored = self.put_record("restores", restore_id, failed_doc);
                RestorePrep::Refused(
                    crate::api::ApiResponse {
                        status: 400,
                        body: crate::api::text_body("Backup is not in a completed state"),
                    },
                )
            },
        }
    }
}


impl Store {
    /// A store with the bookkeeping column families every node starts
    /// with: secrets, backups, restores.
    pub fn init() -> (r: Store)
        ensures
            r.wf(),
            r.cf_lookup(seq!['s', 'e', 'c', 'r', 'e', 't', 's']) is Some,
            r.cf_lookup(seq!['b', 'a', 'c', 'k', 'u', 'p', 's']) is Some,
            r.cf_lookup(seq!['r', 'e', 's', 't', 'o', 'r', 'e', 's']) is Some,
    {
        proof {
            reveal_strlit("secrets");
            reveal_strlit("backups");
            reveal_strlit("restores");
            assert(("secrets")@ =~= seq!['s', 'e', 'c', 'r', 'e', 't', 's']);
            assert(("backups")@ =~= seq!['b', 'a', 'c', 'k', 'u', 'p', 's']);
            assert(("restores")@ =~= seq!['r', 'e', 's', 't', 'o', 'r', 'e', 's']);
        }
        let mut store = Store::new();
        let r1 = store.create_cf("secrets");
        let r2 = store.create_cf("backups");
        let r3 = store.create_cf("restores");
        proof {
            assert(("secrets")@.len() == 7);
            assert(("backups")@.len() == 7);
            assert(("restores")@.len() == 8);
            assert(("secrets")@[0] == 's' && ("backups")@[0] == 'b');
            assert(("secrets")@ != ("backups")@);
            assert(("secrets")@ != ("restores")@);
            assert(("backups")@ != ("restores")@);
            assert(r1 is Ok && r2 is Ok && r3 is Ok);
        }
        store
    }

    /// The stored record of an operation: its JSON as it stands, or 404.
    pub fn record_status(&self, records_cf: &str, id: &str) -> (r: crate::api::ApiResponse)
        requires
            self.wf(),
        ensures
            match obj_get_of_store(self, records_cf@, id@) {
                Some(row) => r.status == 200 && r.body.dv() == row,
                None => r.status == 404,
            },
    {
        match self.get_cf(records_cf, id) {
            Ok(row) => crate::api::ApiResponse { status: 200, body: row.deep_clone() },
            Err(_) => crate::api::ApiResponse { status: 404, body: Json::Null },
        }
    }

    /// The records of one collection, from a records column family: those
    /// whose `collection` member names it, in stored order. 404 when the
    /// collection itself does not exist.
    pub fn list_operation_records(&self, records_cf: &str, internal: &str, user: &str) -> (r:
        crate::api::ApiResponse)
        requires
            self.wf(),
        ensures
            self.cf_lookup(internal@) is None ==> r.status == 404,
            self.cf_lookup(internal@) is Some && self.cf_lookup(records_cf@) is Some ==> {
                &&& r.status == 200
                &&& r.body.dv() == JsonV::Arr(
                    records_of_collection_v(self.cf_lookup(records_cf@)->Some_0, user@),
                )
            },
            self.cf_lookup(internal@) is Some && self.cf_lookup(records_cf@) is None ==> r.status
                == 500,
    {
        if !self.cf_exists(internal) {
            return crate::api::ApiResponse { status: 404, body: Json::Null };
        }
        match self.export_cf(records_cf) {
            Ok(rows) => {
                let kept = filter_records(rows, user);
                crate::api::ApiResponse { status: 200, body: Json::Arr(kept) }
            },
            Err(_) => crate::api::ApiResponse {
                status: 500,
                body: crate::api::text_body("Records are unavailable"),
            },
        }
    }

    /// Record an uploaded backup artifact: an in-progress record lands in
    /// the global records and, creating it on demand, in the collection's
    /// backups sibling; with the file received the record completes with
    /// the artifact's path (201), without one it fails (400).
    pub fn upload_backup(
        &mut self,
        user: &str,
        internal: &str,
        id: &str,
        now: &str,
        file_found: bool,
    ) -> (r: crate::api::ApiResponse)
        requires
            old(self).wf(),
        ensures
            final(self).wf(),
            old(self).cf_lookup(internal@) is None ==> r.status == 404 && final(self).cfs_v()
                == old(self).cfs_v(),
            old(self).cf_lookup(internal@) is Some && old(self).cf_lookup(
                seq!['b', 'a', 'c', 'k', 'u', 'p', 's'],
            ) is Some ==> r.status == (if file_found {
                201int
            } else {
                400int
            }),
            r.status == 201 ==> file_found && obj_get_of_store(
                final(self),
                seq!['b', 'a', 'c', 'k', 'u', 'p', 's'],
                id@,
            ) == Some(
                crate::records::backup_record_jv(
                    id@,
                    user@,
                    now@,
                    Some(now@),
                    crate::records::OperationStatus::Completed,
                    Some(backup_url_v(user@, id@)),
                    None,
                ),
            ) && r.body.dv() == operation_body_v(
                seq!['B', 'a', 'c', 'k', 'u', 'p', ' ', 'u', 'p', 'l', 'o', 'a', 'd', 'e', 'd'],
                id@,
                user@,
            ),
            r.status == 400 ==> !file_found && obj_get_of_store(
                final(self),
                seq!['b', 'a', 'c', 'k', 'u', 'p', 's'],
                id@,
            ) == Some(
                crate::records::backup_record_jv(
                    id@,
                    user@,
                    now@,
                    Some(now@),
                    crate::records::OperationStatus::Failed,
                    None,
                    Some(seq!['N', 'o', ' ', 'f', 'i', 'l', 'e', ' ', 'r', 'e', 'c', 'e', 'i', 'v', 'e', 'd']),
                ),
            ),
            r.status == 201 || r.status == 400 || r.status == 404 || r.status == 500,
    {
        proof {
            reveal_strlit("backups");
            reveal_strlit("Backup uploaded");
            reveal_strlit("No file received");
            assert(("backups")@ =~= seq!['b', 'a', 'c', 'k', 'u', 'p', 's']);
            assert(("Backup uploaded")@ =~= seq![
                'B',
                'a',
                'c',
                'k',
                'u',
                'p',
                ' ',
                'u',
                'p',
                'l',
                'o',
                'a',
                'd',
                'e',
                'd',
            ]);
            assert(("No file received")@ =~= seq![
                'N',
                'o',
                ' ',
                'f',
                'i',
                'l',
                'e',
                ' ',
                'r',
                'e',
                'c',
                'e',
                'i',
                'v',
                'e',
                'd',
            ]);
            assert(("backups")@.len() == 7);
            assert(crate::api::backups_name_v(internal@).len() == internal@.len() + 8);
            assert(("backups")@ != crate::api::backups_name_v(internal@));
        }
        if !self.cf_exists(internal) {
            return crate::api::ApiResponse { status: 404, body: Json::Null };
        }
        let sibling = crate::api::backups_name(internal);
        if !self.cf_exists(sibling.as_str()) {
            let created = self.create_cf(sibling.as_str());
            proof {
                assert(created is Ok);
            }
        }
        let mut id_string = String::new();
        id_string.append(id);
        let mut user_string = String::new();
        user_string.append(user);
        let mut started = String::new();
        started.append(now);
        proof {
            assert(id_string@ =~= id@);
            assert(user_string@ =~= user@);
            assert(started@ =~= now@);
        }
        let record = crate::records::BackupRecord::start(id_string, user_string, started);
        let mut fin = String::new();
        fin.append(now);
        proof {
            assert(fin@ =~= now@);
        }
        let outcome: Result<String, String> = if file_found {
            Ok(backup_url(user, id))
        } else {
            Err(String::from_str("No file received"))
        };
        let closed = record.finish(outcome, fin);
        let doc = closed.to_json();
        let doc_twin = doc.deep_clone();
        match self.put_record("backups", id, doc) {
            Ok(()) => {},
            Err(_) => {
                return crate::api::ApiResponse {
                    status: 500,
                    body: crate::api::text_body("Failed to store backup record"),
                };
            },
        }
        match self.put_record(sibling.as_str(), id, doc_twin) {
            Ok(()) => {},
            Err(_) => {
                return crate::api::ApiResponse {
                    status: 500,
                    body: crate::api::text_body("Failed to store backup record"),
                };
            },
        }
        if file_found {
            crate::api::ApiResponse {
                status: 201,
                body: operation_body("Backup uploaded", id, user),
            }
        } else {
            crate::api::ApiResponse {
                status: 400,
                body: crate::api::text_body("No file received"),
            }
        }
    }
}


impl Store {
    /// The stored record of a backup, by id.
    pub fn backup_status(&self, id: &str) -> (r: crate::api::ApiResponse)
        requires
            self.wf(),
        ensures
            match obj_get_of_store(self, seq!['b', 'a', 'c', 'k', 'u', 'p', 's'], id@) {
                Some(row) => r.status == 200 && r.body.dv() == row,
                None => r.status == 404,
            },
    {
        proof {
            reveal_strlit("backups");
            assert(("backups")@ =~= seq!['b', 'a', 'c', 'k', 'u', 'p', 's']);
        }
        self.record_status("backups", id)
    }

    /// The stored record of a restore, by id.
    pub fn restore_status(&self, id: &str) -> (r: crate::api::ApiResponse)
        requires
            self.wf(),
        ensures
            match obj_get_of_store(self, seq!['r', 'e', 's', 't', 'o', 'r', 'e', 's'], id@) {
                Some(row) => r.status == 200 && r.body.dv() == row,
                None => r.status == 404,
            },
    {
        proof {
            reveal_strlit("restores");
            assert(("restores")@ =~= seq!['r', 'e', 's', 't', 'o', 'r', 'e', 's']);
        }
        self.record_status("restores", id)
    }

    /// The backups of one collection, by its user-visible name.
    pub fn list_backups(&self, internal: &str, user: &str) -> (r: crate::api::ApiResponse)
        requires
            self.wf(),
        ensures
            self.cf_lookup(internal@) is None ==> r.status == 404,
            self.cf_lookup(internal@) is Some && self.cf_lookup(
                seq!['b', 'a', 'c', 'k', 'u', 'p', 's'],
            ) is Some ==> r.status == 200 && r.body.dv() == JsonV::Arr(
                records_of_collection_v(
                    self.cf_lookup(seq!['b', 'a', 'c', 'k', 'u', 'p', 's'])->Some_0,
                    user@,
                ),
            ),
    {
        proof {
            reveal_strlit("backups");
            assert(("backups")@ =~= seq!['b', 'a', 'c', 'k', 'u', 'p', 's']);
        }
        self.list_operation_records("backups", internal, user)
    }

    /// The restores of one collection, by its user-visible name.
    pub fn list_restores(&self, internal: &str, user: &str) -> (r: crate::api::ApiResponse)
        requires
            self.wf(),
        ensures
            self.cf_lookup(internal@) is None ==> r.status == 404,
            self.cf_lookup(internal@) is Some && self.cf_lookup(
                seq!['r', 'e', 's', 't', 'o', 'r', 'e', 's'],
            ) is Some ==> r.status == 200 && r.body.dv() == JsonV::Arr(
                records_of_collection_v(
                    self.cf_lookup(seq!['r', 'e', 's', 't', 'o', 'r', 'e', 's'])->Some_0,
                    user@,
                ),
            ),
    {
        proof {
            reveal_strlit("restores");
            assert(("restores")@ =~= seq!['r', 'e', 's', 't', 'o', 'r', 'e', 's']);
        }
        self.list_operation_records("restores", internal, user)
    }
}

} // verus!
