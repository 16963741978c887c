//! Backup and restore records and their state machine: a record starts in
//! progress and ends completed or failed, exactly once.

use vstd::prelude::*;
use vstd::string::StringExecFns;
use crate::json::{Json, JsonV, dv_fields, lemma_dv_fields_len, obj_get_v};

verus! {

/// Where an operation stands.
#[derive(Clone, Copy, PartialEq, Eq, Structural, Debug)]
pub enum OperationStatus {
    InProgress,
    Completed,
    Failed,
}

impl OperationStatus {
    /// The tag under which the status travels in record JSON.
    pub open spec fn label(self) -> Seq<char> {
        match self {
            OperationStatus::InProgress => seq![
                'i',
                'n',
                '_',
                'p',
                'r',
                'o',
                'g',
                'r',
                'e',
                's',
                's',
            ],
            OperationStatus::Completed => seq!['c', 'o', 'm', 'p', 'l', 'e', 't', 'e', 'd'],
            OperationStatus::Failed => seq!['f', 'a', 'i', 'l', 'e', 'd'],
        }
    }

    pub fn name(&self) -> (r: String)
        ensures
            r@ == self.label(),
    {
        proof {
            reveal_strlit("in_progress");
            reveal_strlit("completed");
            reveal_strlit("failed");
        }
        match self {
            OperationStatus::InProgress => {
                let r = String::from_str("in_progress");
                proof {
                    assert(r@ =~= self.label());
                }
                r
            },
            OperationStatus::Completed => {
                let r = String::from_str("completed");
                proof {
                    assert(r@ =~= self.label());
                }
                r
            },
            OperationStatus::Failed => {
                let r = String::from_str("failed");
                proof {
                    assert(r@ =~= self.label());
                }
                r
            },
        }
    }
}

/// A backup record; a restore record is the same shape without a file.
pub struct BackupRecord {
    pub id: String,
    pub collection: String,
    pub started_at: String,
    pub finished_at: Option<String>,
    pub status: OperationStatus,
    pub url: Option<String>,
    pub error: Option<String>,
}

/// The JSON member for an optional string: the string, or null.
pub open spec fn opt_str_v(o: Option<Seq<char>>) -> JsonV {
    match o {
        Some(s) => JsonV::Str(s),
        None => JsonV::Null,
    }
}

/// The view of an optional string field.
pub open spec fn opt_view(o: Option<String>) -> Option<Seq<char>> {
    match o {
        Some(s) => Some(s@),
        None => None,
    }
}

/// The JSON shape of a backup record.
pub open spec fn backup_record_jv(
    id: Seq<char>,
    collection: Seq<char>,
    started_at: Seq<char>,
    finished_at: Option<Seq<char>>,
    status: OperationStatus,
    url: Option<Seq<char>>,
    error: Option<Seq<char>>,
) -> JsonV {
    JsonV::Obj(
        seq![
            (seq!['i', 'd'], JsonV::Str(id)),
            (seq!['c', 'o', 'l', 'l', 'e', 'c', 't', 'i', 'o', 'n'], JsonV::Str(collection)),
            (seq!['s', 't', 'a', 'r', 't', 'e', 'd', '_', 'a', 't'], JsonV::Str(started_at)),
            (seq!['f', 'i', 'n', 'i', 's', 'h', 'e', 'd', '_', 'a', 't'], opt_str_v(finished_at)),
            (seq!['s', 't', 'a', 't', 'u', 's'], JsonV::Str(status.label())),
            (seq!['u', 'r', 'l'], opt_str_v(url)),
            (seq!['e', 'r', 'r', 'o', 'r'], opt_str_v(error)),
        ],
    )
}

impl BackupRecord {
    /// This record's JSON shape.
    pub open spec fn jv(&self) -> JsonV {
        backup_record_jv(
            self.id@,
            self.collection@,
            self.started_at@,
            opt_view(self.finished_at),
            self.status,
            opt_view(self.url),
            opt_view(self.error),
        )
    }

    /// A fresh record: in progress, nothing finished, no file, no error.
    pub fn start(id: String, collection: String, started_at: String) -> (r: BackupRecord)
        ensures
            r.id@ == id@,
            r.collection@ == collection@,
            r.started_at@ == started_at@,
            r.finished_at is None,
            r.status == OperationStatus::InProgress,
            r.url is None,
            r.error is None,
    {
        BackupRecord {
            id,
            collection,
            started_at,
            finished_at: None,
            status: OperationStatus::InProgress,
            url: None,
            error: None,
        }
    }

    /// Close the record over the outcome of the work: success carries the
    /// artifact's path and completes it, failure carries the error and
    /// fails it. The record moves out of `InProgress` exactly here.
    pub fn finish(self, outcome: Result<String, String>, finished_at: String) -> (r: BackupRecord)
        requires
            self.status == OperationStatus::InProgress,
        ensures
            r.id@ == self.id@,
            r.collection@ == self.collection@,
            r.started_at@ == self.started_at@,
            r.finished_at == Some(finished_at),
            match outcome {
                Ok(url) => {
                    &&& r.status == OperationStatus::Completed
                    &&& r.url == Some(url)
                    &&& r.error == self.error
                },
                Err(e) => {
                    &&& r.status == OperationStatus::Failed
                    &&& r.error == Some(e)
                    &&& r.url == self.url
                },
            },
    {
        match outcome {
            Ok(url) => BackupRecord {
                finished_at: Some(finished_at),
                status: OperationStatus::Completed,
                url: Some(url),
                ..self
            },
            Err(e) => BackupRecord {
                finished_at: Some(finished_at),
                status: OperationStatus::Failed,
                error: Some(e),
                ..self
            },
        }
    }

    /// This record as a JSON document.
    pub fn to_json(&self) -> (r: Json)
        ensures
            r.dv() == self.jv(),
    {
        proof {
            reveal_strlit("id");
            reveal_strlit("collection");
            reveal_strlit("started_at");
            reveal_strlit("finished_at");
            reveal_strlit("status");
            reveal_strlit("url");
            reveal_strlit("error");
        }
        let mut fields: Vec<(String, Json)> = Vec::new();
        fields.push((String::from_str("id"), Json::Str(self.id.clone())));
        fields.push((String::from_str("collection"), Json::Str(self.collection.clone())));
        fields.push((String::from_str("started_at"), Json::Str(self.started_at.clone())));
        fields.push((String::from_str("finished_at"), opt_str_json(&self.finished_at)));
        fields.push((String::from_str("status"), Json::Str(self.status.name())));
        fields.push((String::from_str("url"), opt_str_json(&self.url)));
        fields.push((String::from_str("error"), opt_str_json(&self.error)));
        proof {
            lemma_dv_fields_len(fields@);
            assert(("id")@ =~= seq!['i', 'd']);
            assert(("collection")@ =~= seq!['c', 'o', 'l', 'l', 'e', 'c', 't', 'i', 'o', 'n']);
            assert(("started_at")@ =~= seq!['s', 't', 'a', 'r', 't', 'e', 'd', '_', 'a', 't']);
            assert(("finished_at")@ =~= seq![
                'f',
                'i',
                'n',
                'i',
                's',
                'h',
                'e',
                'd',
                '_',
                'a',
                't',
            ]);
            assert(("status")@ =~= seq!['s', 't', 'a', 't', 'u', 's']);
            assert(("url")@ =~= seq!['u', 'r', 'l']);
            assert(("error")@ =~= seq!['e', 'r', 'r', 'o', 'r']);
            assert(fields@.len() == 7);
            assert forall|j: int| 0 <= j < 7 implies dv_fields(fields@)[j] == (self.jv()->Obj_0)[j]
            by {
                assert(dv_fields(fields@)[j] == (fields@[j].0@, fields@[j].1.dv()));
            }
            assert(dv_fields(fields@) =~= self.jv()->Obj_0);
        }
        Json::Obj(fields)
    }
}

/// The JSON of an optional string: the string, or null.
fn opt_str_json(o: &Option<String>) -> (r: Json)
    ensures
        r.dv() == opt_str_v(opt_view(*o)),
{
    match o {
        Some(s) => Json::Str(s.clone()),
        None => Json::Null,
    }
}

/// Why a restore request is refused, or the file it may proceed with.
pub enum RestoreCheck {
    Ready,
    NotCompleted,
    NoUrl,
    FileMissing,
}

/// Whether a stored backup record admits a restore: it must be completed,
/// it must name a file, and the file must be present on disk (the caller
/// reports that). The record is taken as it was stored, a JSON document.
pub fn validate_restore(backup: &Json, file_exists: bool) -> (r: RestoreCheck)
    ensures
        match r {
            RestoreCheck::NotCompleted => !(obj_get_of(backup.dv(), seq![
                's',
                't',
                'a',
                't',
                'u',
                's',
            ]) == Some(JsonV::Str(OperationStatus::Completed.label()))),
            RestoreCheck::NoUrl => {
                &&& obj_get_of(backup.dv(), seq!['s', 't', 'a', 't', 'u', 's']) == Some(
                    JsonV::Str(OperationStatus::Completed.label()),
                )
                &&& !(obj_get_of(backup.dv(), seq!['u', 'r', 'l']) matches Some(JsonV::Str(_)))
            },
            RestoreCheck::FileMissing => {
                &&& obj_get_of(backup.dv(), seq!['s', 't', 'a', 't', 'u', 's']) == Some(
                    JsonV::Str(OperationStatus::Completed.label()),
                )
                &&& obj_get_of(backup.dv(), seq!['u', 'r', 'l']) matches Some(JsonV::Str(_))
                &&& !file_exists
            },
            RestoreCheck::Ready => {
                &&& obj_get_of(backup.dv(), seq!['s', 't', 'a', 't', 'u', 's']) == Some(
                    JsonV::Str(OperationStatus::Completed.label()),
                )
                &&& obj_get_of(backup.dv(), seq!['u', 'r', 'l']) matches Some(JsonV::Str(_))
                &&& file_exists
            },
        },
{
    proof {
        reveal_strlit("status");
        reveal_strlit("url");
        reveal_strlit("completed");
        assert(("status")@ =~= seq!['s', 't', 'a', 't', 'u', 's']);
        assert(("url")@ =~= seq!['u', 'r', 'l']);
        assert(("completed")@ =~= OperationStatus::Completed.label());
    }
    let status_ok = match backup.get_field("status") {
        Some(v) => match v {
            Json::Str(s) => crate::strutil::str_eq(s.as_str(), "completed"),
            _ => false,
        },
        None => false,
    };
    if !status_ok {
        return RestoreCheck::NotCompleted;
    }
    let url_ok = match backup.get_field("url") {
        Some(v) => match v {
            Json::Str(_) => true,
            _ => false,
        },
        None => false,
    };
    if !url_ok {
        return RestoreCheck::NoUrl;
    }
    if !file_exists {
        return RestoreCheck::FileMissing;
    }
    RestoreCheck::Ready
}

/// A member of an object document, or nothing for any other shape.
pub open spec fn obj_get_of(v: JsonV, name: Seq<char>) -> Option<JsonV> {
    match v {
        JsonV::Obj(fields) => obj_get_v(fields, name),
        _ => None,
    }
}


/// The JSON shape of a restore record: a backup record without a file.
pub open spec fn restore_record_jv(
    id: Seq<char>,
    collection: Seq<char>,
    started_at: Seq<char>,
    finished_at: Option<Seq<char>>,
    status: OperationStatus,
    error: Option<Seq<char>>,
) -> JsonV {
    JsonV::Obj(
        seq![
            (seq!['i', 'd'], JsonV::Str(id)),
            (seq!['c', 'o', 'l', 'l', 'e', 'c', 't', 'i', 'o', 'n'], JsonV::Str(collection)),
            (seq!['s', 't', 'a', 'r', 't', 'e', 'd', '_', 'a', 't'], JsonV::Str(started_at)),
            (seq!['f', 'i', 'n', 'i', 's', 'h', 'e', 'd', '_', 'a', 't'], opt_str_v(finished_at)),
            (seq!['s', 't', 'a', 't', 'u', 's'], JsonV::Str(status.label())),
            (seq!['e', 'r', 'r', 'o', 'r'], opt_str_v(error)),
        ],
    )
}

impl BackupRecord {
    /// This record as restore-shaped JSON: the same members minus the
    /// file.
    pub fn to_restore_json(&self) -> (r: Json)
        ensures
            r.dv() == restore_record_jv(
                self.id@,
                self.collection@,
                self.started_at@,
                opt_view(self.finished_at),
                self.status,
                opt_view(self.error),
            ),
    {
        proof {
            reveal_strlit("id");
            reveal_strlit("collection");
            reveal_strlit("started_at");
            reveal_strlit("finished_at");
            reveal_strlit("status");
            reveal_strlit("error");
        }
        let mut fields: Vec<(String, Json)> = Vec::new();
        fields.push((String::from_str("id"), Json::Str(self.id.clone())));
        fields.push((String::from_str("collection"), Json::Str(self.collection.clone())));
        fields.push((String::from_str("started_at"), Json::Str(self.started_at.clone())));
        fields.push((String::from_str("finished_at"), opt_str_json(&self.finished_at)));
        fields.push((String::from_str("status"), Json::Str(self.status.name())));
        fields.push((String::from_str("error"), opt_str_json(&self.error)));
        proof {
            lemma_dv_fields_len(fields@);
            assert(("id")@ =~= seq!['i', 'd']);
            assert(("collection")@ =~= seq!['c', 'o', 'l', 'l', 'e', 'c', 't', 'i', 'o', 'n']);
            assert(("started_at")@ =~= seq!['s', 't', 'a', 'r', 't', 'e', 'd', '_', 'a', 't']);
            assert(("finished_at")@ =~= seq![
                'f',
                'i',
                'n',
                'i',
                's',
                'h',
                'e',
                'd',
                '_',
                'a',
                't',
            ]);
            assert(("status")@ =~= seq!['s', 't', 'a', 't', 'u', 's']);
            assert(("error")@ =~= seq!['e', 'r', 'r', 'o', 'r']);
            assert(fields@.len() == 6);
            let expected = restore_record_jv(
                self.id@,
                self.collection@,
                self.started_at@,
                opt_view(self.finished_at),
                self.status,
                opt_view(self.error),
            );
            assert forall|j: int| 0 <= j < 6 implies dv_fields(fields@)[j] == (expected->Obj_0)[j]
            by {
                assert(dv_fields(fields@)[j] == (fields@[j].0@, fields@[j].1.dv()));
            }
            assert(dv_fields(fields@) =~= expected->Obj_0);
        }
        Json::Obj(fields)
    }
}


/// The acknowledgement of a started operation: what the response body
/// carries.
pub struct OperationResponse {
    pub message: String,
    pub id: String,
    pub collection: String,
}

/// The query-string parameter naming the backup a restore starts from.
pub struct RestoreParams {
    pub backup_id: Option<String>,
}

/// The query-string parameter naming the record a status request reads.
pub struct OperationStatusRequest {
    pub id: String,
}

} // verus!
