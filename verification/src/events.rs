//! Mutation events and the server-sent-event frames that carry them.

use vstd::prelude::*;
use vstd::string::StringExecFns;
use crate::json::{Json, JsonV, dv_fields, lemma_dv_fields_len, obj_get_v, obj_set_v};
use crate::jsontext::{json_text, json_to_string};
use crate::idgen::now_unix_ms;

verus! {

/// What a mutation did.
#[derive(Clone, Copy, PartialEq, Eq, Structural, Debug)]
pub enum Operation {
    Create,
    Update,
    Delete,
}

impl Operation {
    /// The tag under which the operation travels in event JSON.
    pub open spec fn label(self) -> Seq<char> {
        match self {
            Operation::Create => seq!['c', 'r', 'e', 'a', 't', 'e'],
            Operation::Update => seq!['u', 'p', 'd', 'a', 't', 'e'],
            Operation::Delete => seq!['d', 'e', 'l', 'e', 't', 'e'],
        }
    }

    pub fn name(&self) -> (r: String)
        ensures
            r@ == self.label(),
    {
        proof {
            reveal_strlit("create");
            reveal_strlit("update");
            reveal_strlit("delete");
        }
        match self {
            Operation::Create => {
                let r = String::from_str("create");
                proof {
                    assert(r@ =~= self.label());
                }
                r
            },
            Operation::Update => {
                let r = String::from_str("update");
                proof {
                    assert(r@ =~= self.label());
                }
                r
            },
            Operation::Delete => {
                let r = String::from_str("delete");
                proof {
                    assert(r@ =~= self.label());
                }
                r
            },
        }
    }
}

/// A mutation, as delivered to subscribers.
pub struct CollectionEvent {
    pub operation: Operation,
    pub key: String,
    pub value: Json,
}

impl Clone for CollectionEvent {
    fn clone(&self) -> (r: CollectionEvent)
        ensures
            r.operation == self.operation,
            r.key@ == self.key@,
            r.value.dv() == self.value.dv(),
    {
        CollectionEvent {
            operation: self.operation,
            key: self.key.clone(),
            value: self.value.clone(),
        }
    }
}

/// The JSON shape of an event: operation tag, key, and value.
pub open spec fn event_jv(op: Operation, key: Seq<char>, value: JsonV) -> JsonV {
    JsonV::Obj(
        seq![
            (seq!['o', 'p', 'e', 'r', 'a', 't', 'i', 'o', 'n'], JsonV::Str(op.label())),
            (seq!['k', 'e', 'y'], JsonV::Str(key)),
            (seq!['v', 'a', 'l', 'u', 'e'], value),
        ],
    )
}

/// Build the JSON document of an event.
pub fn event_json(e: &CollectionEvent) -> (r: Json)
    ensures
        r.dv() == event_jv(e.operation, e.key@, e.value.dv()),
{
    proof {
        reveal_strlit("operation");
        reveal_strlit("key");
        reveal_strlit("value");
    }
    let mut fields: Vec<(String, Json)> = Vec::new();
    fields.push((String::from_str("operation"), Json::Str(e.operation.name())));
    fields.push((String::from_str("key"), Json::Str(e.key.clone())));
    fields.push((String::from_str("value"), e.value.deep_clone()));
    proof {
        lemma_dv_fields_len(fields@);
        assert(("operation")@ =~= seq!['o', 'p', 'e', 'r', 'a', 't', 'i', 'o', 'n']);
        assert(("key")@ =~= seq!['k', 'e', 'y']);
        assert(("value")@ =~= seq!['v', 'a', 'l', 'u', 'e']);
        assert(fields@.len() == 3);
        assert(dv_fields(fields@)[0] == (fields@[0].0@, fields@[0].1.dv()));
        assert(dv_fields(fields@)[1] == (fields@[1].0@, fields@[1].1.dv()));
        assert(dv_fields(fields@)[2] == (fields@[2].0@, fields@[2].1.dv()));
        assert(fields@[0].1.dv() == JsonV::Str(e.operation.label()));
        assert(fields@[1].1.dv() == JsonV::Str(e.key@));
        assert(fields@[2].1.dv() == e.value.dv());
        assert(dv_fields(fields@) =~= event_jv(e.operation, e.key@, e.value.dv())->Obj_0);
    }
    Json::Obj(fields)
}

/// A document with `serverTime` set, when it is an object; any other
/// document is left alone.
pub open spec fn with_time_v(v: JsonV, ms: int) -> JsonV {
    match v {
        JsonV::Obj(fields) => JsonV::Obj(
            obj_set_v(
                fields,
                seq!['s', 'e', 'r', 'v', 'e', 'r', 'T', 'i', 'm', 'e'],
                JsonV::Int(ms),
            ),
        ),
        _ => v,
    }
}

/// Set `serverTime` on an object document.
pub fn with_server_time(v: Json, ms: i64) -> (r: Json)
    ensures
        r.dv() == with_time_v(v.dv(), ms as int),
{
    proof {
        reveal_strlit("serverTime");
    }
    match &v {
        Json::Obj(_) => {
            let r = v.set_field("serverTime", Json::Int(ms));
            proof {
                assert(("serverTime")@ =~= seq![
                    's',
                    'e',
                    'r',
                    'v',
                    'e',
                    'r',
                    'T',
                    'i',
                    'm',
                    'e',
                ]);
            }
            r
        },
        _ => v,
    }
}

/// One SSE frame around a payload.
pub open spec fn sse_frame_text(payload: Seq<char>) -> Seq<char> {
    seq!['d', 'a', 't', 'a', ':', ' '] + payload + seq!['\n', '\n']
}

pub fn sse_frame(payload: &str) -> (r: String)
    ensures
        r@ == sse_frame_text(payload@),
{
    proof {
        reveal_strlit("data: ");
        reveal_strlit("\n\n");
    }
    let mut out = String::new();
    out.append("data: ");
    out.append(payload);
    out.append("\n\n");
    proof {
        assert(("data: ")@ =~= seq!['d', 'a', 't', 'a', ':', ' ']);
        assert(("\n\n")@ =~= seq!['\n', '\n']);
        assert(out@ =~= sse_frame_text(payload@));
    }
    out
}

/// The first frame of a subscription: the connect notice.
pub open spec fn connected_frame_v(user: Seq<char>) -> Seq<char> {
    sse_frame_text(
        json_text(
            JsonV::Obj(
                seq![
                    (
                        seq!['t', 'y', 'p', 'e'],
                        JsonV::Str(seq!['c', 'o', 'n', 'n', 'e', 'c', 't', 'e', 'd']),
                    ),
                    (seq!['c', 'o', 'l', 'l', 'e', 'c', 't', 'i', 'o', 'n'], JsonV::Str(user)),
                ],
            ),
        ),
    )
}

pub fn connected_frame(user: &str) -> (r: String)
    ensures
        r@ == connected_frame_v(user@),
{
    proof {
        reveal_strlit("type");
        reveal_strlit("connected");
        reveal_strlit("collection");
    }
    let mut user_string = String::new();
    user_string.append(user);
    let mut fields: Vec<(String, Json)> = Vec::new();
    fields.push((String::from_str("type"), Json::Str(String::from_str("connected"))));
    fields.push((String::from_str("collection"), Json::Str(user_string)));
    proof {
        lemma_dv_fields_len(fields@);
        assert(("type")@ =~= seq!['t', 'y', 'p', 'e']);
        assert(("connected")@ =~= seq!['c', 'o', 'n', 'n', 'e', 'c', 't', 'e', 'd']);
        assert(("collection")@ =~= seq!['c', 'o', 'l', 'l', 'e', 'c', 't', 'i', 'o', 'n']);
        assert(user_string@ =~= user@);
        assert(fields@.len() == 2);
        assert(dv_fields(fields@)[0] == (fields@[0].0@, fields@[0].1.dv()));
        assert(dv_fields(fields@)[1] == (fields@[1].0@, fields@[1].1.dv()));
        assert(fields@[0].1.dv() == JsonV::Str(("connected")@));
        assert(fields@[1].1.dv() == JsonV::Str(user@));
        assert(dv_fields(fields@) =~= seq![
            (
                seq!['t', 'y', 'p', 'e'],
                JsonV::Str(seq!['c', 'o', 'n', 'n', 'e', 'c', 't', 'e', 'd']),
            ),
            (seq!['c', 'o', 'l', 'l', 'e', 'c', 't', 'i', 'o', 'n'], JsonV::Str(user@)),
        ]);
    }
    let doc = Json::Obj(fields);
    let body = json_to_string(&doc);
    sse_frame(body.as_str())
}

/// The frame delivering one event: the event JSON, with `serverTime`
/// injected into object values.
pub open spec fn event_frame_v(op: Operation, key: Seq<char>, value: JsonV, ms: int) -> Seq<char> {
    sse_frame_text(json_text(event_jv(op, key, with_time_v(value, ms))))
}

pub fn event_frame(e: &CollectionEvent, now_ms: i64) -> (r: String)
    ensures
        r@ == event_frame_v(e.operation, e.key@, e.value.dv(), now_ms as int),
{
    let stamped = with_server_time(e.value.deep_clone(), now_ms);
    let full = CollectionEvent { operation: e.operation, key: e.key.clone(), value: stamped };
    let doc = event_json(&full);
    let body = json_to_string(&doc);
    sse_frame(body.as_str())
}

/// What a subscriber's loop hears from its channel.
pub enum RecvOutcome {
    Event(CollectionEvent),
    Lagged(u64),
    Closed,
}

/// What the subscriber's loop does next.
pub enum SseStep {
    Emit(String),
    Skip(u64),
    End,
}

/// One turn of the subscription loop: an event becomes a frame, a lag is
/// reported and delivery resumes, a closed channel ends the stream.
pub fn sse_next(outcome: RecvOutcome, now_ms: i64) -> (r: SseStep)
    ensures
        match outcome {
            RecvOutcome::Event(e) => r matches SseStep::Emit(frame) && frame@ == event_frame_v(
                e.operation,
                e.key@,
                e.value.dv(),
                now_ms as int,
            ),
            RecvOutcome::Lagged(n) => r == SseStep::Skip(n),
            RecvOutcome::Closed => r == SseStep::End,
        },
{
    match outcome {
        RecvOutcome::Event(e) => SseStep::Emit(event_frame(&e, now_ms)),
        RecvOutcome::Lagged(n) => SseStep::Skip(n),
        RecvOutcome::Closed => SseStep::End,
    }
}


/// One turn of the subscription loop at the wall clock's current moment:
/// whatever time the clock reports, an event becomes its frame at that
/// time, a lag is reported and delivery resumes, a closed channel ends
/// the stream.
pub fn sse_step(outcome: RecvOutcome) -> (r: SseStep)
    ensures
        match outcome {
            RecvOutcome::Event(e) => r matches SseStep::Emit(frame) && exists|t: i64|
                frame@ == event_frame_v(e.operation, e.key@, e.value.dv(), t as int),
            RecvOutcome::Lagged(n) => r == SseStep::Skip(n),
            RecvOutcome::Closed => r == SseStep::End,
        },
{
    let now = now_unix_ms();
    let r = sse_next(outcome, now);
    r
}


/// The frame built for a mutation names exactly the mutated key: the
/// event JSON's `key` member is that key and no other. What a connected
/// subscriber receives is such a frame, one per delivered event.
pub proof fn lemma_event_names_its_key(op: Operation, key: Seq<char>, value: JsonV)
    ensures
        obj_get_v(event_jv(op, key, value)->Obj_0, seq!['k', 'e', 'y']) == Some(JsonV::Str(key)),
{
    let fields = event_jv(op, key, value)->Obj_0;
    assert(fields[0].0 != seq!['k', 'e', 'y']);
    assert(fields.drop_first()[0] == fields[1]);
    assert(fields[1].0 == seq!['k', 'e', 'y']);
    assert(obj_get_v(fields.drop_first(), seq!['k', 'e', 'y']) == Some(
        fields.drop_first()[0].1,
    ));
    assert(obj_get_v(fields, seq!['k', 'e', 'y']) == obj_get_v(
        fields.drop_first(),
        seq!['k', 'e', 'y'],
    ));
}

} // verus!
