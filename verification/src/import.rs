//! The bulk import pipeline's planning: keys derived from a dot-path
//! field or generated by position, anomalies counted, events prepared,
//! and fan-out chunked so subscribers are not overwhelmed.

use vstd::prelude::*;
use vstd::string::StrSliceExecFns;
use vstd::string::StringExecFns;
use crate::events::{CollectionEvent, Operation};
use crate::json::{Json, JsonV, dv_fields, dv_seq, lemma_dv_seq_len, obj_get_v};
use crate::store::{Store, batch_apply};
use crate::numtext::{nat_str, int_str, i64_to_dec};
use crate::strutil::chars_to_string;

verus! {

/// The position of the first dot, if any.
pub open spec fn dot_pos(path: Seq<char>) -> Option<int>
    decreases path.len(),
{
    if path.len() == 0 {
        None
    } else if path[0] == '.' {
        Some(0int)
    } else {
        match dot_pos(path.drop_first()) {
            Some(i) => Some(i + 1),
            None => None,
        }
    }
}

pub proof fn lemma_dot_pos(path: Seq<char>)
    ensures
        match dot_pos(path) {
            Some(i) => 0 <= i < path.len() && path[i] == '.' && (forall|j: int|
                0 <= j < i ==> path[j] != '.'),
            None => forall|j: int| 0 <= j < path.len() ==> path[j] != '.',
        },
    decreases path.len(),
{
    if path.len() > 0 && path[0] != '.' {
        lemma_dot_pos(path.drop_first());
        let t = path.drop_first();
        match dot_pos(t) {
            Some(i) => {
                assert(t[i] == path[i + 1]);
                assert forall|j: int| 0 <= j < i + 1 implies path[j] != '.' by {
                    if j > 0 {
                        assert(t[j - 1] == path[j]);
                    }
                }
            },
            None => {
                assert forall|j: int| 0 <= j < path.len() implies path[j] != '.' by {
                    if j > 0 {
                        assert(t[j - 1] == path[j]);
                    }
                }
            },
        }
    }
}

/// A member of an object document, or nothing on any other shape.
pub open spec fn member_of(v: JsonV, name: Seq<char>) -> Option<JsonV> {
    match v {
        JsonV::Obj(fields) => obj_get_v(fields, name),
        _ => None,
    }
}

/// Walk a dot path through nested objects.
pub open spec fn nested_get_v(v: JsonV, path: Seq<char>) -> Option<JsonV>
    decreases path.len(),
    via nested_get_v_decreases
{
    match dot_pos(path) {
        None => member_of(v, path),
        Some(i) => match member_of(v, path.take(i)) {
            Some(x) => nested_get_v(x, path.skip(i + 1)),
            None => None,
        },
    }
}

#[via_fn]
proof fn nested_get_v_decreases(v: JsonV, path: Seq<char>) {
    lemma_dot_pos(path);
}

/// Look a dot path up in a document.
pub fn nested_get<'a>(v: &'a Json, path: &str) -> (r: Option<&'a Json>)
    ensures
        match r {
            Some(x) => nested_get_v(v.dv(), path@) == Some(x.dv()),
            None => nested_get_v(v.dv(), path@) is None,
        },
    decreases path@.len(),
{
    proof {
        lemma_dot_pos(path@);
    }
    let n = path.unicode_len();
    let mut i: usize = 0;
    while i < n && path.get_char(i) != '.'
        invariant
            i <= n,
            n == path@.len(),
            forall|j: int| 0 <= j < i ==> path@[j] != '.',
        decreases n - i,
    {
        i = i + 1;
    }
    if i == n {
        proof {
            assert(dot_pos(path@) is None);
        }
        v.get_field(path)
    } else {
        proof {
            assert(path@[i as int] == '.');
            lemma_dot_pos(path@);
            if dot_pos(path@) is None {
                assert(path@[i as int] != '.');
            } else {
                let k = dot_pos(path@)->Some_0;
                if k < i {
                    assert(path@[k] != '.');
                } else if k > i {
                    assert(path@[i as int] != '.');
                }
            }
            assert(dot_pos(path@) == Some(i as int));
        }
        let head = path.substring_char(0, i);
        let tail = path.substring_char(i + 1, n);
        proof {
            assert(head@ =~= path@.take(i as int));
            assert(tail@ =~= path@.skip(i + 1));
            assert(tail@.len() < path@.len());
        }
        match v.get_field(head) {
            Some(x) => nested_get(x, tail),
            None => None,
        }
    }
}

/// The generated key of the item at a one-based position.
pub open spec fn item_key_v(idx1: int) -> Seq<char> {
    seq!['i', 't', 'e', 'm', '_'] + nat_str(idx1 as nat)
}

pub fn item_key(idx1: usize) -> (r: String)
    ensures
        r@ == item_key_v(idx1 as int),
{
    proof {
        reveal_strlit("item_");
    }
    let mut out: Vec<char> = Vec::new();
    out.push('i');
    out.push('t');
    out.push('e');
    out.push('m');
    out.push('_');
    let mut digits = crate::numtext::u64_to_dec(idx1 as u64);
    out.append(&mut digits);
    proof {
        assert(out@ =~= item_key_v(idx1 as int));
    }
    chars_to_string(&out)
}

/// The key an item lands under: the named field when it holds a string
/// or a number (stringified -- an integer's decimal print, any other
/// number's decimal text), else the generated positional key.
pub open spec fn derived_key_v(item: JsonV, field: Option<Seq<char>>, idx1: int) -> Seq<char> {
    match field {
        None => item_key_v(idx1),
        Some(f) => match nested_get_v(item, f) {
            Some(JsonV::Str(s)) => s,
            Some(JsonV::Int(n)) => int_str(n),
            Some(JsonV::Num(s)) => s,
            _ => item_key_v(idx1),
        },
    }
}

/// Whether deriving the key of an object item records an anomaly: a key
/// field was asked for and is absent or neither string nor number.
pub open spec fn key_anomaly_v(item: JsonV, field: Option<Seq<char>>) -> bool {
    match field {
        None => false,
        Some(f) => !(nested_get_v(item, f) matches Some(JsonV::Str(_)) || nested_get_v(item, f)
            matches Some(JsonV::Int(_)) || nested_get_v(item, f) matches Some(JsonV::Num(_))),
    }
}

/// The batch an import writes: each object item under its derived key;
/// items that are not objects are skipped.
pub open spec fn plan_batch_v(
    items: Seq<JsonV>,
    field: Option<Seq<char>>,
    idx1: int,
) -> Seq<(Seq<char>, JsonV)>
    decreases items.len(),
{
    if items.len() == 0 {
        Seq::empty()
    } else {
        (if items[0] is Obj {
            seq![(derived_key_v(items[0], field, idx1), items[0])]
        } else {
            Seq::empty()
        }) + plan_batch_v(items.drop_first(), field, idx1 + 1)
    }
}

/// How many anomalies an import records: one per non-object item, one
/// per object item whose key field misfires.
pub open spec fn plan_errors_v(items: Seq<JsonV>, field: Option<Seq<char>>) -> int
    decreases items.len(),
{
    if items.len() == 0 {
        0
    } else {
        (if items[0] is Obj {
            if key_anomaly_v(items[0], field) {
                1int
            } else {
                0int
            }
        } else {
            1int
        }) + plan_errors_v(items.drop_first(), field)
    }
}

proof fn lemma_plan_snoc(items: Seq<JsonV>, field: Option<Seq<char>>, idx1: int, i: int)
    requires
        0 <= i < items.len(),
    ensures
        plan_batch_v(items.take(i + 1), field, idx1) == plan_batch_v(items.take(i), field, idx1)
            + (if items[i] is Obj {
            seq![(derived_key_v(items[i], field, idx1 + i), items[i])]
        } else {
            Seq::empty()
        }),
        plan_errors_v(items.take(i + 1), field) == plan_errors_v(items.take(i), field) + (if items[i]
            is Obj {
            if key_anomaly_v(items[i], field) {
                1int
            } else {
                0int
            }
        } else {
            1int
        }),
    decreases i,
{
    if i == 0 {
        assert(items.take(1) =~= seq![items[0]]);
        assert(items.take(1)[0] == items[0]);
        assert(items.take(1).drop_first() =~= Seq::<JsonV>::empty());
        assert(items.take(0) =~= Seq::<JsonV>::empty());
        assert(plan_batch_v(Seq::<JsonV>::empty(), field, idx1 + 1) == Seq::<(
            Seq<char>,
            JsonV,
        )>::empty());
        assert(plan_errors_v(Seq::<JsonV>::empty(), field) == 0);
        assert(plan_batch_v(Seq::<JsonV>::empty(), field, idx1) == Seq::<(
            Seq<char>,
            JsonV,
        )>::empty());
        if items[0] is Obj {
            assert(plan_batch_v(items.take(1), field, idx1) =~= plan_batch_v(
                items.take(0),
                field,
                idx1,
            ) + seq![(derived_key_v(items[0], field, idx1), items[0])]);
        } else {
            assert(plan_batch_v(items.take(1), field, idx1) =~= plan_batch_v(
                items.take(0),
                field,
                idx1,
            ));
        }
    } else {
        let t = items.drop_first();
        lemma_plan_snoc(t, field, idx1 + 1, i - 1);
        assert(items.take(i + 1).drop_first() =~= t.take(i));
        assert(items.take(i).drop_first() =~= t.take(i - 1));
        assert(items.take(i + 1)[0] == items[0]);
        assert(items.take(i)[0] == items[0]);
        assert(t[i - 1] == items[i]);
        let head = (if items[0] is Obj {
            seq![(derived_key_v(items[0], field, idx1), items[0])]
        } else {
            Seq::<(Seq<char>, JsonV)>::empty()
        });
        let piece = (if items[i] is Obj {
            seq![(derived_key_v(items[i], field, idx1 + i), items[i])]
        } else {
            Seq::<(Seq<char>, JsonV)>::empty()
        });
        assert(head + (plan_batch_v(t.take(i - 1), field, idx1 + 1) + piece) =~= (head
            + plan_batch_v(t.take(i - 1), field, idx1 + 1)) + piece);
    }
}

/// What an import will write and announce, and how many anomalies it
/// found.
pub struct ImportPlan {
    pub batch: Vec<(String, Json)>,
    pub events: Vec<CollectionEvent>,
    pub errors: Vec<String>,
}

/// Plan an import: derive each object item's key, skip items that are
/// not objects, record an anomaly for each skip or key misfire, and
/// prepare one create event per written pair.
#[verifier::loop_isolation(false)]
pub fn plan_import(items: &Vec<Json>, key_field: Option<&str>) -> (r: ImportPlan)
    ensures
        dv_fields(r.batch@) == plan_batch_v(
            dv_seq(items@),
            match key_field {
                Some(f) => Some(f@),
                None => None,
            },
            1,
        ),
        r.errors@.len() == plan_errors_v(
            dv_seq(items@),
            match key_field {
                Some(f) => Some(f@),
                None => None,
            },
        ),
        r.events@.len() == r.batch@.len(),
        forall|j: int|
            0 <= j < r.batch@.len() ==> (#[trigger] r.events@[j]).operation == Operation::Create
                && r.events@[j].key@ == dv_fields(r.batch@)[j].0 && r.events@[j].value.dv()
                == dv_fields(r.batch@)[j].1,
{
    proof {
        lemma_dv_seq_len(items@);
    }
    let ghost ivs = dv_seq(items@);
    let ghost fieldv: Option<Seq<char>> = match key_field {
        Some(f) => Some(f@),
        None => None,
    };
    let mut batch: Vec<(String, Json)> = Vec::new();
    let mut events: Vec<CollectionEvent> = Vec::new();
    let mut errors: Vec<String> = Vec::new();
    let mut i: usize = 0;
    proof {
        assert(ivs.take(0) =~= Seq::<JsonV>::empty());
        assert(dv_fields(batch@) =~= plan_batch_v(ivs.take(0), fieldv, 1));
    }
    while i < items.len()
        invariant
            i <= items@.len(),
            dv_fields(batch@) == plan_batch_v(ivs.take(i as int), fieldv, 1),
            errors@.len() == plan_errors_v(ivs.take(i as int), fieldv),
            events@.len() == batch@.len(),
            dv_fields(batch@).len() == batch@.len(),
            forall|j: int|
                0 <= j < batch@.len() ==> dv_fields(batch@)[j] == ((#[trigger] batch@[j]).0@,
                batch@[j].1.dv()),
            forall|j: int|
                0 <= j < batch@.len() ==> (#[trigger] events@[j]).operation == Operation::Create
                    && events@[j].key@ == dv_fields(batch@)[j].0 && events@[j].value.dv()
                    == dv_fields(batch@)[j].1,
        decreases items@.len() - i,
    {
        let item = &items[i];
        proof {
            assert(ivs[i as int] == items@[i as int].dv());
            lemma_plan_snoc(ivs, fieldv, 1, i as int);
        }
        let is_object = match item {
            Json::Obj(_) => true,
            _ => false,
        };
        if !is_object {
            errors.push(item_key(i + 1));
            proof {
                assert(!(ivs[i as int] is Obj));
                assert(plan_batch_v(ivs.take(i + 1), fieldv, 1) =~= plan_batch_v(
                    ivs.take(i as int),
                    fieldv,
                    1,
                ));
            }
        } else {
            let key: String = match key_field {
                Some(field) => match nested_get(item, field) {
                    Some(found) => match found {
                        Json::Str(s) => {
                            proof {
                                assert(!key_anomaly_v(ivs[i as int], fieldv));
                            }
                            s.clone()
                        },
                        Json::Int(n) => {
                            proof {
                                assert(!key_anomaly_v(ivs[i as int], fieldv));
                            }
                            let digits = i64_to_dec(*n);
                            chars_to_string(&digits)
                        },
                        Json::Num(s) => {
                            proof {
                                assert(!key_anomaly_v(ivs[i as int], fieldv));
                            }
                            s.clone()
                        },
                        _ => {
                            errors.push(item_key(i + 1));
                            item_key(i + 1)
                        },
                    },
                    None => {
                        errors.push(item_key(i + 1));
                        item_key(i + 1)
                    },
                },
                None => item_key(i + 1),
            };
            proof {
                assert(key@ == derived_key_v(ivs[i as int], fieldv, 1 + i as int));
            }
            let ghost prebatch = batch@;
            batch.push((key, item.deep_clone()));
            proof {
                crate::json::lemma_dv_fields_push(prebatch, batch@[batch@.len() - 1].0,
                    batch@[batch@.len() - 1].1);
                assert(prebatch.push(batch@[batch@.len() - 1]) =~= batch@);
                assert(dv_fields(batch@) =~= plan_batch_v(ivs.take(i + 1), fieldv, 1));
            }
            let last = &batch[batch.len() - 1];
            events.push(
                CollectionEvent {
                    operation: Operation::Create,
                    key: last.0.clone(),
                    value: last.1.deep_clone(),
                },
            );
        }
        i = i + 1;
    }
    proof {
        assert(ivs.take(items@.len() as int) =~= ivs);
    }
    ImportPlan { batch, events, errors }
}

/// The size of one storage batch: everything at once below five thousand
/// items, else five thousand at a time.
pub fn db_batch_size(total: usize) -> (r: usize)
    ensures
        r == if total < 5000 {
            total as int
        } else {
            5000int
        },
{
    if total < 5000 {
        total
    } else {
        5000
    }
}


/// What executing an import's writes came to: how many pairs committed,
/// and one message per batch that failed.
pub struct ImportOutcome {
    pub imported_count: usize,
    pub errors: Vec<String>,
}

impl Store {
    /// Write a planned import in batches of the storage batch size. Only
    /// committed batches count; a failed batch leaves one message and
    /// later batches still run. With the collection present every batch
    /// commits and the whole plan lands; without it nothing does.
    #[verifier::loop_isolation(false)]
    pub fn execute_import(&mut self, cf: &str, batch: &Vec<(String, Json)>) -> (r: ImportOutcome)
        requires
            old(self).wf(),
        ensures
            final(self).wf(),
            old(self).cf_lookup(cf@) is Some ==> {
                &&& r.imported_count == batch@.len()
                &&& r.errors@.len() == 0
                &&& forall|q: Seq<char>|
                    final(self).cf_lookup(q) == if q == cf@ {
                        Some(
                            batch_apply(old(self).cf_lookup(cf@)->Some_0, dv_fields(batch@)),
                        )
                    } else {
                        old(self).cf_lookup(q)
                    }
            },
            old(self).cf_lookup(cf@) is None ==> r.imported_count == 0 && final(self).cfs_v()
                == old(self).cfs_v() && (batch@.len() > 0 ==> r.errors@.len() > 0),
    {
        proof {
            crate::json::lemma_dv_fields_len(batch@);
        }
        let ghost all = dv_fields(batch@);
        let chunk_size = db_batch_size(batch.len());
        let mut imported_count: usize = 0;
        let mut errors: Vec<String> = Vec::new();
        let mut start: usize = 0;
        proof {
            assert(all.take(0) =~= Seq::<(Seq<char>, JsonV)>::empty());
            if old(self).cf_lookup(cf@) is Some {
                assert(batch_apply(old(self).cf_lookup(cf@)->Some_0, all.take(0)) == old(
                    self,
                ).cf_lookup(cf@)->Some_0);
            }
        }
        while start < batch.len()
            invariant
                start <= batch@.len(),
                start < batch@.len() ==> chunk_size >= 1,
                old(self).cf_lookup(cf@) is Some ==> {
                    &&& imported_count == start
                    &&& errors@.len() == 0
                    &&& forall|q: Seq<char>|
                        self.cf_lookup(q) == if q == cf@ {
                            Some(
                                batch_apply(
                                    old(self).cf_lookup(cf@)->Some_0,
                                    all.take(start as int),
                                ),
                            )
                        } else {
                            old(self).cf_lookup(q)
                        }
                },
                old(self).cf_lookup(cf@) is None ==> imported_count == 0 && self.cfs_v() == old(
                    self,
                ).cfs_v() && (start > 0 ==> errors@.len() > 0),
                self.wf(),
            decreases batch@.len() - start,
        {
            let end = if batch.len() - start < chunk_size {
                batch.len()
            } else {
                start + chunk_size
            };
            let mut chunk: Vec<(String, Json)> = Vec::new();
            let mut i: usize = start;
            proof {
                assert(dv_fields(chunk@) =~= all.subrange(start as int, start as int));
            }
            while i < end
                invariant
                    start <= i <= end <= batch@.len(),
                    dv_fields(chunk@) == all.subrange(start as int, i as int),
                    chunk@.len() == i - start,
                decreases end - i,
            {
                let entry = &batch[i];
                let ghost prechunk = chunk@;
                chunk.push((entry.0.clone(), entry.1.deep_clone()));
                proof {
                    crate::json::lemma_dv_fields_push(prechunk, chunk@[chunk@.len() - 1].0,
                        chunk@[chunk@.len() - 1].1);
                    assert(prechunk.push(chunk@[chunk@.len() - 1]) =~= chunk@);
                    assert(all[i as int] == (batch@[i as int].0@, batch@[i as int].1.dv()));
                    assert(chunk@[chunk@.len() - 1].0@ == all[i as int].0);
                    assert(chunk@[chunk@.len() - 1].1.dv() == all[i as int].1);
                    assert(dv_fields(chunk@) =~= all.subrange(start as int, i + 1));
                }
                i = i + 1;
            }
            match self.batch_insert_cf(cf, &chunk) {
                Ok(()) => {
                    imported_count = imported_count + chunk.len();
                    proof {
                        assert(all.take(start as int) + all.subrange(start as int, end as int)
                            =~= all.take(end as int));
                        lemma_batch_apply_concat(
                            old(self).cf_lookup(cf@)->Some_0,
                            all.take(start as int),
                            all.subrange(start as int, end as int),
                        );
                    }
                },
                Err(_) => {
                    errors.push(String::from_str("Failed to insert batch"));
                },
            }
            start = end;
        }
        proof {
            assert(all.take(batch@.len() as int) =~= all);
        }
        ImportOutcome { imported_count, errors }
    }
}

/// Folding a batch in two runs is folding it in one.
proof fn lemma_batch_apply_concat(
    s: Seq<(Seq<char>, JsonV)>,
    a: Seq<(Seq<char>, JsonV)>,
    b: Seq<(Seq<char>, JsonV)>,
)
    ensures
        batch_apply(s, a + b) == batch_apply(batch_apply(s, a), b),
    decreases a.len(),
{
    if a.len() == 0 {
        assert(a + b =~= b);
        assert(batch_apply(s, a) == s);
    } else {
        assert((a + b)[0] == a[0]);
        assert((a + b).drop_first() =~= a.drop_first() + b);
        lemma_batch_apply_concat(
            crate::table::sorted_insert(s, a[0].0, a[0].1),
            a.drop_first(),
            b,
        );
    }
}


/// The `{message, imported_count, collection, errors}` body of a
/// completed import.
pub open spec fn import_body_v(
    count: int,
    collection: Seq<char>,
    errors: Seq<Seq<char>>,
) -> JsonV {
    JsonV::Obj(
        seq![
            (
                seq!['m', 'e', 's', 's', 'a', 'g', 'e'],
                JsonV::Str(
                    seq![
                        'S',
                        'u',
                        'c',
                        'c',
                        'e',
                        's',
                        's',
                        'f',
                        'u',
                        'l',
                        'l',
                        'y',
                        ' ',
                        'i',
                        'm',
                        'p',
                        'o',
                        'r',
                        't',
                        'e',
                        'd',
                        ' ',
                    ] + nat_str(count as nat) + seq![' ', 'i', 't', 'e', 'm', 's'],
                ),
            ),
            (
                seq![
                    'i',
                    'm',
                    'p',
                    'o',
                    'r',
                    't',
                    'e',
                    'd',
                    '_',
                    'c',
                    'o',
                    'u',
                    'n',
                    't',
                ],
                JsonV::Int(count),
            ),
            (
                seq!['c', 'o', 'l', 'l', 'e', 'c', 't', 'i', 'o', 'n'],
                JsonV::Str(collection),
            ),
            (
                seq!['e', 'r', 'r', 'o', 'r', 's'],
                if errors.len() == 0 {
                    JsonV::Null
                } else {
                    JsonV::Arr(str_seq_v(errors))
                },
            ),
        ],
    )
}

/// Strings as JSON strings, in order.
pub open spec fn str_seq_v(strings: Seq<Seq<char>>) -> Seq<JsonV>
    decreases strings.len(),
{
    if strings.len() == 0 {
        Seq::empty()
    } else {
        seq![JsonV::Str(strings[0])] + str_seq_v(strings.drop_first())
    }
}

/// The response an import ends with: 400 when nothing committed, else
/// 201 with the count, the collection, and whatever anomalies were
/// recorded.
#[verifier::loop_isolation(false)]
pub fn import_response(outcome: ImportOutcome, collection: &str) -> (r: crate::api::ApiResponse)
    requires
        outcome.imported_count <= i64::MAX,
    ensures
        outcome.imported_count == 0 ==> r.status == 400,
        outcome.imported_count > 0 ==> r.status == 201 && r.body.dv() == import_body_v(
            outcome.imported_count as int,
            collection@,
            Seq::new(outcome.errors@.len(), |i: int| outcome.errors@[i]@),
        ),
{
    proof {
        reveal_strlit("No items were imported");
        reveal_strlit("Successfully imported ");
        reveal_strlit(" items");
        reveal_strlit("message");
        reveal_strlit("imported_count");
        reveal_strlit("collection");
        reveal_strlit("errors");
    }
    if outcome.imported_count == 0 {
        return crate::api::ApiResponse {
            status: 400,
            body: crate::api::text_body("No items were imported"),
        };
    }
    let ghost evs: Seq<Seq<char>> = Seq::new(outcome.errors@.len(), |i: int| outcome.errors@[i]@);
    let mut message: Vec<char> = crate::strutil::string_to_chars("Successfully imported ");
    let mut digits = crate::numtext::u64_to_dec(outcome.imported_count as u64);
    message.append(&mut digits);
    let mut tail = crate::strutil::string_to_chars(" items");
    message.append(&mut tail);
    let message_string = chars_to_string(&message);
    proof {
        assert(("Successfully imported ")@ =~= seq![
            'S',
            'u',
            'c',
            'c',
            'e',
            's',
            's',
            'f',
            'u',
            'l',
            'l',
            'y',
            ' ',
            'i',
            'm',
            'p',
            'o',
            'r',
            't',
            'e',
            'd',
            ' ',
        ]);
        assert((" items")@ =~= seq![' ', 'i', 't', 'e', 'm', 's']);
    }
    let mut collection_string = String::new();
    collection_string.append(collection);
    let mut error_values: Vec<Json> = Vec::new();
    let mut i: usize = 0;
    proof {
        crate::json::lemma_dv_seq_len(error_values@);
        assert(dv_seq(error_values@) =~= str_seq_v(evs.take(0)));
    }
    while i < outcome.errors.len()
        invariant
            i <= outcome.errors@.len(),
            evs.len() == outcome.errors@.len(),
            forall|j: int| 0 <= j < evs.len() ==> evs[j] == outcome.errors@[j]@,
            dv_seq(error_values@) == str_seq_v(evs.take(i as int)),
        decreases outcome.errors@.len() - i,
    {
        let ghost pre = error_values@;
        error_values.push(Json::Str(outcome.errors[i].clone()));
        proof {
            crate::json::lemma_dv_seq_len(pre);
            crate::json::lemma_dv_seq_len(error_values@);
            assert(pre.push(error_values@[error_values@.len() - 1]) =~= error_values@);
            lemma_str_seq_snoc(evs, i as int);
            assert forall|j: int| 0 <= j < error_values@.len() implies dv_seq(error_values@)[j]
                == str_seq_v(evs.take(i + 1))[j] by {
                assert(dv_seq(error_values@)[j] == error_values@[j].dv());
                if j < pre.len() {
                    assert(error_values@[j] == pre[j]);
                    assert(dv_seq(pre)[j] == pre[j].dv());
                }
            }
            assert(dv_seq(error_values@) =~= str_seq_v(evs.take(i + 1)));
        }
        i = i + 1;
    }
    proof {
        assert(evs.take(outcome.errors@.len() as int) =~= evs);
    }
    let errors_member: Json = if error_values.len() == 0 {
        Json::Null
    } else {
        Json::Arr(error_values)
    };
    let mut fields: Vec<(String, Json)> = Vec::new();
    fields.push((String::from_str("message"), Json::Str(message_string)));
    fields.push((String::from_str("imported_count"), Json::Int(outcome.imported_count as i64)));
    fields.push((String::from_str("collection"), Json::Str(collection_string)));
    fields.push((String::from_str("errors"), errors_member));
    proof {
        crate::json::lemma_dv_fields_len(fields@);
        assert(("message")@ =~= seq!['m', 'e', 's', 's', 'a', 'g', 'e']);
        assert(("imported_count")@ =~= seq![
            'i',
            'm',
            'p',
            'o',
            'r',
            't',
            'e',
            'd',
            '_',
            'c',
            'o',
            'u',
            'n',
            't',
        ]);
        assert(("collection")@ =~= seq!['c', 'o', 'l', 'l', 'e', 'c', 't', 'i', 'o', 'n']);
        assert(("errors")@ =~= seq!['e', 'r', 'r', 'o', 'r', 's']);
        assert(fields@.len() == 4);
        assert(dv_fields(fields@)[0] == (fields@[0].0@, fields@[0].1.dv()));
        assert(dv_fields(fields@)[1] == (fields@[1].0@, fields@[1].1.dv()));
        assert(dv_fields(fields@)[2] == (fields@[2].0@, fields@[2].1.dv()));
        assert(dv_fields(fields@)[3] == (fields@[3].0@, fields@[3].1.dv()));
        assert(collection_string@ =~= collection@);
        assert(dv_fields(fields@) =~= import_body_v(
            outcome.imported_count as int,
            collection@,
            evs,
        )->Obj_0);
    }
    crate::api::ApiResponse { status: 201, body: Json::Obj(fields) }
}

proof fn lemma_str_seq_snoc(strings: Seq<Seq<char>>, i: int)
    requires
        0 <= i < strings.len(),
    ensures
        str_seq_v(strings.take(i + 1)) == str_seq_v(strings.take(i)) + seq![
            JsonV::Str(strings[i]),
        ],
    decreases i,
{
    if i == 0 {
        assert(strings.take(1) =~= seq![strings[0]]);
        assert(strings.take(1)[0] == strings[0]);
        assert(strings.take(1).drop_first() =~= Seq::<Seq<char>>::empty());
        assert(strings.take(0) =~= Seq::<Seq<char>>::empty());
        assert(str_seq_v(strings.take(1)) =~= str_seq_v(strings.take(0)) + seq![
            JsonV::Str(strings[0]),
        ]);
    } else {
        let t = strings.drop_first();
        lemma_str_seq_snoc(t, i - 1);
        assert(strings.take(i + 1).drop_first() =~= t.take(i));
        assert(strings.take(i).drop_first() =~= t.take(i - 1));
        assert(strings.take(i + 1)[0] == strings[0]);
        assert(strings.take(i)[0] == strings[0]);
        assert(t[i - 1] == strings[i]);
        assert(seq![JsonV::Str(strings[0])] + (str_seq_v(t.take(i - 1)) + seq![
            JsonV::Str(strings[i]),
        ]) =~= (seq![JsonV::Str(strings[0])] + str_seq_v(t.take(i - 1))) + seq![
            JsonV::Str(strings[i]),
        ]);
    }
}

/// Whether the fan-out pauses between chunks: only large imports do.
pub fn use_delay(total_events: usize) -> (r: bool)
    ensures
        r == (total_events >= 200),
{
    total_events >= 200
}


/// The query-string parameter naming the field an import derives keys
/// from.
pub struct ImportQuery {
    pub key: Option<String>,
}

} // verus!
