//! The query language over a column family: root, index and filter
//! selection, with field paths, array wildcards, comparisons, and boolean
//! connectives, evaluated against an exact semantics.

use vstd::prelude::*;
use crate::json::{Json, JsonV, dv_seq, dv_fields, lemma_dv_seq_len, obj_get_v};
use crate::strutil::{lex_lt, str_eq, str_lt};

verus! {

/// One step of a field path: a member name, or every element of an array.
pub enum PathSeg {
    Field(String),
    AllElems,
}

/// The shape of a path step.
pub ghost enum PathSegV {
    Field(Seq<char>),
    AllElems,
}

impl PathSeg {
    pub open spec fn v(&self) -> PathSegV {
        match self {
            PathSeg::Field(f) => PathSegV::Field(f@),
            PathSeg::AllElems => PathSegV::AllElems,
        }
    }
}

/// A comparison operator.
#[derive(Clone, Copy, PartialEq, Eq, Structural, Debug)]
pub enum CmpOp {
    Eq,
    Ne,
    Lt,
    Le,
    Gt,
    Ge,
}

/// A literal on the right of a comparison.
pub enum Lit {
    Int(i64),
    Str(String),
    Bool(bool),
}

/// The shape of a literal.
pub ghost enum LitV {
    Int(int),
    Str(Seq<char>),
    Bool(bool),
}

impl Lit {
    pub open spec fn v(&self) -> LitV {
        match self {
            Lit::Int(i) => LitV::Int(*i as int),
            Lit::Str(s) => LitV::Str(s@),
            Lit::Bool(b) => LitV::Bool(*b),
        }
    }
}

/// One comparison: a path into the document, an operator, a literal.
pub struct Comparison {
    pub path: Vec<PathSeg>,
    pub op: CmpOp,
    pub lit: Lit,
}

/// The shape of a comparison.
pub ghost struct CmpV {
    pub path: Seq<PathSegV>,
    pub op: CmpOp,
    pub lit: LitV,
}

impl Comparison {
    pub open spec fn v(&self) -> CmpV {
        CmpV { path: Seq::new(self.path@.len(), |i: int| self.path@[i].v()), op: self.op, lit: self.lit.v() }
    }
}

/// A filter in disjunctive normal form: any of the conjunctions must
/// hold, each of a conjunction's comparisons must.
pub struct QueryFilter {
    pub any: Vec<Vec<Comparison>>,
}

impl QueryFilter {
    pub open spec fn v(&self) -> Seq<Seq<CmpV>> {
        Seq::new(
            self.any@.len(),
            |i: int| Seq::new(self.any@[i]@.len(), |j: int| self.any@[i]@[j].v()),
        )
    }
}

/// A query over a column family: every document, one position, or a
/// filter.
pub enum Query {
    All,
    Index(usize),
    Filter(QueryFilter),
}

/// The shape of a query.
pub ghost enum QueryV {
    All,
    Index(int),
    Filter(Seq<Seq<CmpV>>),
}

impl Query {
    pub open spec fn v(&self) -> QueryV {
        match self {
            Query::All => QueryV::All,
            Query::Index(i) => QueryV::Index(*i as int),
            Query::Filter(f) => QueryV::Filter(f.v()),
        }
    }
}

/// Whether one document value satisfies `op lit`.
pub open spec fn lit_matches(v: JsonV, op: CmpOp, lit: LitV) -> bool {
    match (v, lit) {
        (JsonV::Int(x), LitV::Int(y)) => int_cmp(x, y, op),
        (JsonV::Str(s), LitV::Str(t)) => str_cmp(s, t, op),
        (JsonV::Bool(b), LitV::Bool(c)) => match op {
            CmpOp::Eq => b == c,
            CmpOp::Ne => b != c,
            _ => false,
        },
        _ => false,
    }
}

pub open spec fn int_cmp(x: int, y: int, op: CmpOp) -> bool {
    match op {
        CmpOp::Eq => x == y,
        CmpOp::Ne => x != y,
        CmpOp::Lt => x < y,
        CmpOp::Le => x <= y,
        CmpOp::Gt => x > y,
        CmpOp::Ge => x >= y,
    }
}

pub open spec fn str_cmp(s: Seq<char>, t: Seq<char>, op: CmpOp) -> bool {
    match op {
        CmpOp::Eq => s == t,
        CmpOp::Ne => s != t,
        CmpOp::Lt => lex_lt(s, t),
        CmpOp::Le => lex_lt(s, t) || s == t,
        CmpOp::Gt => lex_lt(t, s),
        CmpOp::Ge => lex_lt(t, s) || s == t,
    }
}

/// Walk the remaining path into a document and test the values reached:
/// a field step enters an object member, a wildcard step succeeds when
/// any array element does.
pub open spec fn eval_path(segs: Seq<PathSegV>, v: JsonV, op: CmpOp, lit: LitV) -> bool
    decreases segs.len(), 0int, 0int,
{
    if segs.len() == 0 {
        lit_matches(v, op, lit)
    } else {
        match segs[0] {
            PathSegV::Field(f) => match v {
                JsonV::Obj(fields) => match obj_get_v(fields, f) {
                    Some(x) => eval_path(segs.drop_first(), x, op, lit),
                    None => false,
                },
                _ => false,
            },
            PathSegV::AllElems => match v {
                JsonV::Arr(elems) => any_path(segs.drop_first(), elems, op, lit),
                _ => false,
            },
        }
    }
}

/// Whether any element satisfies the remaining path.
pub open spec fn any_path(segs: Seq<PathSegV>, elems: Seq<JsonV>, op: CmpOp, lit: LitV) -> bool
    decreases segs.len(), 1int, elems.len(),
{
    if elems.len() == 0 {
        false
    } else {
        eval_path(segs, elems[0], op, lit) || any_path(segs, elems.drop_first(), op, lit)
    }
}

pub proof fn lemma_any_path_exists(segs: Seq<PathSegV>, elems: Seq<JsonV>, op: CmpOp, lit: LitV)
    ensures
        any_path(segs, elems, op, lit) == (exists|m: int|
            0 <= m < elems.len() && eval_path(segs, #[trigger] elems[m], op, lit)),
    decreases elems.len(),
{
    if elems.len() > 0 {
        lemma_any_path_exists(segs, elems.drop_first(), op, lit);
        if any_path(segs, elems, op, lit) {
            if eval_path(segs, elems[0], op, lit) {
            } else {
                let m = choose|m: int|
                    0 <= m < elems.drop_first().len() && eval_path(
                        segs,
                        #[trigger] elems.drop_first()[m],
                        op,
                        lit,
                    );
                assert(elems.drop_first()[m] == elems[m + 1]);
                assert(eval_path(segs, elems[m + 1], op, lit));
            }
        } else {
            assert forall|m: int| 0 <= m < elems.len() implies !eval_path(
                segs,
                #[trigger] elems[m],
                op,
                lit,
            ) by {
                if m > 0 {
                    assert(elems.drop_first()[m - 1] == elems[m]);
                }
            }
        }
    }
}

/// A conjunction holds when each of its comparisons does.
pub open spec fn eval_conj(cs: Seq<CmpV>, v: JsonV) -> bool {
    forall|i: int| 0 <= i < cs.len() ==> eval_path((#[trigger] cs[i]).path, v, cs[i].op, cs[i].lit)
}

/// A filter holds when any of its conjunctions does.
pub open spec fn eval_filter(ds: Seq<Seq<CmpV>>, v: JsonV) -> bool {
    exists|i: int| 0 <= i < ds.len() && eval_conj(#[trigger] ds[i], v)
}

/// What a query selects from the documents of a column family, in their
/// stored order.
pub open spec fn select_v(q: QueryV, docs: Seq<(Seq<char>, JsonV)>) -> Seq<(Seq<char>, JsonV)> {
    match q {
        QueryV::All => docs,
        QueryV::Index(i) => if 0 <= i < docs.len() {
            seq![docs[i]]
        } else {
            Seq::empty()
        },
        QueryV::Filter(ds) => filter_docs(ds, docs),
    }
}

/// The documents whose values pass the filter, in order.
pub open spec fn filter_docs(
    ds: Seq<Seq<CmpV>>,
    docs: Seq<(Seq<char>, JsonV)>,
) -> Seq<(Seq<char>, JsonV)>
    decreases docs.len(),
{
    if docs.len() == 0 {
        docs
    } else if eval_filter(ds, docs[0].1) {
        seq![docs[0]] + filter_docs(ds, docs.drop_first())
    } else {
        filter_docs(ds, docs.drop_first())
    }
}

/// Whether one document value satisfies a comparison's `op lit`.
fn lit_matches_exec(v: &Json, op: CmpOp, lit: &Lit) -> (r: bool)
    ensures
        r == lit_matches(v.dv(), op, lit.v()),
{
    match (v, lit) {
        (Json::Int(x), Lit::Int(y)) => match op {
            CmpOp::Eq => *x == *y,
            CmpOp::Ne => *x != *y,
            CmpOp::Lt => *x < *y,
            CmpOp::Le => *x <= *y,
            CmpOp::Gt => *x > *y,
            CmpOp::Ge => *x >= *y,
        },
        (Json::Str(s), Lit::Str(t)) => match op {
            CmpOp::Eq => str_eq(s.as_str(), t.as_str()),
            CmpOp::Ne => !str_eq(s.as_str(), t.as_str()),
            CmpOp::Lt => str_lt(s.as_str(), t.as_str()),
            CmpOp::Le => str_lt(s.as_str(), t.as_str()) || str_eq(s.as_str(), t.as_str()),
            CmpOp::Gt => str_lt(t.as_str(), s.as_str()),
            CmpOp::Ge => str_lt(t.as_str(), s.as_str()) || str_eq(s.as_str(), t.as_str()),
        },
        (Json::Bool(b), Lit::Bool(c)) => match op {
            CmpOp::Eq => *b == *c,
            CmpOp::Ne => *b != *c,
            _ => false,
        },
        _ => {
            proof {
                assert(!lit_matches(v.dv(), op, lit.v()));
            }
            false
        },
    }
}

/// Walk the path from step `i` on and test the reached values.
#[verifier::loop_isolation(false)]
fn eval_path_from(path: &Vec<PathSeg>, i: usize, v: &Json, op: CmpOp, lit: &Lit) -> (r: bool)
    requires
        i <= path@.len(),
    ensures
        r == eval_path(full_path_v(path).skip(i as int), v.dv(), op, lit.v()),
    decreases path@.len() - i, 1int,
{
    let ghost segs = full_path_v(path).skip(i as int);
    if i == path.len() {
        proof {
            assert(segs.len() == 0);
        }
        lit_matches_exec(v, op, lit)
    } else {
        proof {
            assert(segs[0] == full_path_v(path)[i as int]);
            assert(segs.drop_first() =~= full_path_v(path).skip(i + 1));
        }
        match &path[i] {
            PathSeg::Field(f) => match v.get_field(f.as_str()) {
                Some(x) => eval_path_from(path, i + 1, x, op, lit),
                None => {
                    proof {
                        assert(!eval_path(segs, v.dv(), op, lit.v()));
                    }
                    false
                },
            },
            PathSeg::AllElems => match v {
                Json::Arr(elems) => {
                    proof {
                        lemma_dv_seq_len(elems@);
                    }
                    let ghost evs = dv_seq(elems@);
                    let mut j: usize = 0;
                    while j < elems.len()
                        invariant
                            j <= elems@.len(),
                            forall|m: int|
                                0 <= m < j ==> !eval_path(
                                    full_path_v(path).skip(i + 1),
                                    #[trigger] evs[m],
                                    op,
                                    lit.v(),
                                ),
                        decreases elems@.len() - j, 0int,
                    {
                        if eval_path_from(path, i + 1, &elems[j], op, lit) {
                            proof {
                                lemma_any_path_exists(
                                    full_path_v(path).skip(i + 1),
                                    evs,
                                    op,
                                    lit.v(),
                                );
                                assert(evs[j as int] == elems@[j as int].dv());
                            }
                            return true;
                        }
                        proof {
                            assert(evs[j as int] == elems@[j as int].dv());
                        }
                        j = j + 1;
                    }
                    proof {
                        lemma_any_path_exists(full_path_v(path).skip(i + 1), evs, op, lit.v());
                    }
                    false
                },
                _ => {
                    proof {
                        assert(!eval_path(segs, v.dv(), op, lit.v()));
                    }
                    false
                },
            },
        }
    }
}

/// The shapes of a whole path.
pub open spec fn full_path_v(path: &Vec<PathSeg>) -> Seq<PathSegV> {
    Seq::new(path@.len(), |i: int| path@[i].v())
}

/// Whether a document value passes one comparison.
pub fn eval_comparison(c: &Comparison, v: &Json) -> (r: bool)
    ensures
        r == eval_path(c.v().path, v.dv(), c.v().op, c.v().lit),
{
    proof {
        assert(full_path_v(&c.path).skip(0) =~= c.v().path);
    }
    eval_path_from(&c.path, 0, v, c.op, &c.lit)
}

/// Whether a document value passes every comparison of a conjunction.
#[verifier::loop_isolation(false)]
pub fn eval_conj_exec(cs: &Vec<Comparison>, v: &Json) -> (r: bool)
    ensures
        r == eval_conj(Seq::new(cs@.len(), |i: int| cs@[i].v()), v.dv()),
{
    let ghost cv = Seq::new(cs@.len(), |i: int| cs@[i].v());
    let mut i: usize = 0;
    while i < cs.len()
        invariant
            i <= cs@.len(),
            forall|j: int|
                0 <= j < i ==> eval_path((#[trigger] cv[j]).path, v.dv(), cv[j].op, cv[j].lit),
        decreases cs@.len() - i,
    {
        if !eval_comparison(&cs[i], v) {
            proof {
                assert(cv[i as int] == cs@[i as int].v());
            }
            return false;
        }
        proof {
            assert(cv[i as int] == cs@[i as int].v());
        }
        i = i + 1;
    }
    true
}

/// Whether a document value passes the filter.
#[verifier::loop_isolation(false)]
pub fn eval_filter_exec(f: &QueryFilter, v: &Json) -> (r: bool)
    ensures
        r == eval_filter(f.v(), v.dv()),
{
    let mut i: usize = 0;
    while i < f.any.len()
        invariant
            i <= f.any@.len(),
            forall|j: int| 0 <= j < i ==> !eval_conj(#[trigger] f.v()[j], v.dv()),
        decreases f.any@.len() - i,
    {
        if eval_conj_exec(&f.any[i], v) {
            proof {
                assert(f.v()[i as int] =~= Seq::new(
                    f.any@[i as int]@.len(),
                    |j: int| f.any@[i as int]@[j].v(),
                ));
            }
            return true;
        }
        proof {
            assert(f.v()[i as int] =~= Seq::new(
                f.any@[i as int]@.len(),
                |j: int| f.any@[i as int]@[j].v(),
            ));
        }
        i = i + 1;
    }
    false
}

proof fn lemma_filter_docs_concat(
    ds: Seq<Seq<CmpV>>,
    a: Seq<(Seq<char>, JsonV)>,
    b: Seq<(Seq<char>, JsonV)>,
)
    ensures
        filter_docs(ds, a + b) == filter_docs(ds, a) + filter_docs(ds, b),
    decreases a.len(),
{
    if a.len() == 0 {
        assert(a + b =~= b);
        assert(filter_docs(ds, a) + filter_docs(ds, b) =~= filter_docs(ds, b));
    } else {
        lemma_filter_docs_concat(ds, a.drop_first(), b);
        assert((a + b).drop_first() =~= a.drop_first() + b);
        assert((a + b)[0] == a[0]);
        if eval_filter(ds, a[0].1) {
            assert(seq![a[0]] + (filter_docs(ds, a.drop_first()) + filter_docs(ds, b)) =~= (seq![
                a[0],
            ] + filter_docs(ds, a.drop_first())) + filter_docs(ds, b));
        }
    }
}

/// Apply a query to the documents of a column family, keys kept.
#[verifier::loop_isolation(false)]
pub fn select_docs(q: &Query, docs: Vec<(String, Json)>) -> (r: Vec<(String, Json)>)
    ensures
        dv_fields(r@) == select_v(q.v(), dv_fields(docs@)),
{
    proof {
        crate::json::lemma_dv_fields_len(docs@);
    }
    let ghost dvs = dv_fields(docs@);
    match q {
        Query::All => docs,
        Query::Index(i) => {
            let mut out: Vec<(String, Json)> = Vec::new();
            if *i < docs.len() {
                let entry = &docs[*i];
                let ghost preout = out@;
                out.push((entry.0.clone(), entry.1.deep_clone()));
                proof {
                    crate::json::lemma_dv_fields_push(preout, out@[0].0, out@[0].1);
                    assert(preout.push(out@[0]) =~= out@);
                    assert(out@[0].0@ == dvs[*i as int].0);
                    assert(out@[0].1.dv() == dvs[*i as int].1);
                    assert(dv_fields(out@) =~= seq![dvs[*i as int]]);
                }
            } else {
                proof {
                    assert(dv_fields(out@) =~= Seq::<(Seq<char>, JsonV)>::empty());
                }
            }
            out
        },
        Query::Filter(f) => {
            let mut out: Vec<(String, Json)> = Vec::new();
            let mut i: usize = 0;
            proof {
                assert(dv_fields(out@) =~= filter_docs(f.v(), dvs.take(0)));
            }
            while i < docs.len()
                invariant
                    i <= docs@.len(),
                    dv_fields(out@) == filter_docs(f.v(), dvs.take(i as int)),
                decreases docs@.len() - i,
            {
                let entry = &docs[i];
                proof {
                    assert(dvs[i as int] == (docs@[i as int].0@, docs@[i as int].1.dv()));
                    assert(dvs.take(i + 1) =~= dvs.take(i as int) + seq![dvs[i as int]]);
                    lemma_filter_docs_concat(f.v(), dvs.take(i as int), seq![dvs[i as int]]);
                    assert(seq![dvs[i as int]].drop_first() =~= Seq::<(Seq<char>, JsonV)>::empty());
                    assert(seq![dvs[i as int]][0] == dvs[i as int]);
                }
                if eval_filter_exec(f, &entry.1) {
                    let ghost preout = out@;
                    out.push((entry.0.clone(), entry.1.deep_clone()));
                    proof {
                        crate::json::lemma_dv_fields_push(preout, out@[out@.len() - 1].0,
                            out@[out@.len() - 1].1);
                        assert(preout.push(out@[out@.len() - 1]) =~= out@);
                        assert(out@[out@.len() - 1].0@ == dvs[i as int].0);
                        assert(out@[out@.len() - 1].1.dv() == dvs[i as int].1);
                        assert(filter_docs(f.v(), seq![dvs[i as int]]) =~= seq![dvs[i as int]]);
                        assert(dv_fields(out@) =~= filter_docs(f.v(), dvs.take(i + 1)));
                    }
                } else {
                    proof {
                        assert(filter_docs(f.v(), seq![dvs[i as int]]) =~= Seq::<(
                            Seq<char>,
                            JsonV,
                        )>::empty());
                        assert(dv_fields(out@) =~= filter_docs(f.v(), dvs.take(i + 1)));
                    }
                }
                i = i + 1;
            }
            proof {
                assert(dvs.take(docs@.len() as int) =~= dvs);
            }
            out
        },
    }
}


/// The canonical text of a query.
pub open spec fn render_v(q: QueryV) -> Seq<char> {
    match q {
        QueryV::All => seq!['$', '[', '*', ']'],
        QueryV::Index(i) => seq!['$', '['] + crate::numtext::int_str(i) + seq![']'],
        QueryV::Filter(ds) => seq!['$', '[', '?'] + render_disj(ds) + seq![']'],
    }
}

/// Conjunctions joined by `||`.
pub open spec fn render_disj(ds: Seq<Seq<CmpV>>) -> Seq<char>
    decreases ds.len(),
{
    if ds.len() == 0 {
        Seq::empty()
    } else if ds.len() == 1 {
        render_conj(ds[0])
    } else {
        render_conj(ds[0]) + seq!['|', '|'] + render_disj(ds.drop_first())
    }
}

/// Comparisons joined by `&&`.
pub open spec fn render_conj(cs: Seq<CmpV>) -> Seq<char>
    decreases cs.len(),
{
    if cs.len() == 0 {
        Seq::empty()
    } else if cs.len() == 1 {
        render_cmp(cs[0])
    } else {
        render_cmp(cs[0]) + seq!['&', '&'] + render_conj(cs.drop_first())
    }
}

pub open spec fn render_cmp(c: CmpV) -> Seq<char> {
    seq!['@'] + render_path(c.path) + render_op(c.op) + render_lit(c.lit)
}

pub open spec fn render_path(segs: Seq<PathSegV>) -> Seq<char>
    decreases segs.len(),
{
    if segs.len() == 0 {
        Seq::empty()
    } else {
        (match segs[0] {
            PathSegV::Field(f) => seq!['.'] + f,
            PathSegV::AllElems => seq!['[', '*', ']'],
        }) + render_path(segs.drop_first())
    }
}

pub open spec fn render_op(op: CmpOp) -> Seq<char> {
    match op {
        CmpOp::Eq => seq!['=', '='],
        CmpOp::Ne => seq!['!', '='],
        CmpOp::Lt => seq!['<'],
        CmpOp::Le => seq!['<', '='],
        CmpOp::Gt => seq!['>'],
        CmpOp::Ge => seq!['>', '='],
    }
}

pub open spec fn render_lit(lit: LitV) -> Seq<char> {
    match lit {
        LitV::Int(i) => crate::numtext::int_str(i),
        LitV::Str(s) => seq!['\''] + s + seq!['\''],
        LitV::Bool(b) => if b {
            seq!['t', 'r', 'u', 'e']
        } else {
            seq!['f', 'a', 'l', 's', 'e']
        },
    }
}

proof fn lemma_render_path_snoc(segs: Seq<PathSegV>, i: int)
    requires
        0 <= i < segs.len(),
    ensures
        render_path(segs.take(i + 1)) == render_path(segs.take(i)) + (match segs[i] {
            PathSegV::Field(f) => seq!['.'] + f,
            PathSegV::AllElems => seq!['[', '*', ']'],
        }),
    decreases i,
{
    let piece = (match segs[i] {
        PathSegV::Field(f) => seq!['.'] + f,
        PathSegV::AllElems => seq!['[', '*', ']'],
    });
    if i == 0 {
        assert(segs.take(1) =~= seq![segs[0]]);
        assert(segs.take(1).drop_first() =~= Seq::<PathSegV>::empty());
        assert(segs.take(0) =~= Seq::<PathSegV>::empty());
        assert(segs.take(1)[0] == segs[0]);
        assert(render_path(Seq::<PathSegV>::empty()) == Seq::<char>::empty());
        assert(render_path(segs.take(1)) == piece + render_path(segs.take(1).drop_first()));
        assert(piece + Seq::<char>::empty() =~= piece);
        assert(render_path(segs.take(0)) + piece =~= piece);
    } else {
        let t = segs.drop_first();
        lemma_render_path_snoc(t, i - 1);
        assert(segs.take(i + 1).drop_first() =~= t.take(i));
        assert(segs.take(i).drop_first() =~= t.take(i - 1));
        assert(segs.take(i + 1)[0] == segs[0]);
        assert(segs.take(i)[0] == segs[0]);
        assert(t[i - 1] == segs[i]);
        let head = (match segs[0] {
            PathSegV::Field(f) => seq!['.'] + f,
            PathSegV::AllElems => seq!['[', '*', ']'],
        });
        assert(render_path(segs.take(i + 1)) == head + render_path(t.take(i)));
        assert(render_path(segs.take(i)) == head + render_path(t.take(i - 1)));
        assert(head + (render_path(t.take(i - 1)) + piece) =~= (head + render_path(t.take(i - 1)))
            + piece);
    }
}

/// Append a string's characters.
fn push_str_chars(s: &str, out: &mut Vec<char>)
    ensures
        final(out)@ == old(out)@ + s@,
{
    let mut chars = crate::strutil::string_to_chars(s);
    out.append(&mut chars);
}

/// Append the canonical text of a path.
#[verifier::loop_isolation(false)]
fn render_path_exec(path: &Vec<PathSeg>, out: &mut Vec<char>)
    ensures
        final(out)@ == old(out)@ + render_path(full_path_v(path)),
{
    let ghost segs = full_path_v(path);
    let mut i: usize = 0;
    proof {
        assert(segs.take(0) =~= Seq::<PathSegV>::empty());
        assert(out@ + render_path(segs.take(0)) =~= out@);
    }
    while i < path.len()
        invariant
            i <= path@.len(),
            out@ == old(out)@ + render_path(segs.take(i as int)),
        decreases path@.len() - i,
    {
        proof {
            lemma_render_path_snoc(segs, i as int);
        }
        match &path[i] {
            PathSeg::Field(f) => {
                out.push('.');
                push_str_chars(f.as_str(), out);
                proof {
                    assert(segs[i as int] == path@[i as int].v());
                    assert(out@ =~= old(out)@ + render_path(segs.take(i + 1)));
                }
            },
            PathSeg::AllElems => {
                out.push('[');
                out.push('*');
                out.push(']');
                proof {
                    assert(segs[i as int] == path@[i as int].v());
                    assert(out@ =~= old(out)@ + render_path(segs.take(i + 1)));
                }
            },
        }
        i = i + 1;
    }
    proof {
        assert(segs.take(path@.len() as int) =~= segs);
    }
}

/// Append the canonical text of one comparison.
#[verifier::rlimit(60)]
#[verifier::spinoff_prover]
fn render_cmp_exec(c: &Comparison, out: &mut Vec<char>)
    ensures
        final(out)@ == old(out)@ + render_cmp(c.v()),
{
    out.push('@');
    render_path_exec(&c.path, out);
    proof {
        assert(c.v().path =~= full_path_v(&c.path));
    }
    match c.op {
        CmpOp::Eq => {
            out.push('=');
            out.push('=');
        },
        CmpOp::Ne => {
            out.push('!');
            out.push('=');
        },
        CmpOp::Lt => {
            out.push('<');
        },
        CmpOp::Le => {
            out.push('<');
            out.push('=');
        },
        CmpOp::Gt => {
            out.push('>');
        },
        CmpOp::Ge => {
            out.push('>');
            out.push('=');
        },
    }
    match &c.lit {
        Lit::Int(i) => {
            let mut digits = crate::numtext::i64_to_dec(*i);
            out.append(&mut digits);
        },
        Lit::Str(s) => {
            out.push('\'');
            push_str_chars(s.as_str(), out);
            out.push('\'');
        },
        Lit::Bool(b) => {
            if *b {
                out.push('t');
                out.push('r');
                out.push('u');
                out.push('e');
            } else {
                out.push('f');
                out.push('a');
                out.push('l');
                out.push('s');
                out.push('e');
            }
        },
    }
    proof {
        assert(out@ =~= old(out)@ + render_cmp(c.v()));
    }
}

proof fn lemma_render_conj_snoc(cs: Seq<CmpV>, i: int)
    requires
        0 < i < cs.len(),
    ensures
        render_conj(cs.take(i + 1)) == render_conj(cs.take(i)) + seq!['&', '&'] + render_cmp(cs[i]),
    decreases i,
{
    if i == 1 {
        assert(cs.take(2)[0] == cs[0]);
        assert(cs.take(2).drop_first() =~= seq![cs[1]]);
        assert(cs.take(2).len() == 2);
        assert(render_conj(cs.take(2)) == render_cmp(cs[0]) + seq!['&', '&'] + render_conj(
            seq![cs[1]],
        ));
        assert(seq![cs[1]][0] == cs[1]);
        assert(render_conj(seq![cs[1]]) == render_cmp(cs[1]));
        assert(cs.take(1) =~= seq![cs[0]]);
        assert(render_conj(cs.take(1)) == render_cmp(cs[0]));
    } else {
        let t = cs.drop_first();
        lemma_render_conj_snoc(t, i - 1);
        assert(cs.take(i + 1).drop_first() =~= t.take(i));
        assert(cs.take(i).drop_first() =~= t.take(i - 1));
        assert(cs.take(i + 1)[0] == cs[0]);
        assert(cs.take(i)[0] == cs[0]);
        assert(t[i - 1] == cs[i]);
        assert(cs.take(i + 1).len() == i + 1);
        let head = render_cmp(cs[0]);
        assert(render_conj(cs.take(i + 1)) == head + seq!['&', '&'] + render_conj(t.take(i)));
        assert(render_conj(cs.take(i)) == head + seq!['&', '&'] + render_conj(t.take(i - 1)));
        assert(head + seq!['&', '&'] + (render_conj(t.take(i - 1)) + seq!['&', '&'] + render_cmp(
            t[i - 1],
        )) =~= (head + seq!['&', '&'] + render_conj(t.take(i - 1))) + seq!['&', '&'] + render_cmp(
            t[i - 1],
        ));
    }
}

/// Append the canonical text of a conjunction.
#[verifier::loop_isolation(false)]
fn render_conj_exec(cs: &Vec<Comparison>, out: &mut Vec<char>)
    requires
        cs@.len() > 0,
    ensures
        final(out)@ == old(out)@ + render_conj(Seq::new(cs@.len(), |i: int| cs@[i].v())),
{
    let ghost cv = Seq::new(cs@.len(), |i: int| cs@[i].v());
    let mut i: usize = 0;
    while i < cs.len()
        invariant
            i <= cs@.len(),
            out@ == old(out)@ + (if i == 0 {
                Seq::<char>::empty()
            } else {
                render_conj(cv.take(i as int))
            }),
        decreases cs@.len() - i,
    {
        if i > 0 {
            out.push('&');
            out.push('&');
        }
        render_cmp_exec(&cs[i], out);
        proof {
            assert(cv[i as int] == cs@[i as int].v());
            if i == 0 {
                assert(cv.take(1) =~= seq![cv[0]]);
                assert(cv.take(1)[0] == cv[0]);
                assert(render_conj(cv.take(1)) == render_cmp(cv[0]));
                assert(out@ =~= old(out)@ + render_conj(cv.take(1)));
            } else {
                lemma_render_conj_snoc(cv, i as int);
                assert(out@ =~= old(out)@ + render_conj(cv.take(i + 1)));
            }
        }
        i = i + 1;
    }
    proof {
        assert(cv.take(cs@.len() as int) =~= cv);
    }
}

proof fn lemma_render_disj_snoc(ds: Seq<Seq<CmpV>>, i: int)
    requires
        0 < i < ds.len(),
    ensures
        render_disj(ds.take(i + 1)) == render_disj(ds.take(i)) + seq!['|', '|'] + render_conj(
            ds[i],
        ),
    decreases i,
{
    if i == 1 {
        assert(ds.take(2)[0] == ds[0]);
        assert(ds.take(2).drop_first() =~= seq![ds[1]]);
        assert(ds.take(2).len() == 2);
        assert(render_disj(ds.take(2)) == render_conj(ds[0]) + seq!['|', '|'] + render_disj(
            seq![ds[1]],
        ));
        assert(seq![ds[1]][0] == ds[1]);
        assert(render_disj(seq![ds[1]]) == render_conj(ds[1]));
        assert(ds.take(1) =~= seq![ds[0]]);
        assert(render_disj(ds.take(1)) == render_conj(ds[0]));
    } else {
        let t = ds.drop_first();
        lemma_render_disj_snoc(t, i - 1);
        assert(ds.take(i + 1).drop_first() =~= t.take(i));
        assert(ds.take(i).drop_first() =~= t.take(i - 1));
        assert(ds.take(i + 1)[0] == ds[0]);
        assert(ds.take(i)[0] == ds[0]);
        assert(t[i - 1] == ds[i]);
        assert(ds.take(i + 1).len() == i + 1);
        let head = render_conj(ds[0]);
        assert(render_disj(ds.take(i + 1)) == head + seq!['|', '|'] + render_disj(t.take(i)));
        assert(render_disj(ds.take(i)) == head + seq!['|', '|'] + render_disj(t.take(i - 1)));
        assert(head + seq!['|', '|'] + (render_disj(t.take(i - 1)) + seq!['|', '|'] + render_conj(
            t[i - 1],
        )) =~= (head + seq!['|', '|'] + render_disj(t.take(i - 1))) + seq!['|', '|'] + render_conj(
            t[i - 1],
        ));
    }
}

/// The canonical text of a query.
#[verifier::loop_isolation(false)]
pub fn render_query(q: &Query) -> (r: Vec<char>)
    requires
        q matches Query::Filter(f) ==> f.any@.len() > 0 && (forall|i: int|
            0 <= i < f.any@.len() ==> (#[trigger] f.any@[i])@.len() > 0),
    ensures
        r@ == render_v(q.v()),
{
    let mut out: Vec<char> = Vec::new();
    match q {
        Query::All => {
            out.push('$');
            out.push('[');
            out.push('*');
            out.push(']');
            proof {
                assert(out@ =~= render_v(QueryV::All));
            }
        },
        Query::Index(i) => {
            out.push('$');
            out.push('[');
            let big: u64 = (*i) as u64;
            let mut digits = crate::numtext::u64_to_dec(big);
            out.append(&mut digits);
            out.push(']');
            proof {
                assert(out@ =~= render_v(q.v()));
            }
        },
        Query::Filter(f) => {
            out.push('$');
            out.push('[');
            out.push('?');
            let ghost pre = out@;
            let ghost dv = f.v();
            let mut i: usize = 0;
            while i < f.any.len()
                invariant
                    i <= f.any@.len(),
                    f.any@.len() > 0,
                    forall|k: int| 0 <= k < f.any@.len() ==> (#[trigger] f.any@[k])@.len() > 0,
                    out@ == pre + (if i == 0 {
                        Seq::<char>::empty()
                    } else {
                        render_disj(dv.take(i as int))
                    }),
                decreases f.any@.len() - i,
            {
                if i > 0 {
                    out.push('|');
                    out.push('|');
                }
                render_conj_exec(&f.any[i], &mut out);
                proof {
                    assert(dv[i as int] =~= Seq::new(
                        f.any@[i as int]@.len(),
                        |j: int| f.any@[i as int]@[j].v(),
                    ));
                    if i == 0 {
                        assert(dv.take(1) =~= seq![dv[0]]);
                        assert(dv.take(1)[0] == dv[0]);
                        assert(render_disj(dv.take(1)) == render_conj(dv[0]));
                        assert(out@ =~= pre + render_disj(dv.take(1)));
                    } else {
                        lemma_render_disj_snoc(dv, i as int);
                        assert(out@ =~= pre + render_disj(dv.take(i + 1)));
                    }
                }
                i = i + 1;
            }
            out.push(']');
            proof {
                assert(dv.take(f.any@.len() as int) =~= dv);
                assert(out@ =~= render_v(q.v()));
            }
        },
    }
    out
}


/// Read the characters of a range into a string.
#[verifier::loop_isolation(false)]
fn range_to_string(chars: &Vec<char>, start: usize, end: usize) -> (r: String)
    requires
        start <= end <= chars@.len(),
    ensures
        r@ == chars@.subrange(start as int, end as int),
{
    let mut sub: Vec<char> = Vec::new();
    let mut i: usize = start;
    proof {
        assert(sub@ =~= chars@.subrange(start as int, start as int));
    }
    while i < end
        invariant
            start <= i <= end,
            sub@ == chars@.subrange(start as int, i as int),
        decreases end - i,
    {
        sub.push(chars[i]);
        proof {
            assert(sub@ =~= chars@.subrange(start as int, i + 1));
        }
        i = i + 1;
    }
    crate::strutil::chars_to_string(&sub)
}

/// Parse the digits of a range as an index: the canonical text of any
/// representable index is recovered.
fn parse_index(chars: &Vec<char>, start: usize, end: usize) -> (r: Option<usize>)
    requires
        start <= end <= chars@.len(),
    ensures
        forall|v: int|
            0 <= v <= usize::MAX as int && chars@.subrange(start as int, end as int) == (
            #[trigger] crate::numtext::nat_str(v as nat)) ==> r == Some(v as usize),
{
    let mut digits: Vec<char> = Vec::new();
    let mut i: usize = start;
    proof {
        assert(digits@ =~= chars@.subrange(start as int, start as int));
    }
    while i < end
        invariant
            start <= i <= end,
            end <= chars@.len(),
            digits@ == chars@.subrange(start as int, i as int),
        decreases end - i,
    {
        digits.push(chars[i]);
        proof {
            assert(digits@ =~= chars@.subrange(start as int, i + 1));
        }
        i = i + 1;
    }
    let ghost region = chars@.subrange(start as int, end as int);
    match crate::numtext::parse_u64(&digits) {
        Some(v) => {
            if v <= usize::MAX as u64 {
                proof {
                    assert forall|w: int|
                        0 <= w <= usize::MAX as int && region == (
                        #[trigger] crate::numtext::nat_str(w as nat)) implies v as usize == w by {
                        crate::numtext::lemma_dec_val_nat_str(w as nat);
                    }
                }
                Some(v as usize)
            } else {
                proof {
                    assert forall|w: int|
                        0 <= w <= usize::MAX as int && region == (
                        #[trigger] crate::numtext::nat_str(w as nat)) implies false by {
                        crate::numtext::lemma_dec_val_nat_str(w as nat);
                    }
                }
                None
            }
        },
        None => {
            proof {
                assert forall|w: int|
                    0 <= w <= usize::MAX as int && region == (
                    #[trigger] crate::numtext::nat_str(w as nat)) implies false by {
                    crate::numtext::lemma_nat_str_digits(w as nat);
                    crate::numtext::lemma_dec_val_nat_str(w as nat);
                }
            }
            None
        },
    }
}

/// Parse the literal of a comparison: a quoted string, an integer, or a
/// boolean. The rendered text of any recoverable literal is recovered.
fn parse_lit(chars: &Vec<char>, start: usize, end: usize) -> (r: Option<Lit>)
    requires
        start <= end <= chars@.len(),
    ensures
        forall|lit: LitV|
            lit_recoverable(lit) && chars@.subrange(start as int, end as int) == (
            #[trigger] render_lit(lit)) ==> (r matches Some(l) && l.v() == lit),
{
    let ghost region = chars@.subrange(start as int, end as int);
    proof {
        assert forall|lit: LitV|
            lit_recoverable(lit) && region == (#[trigger] render_lit(lit)) implies lit_head_agrees(
            lit,
            region,
        ) by {
            lemma_render_lit_chars(lit);
            match lit {
                LitV::Int(v) => {
                    if v >= 0 {
                        crate::numtext::lemma_nat_str_digits(v as nat);
                    } else {
                        crate::numtext::lemma_nat_str_digits((-v) as nat);
                        assert forall|k: int| 1 <= k < region.len() implies
                            crate::numtext::is_dec_digit(#[trigger] region[k]) by {
                            assert(region[k] == crate::numtext::nat_str((-v) as nat)[k - 1]);
                        }
                    }
                },
                LitV::Str(ss) => {
                    assert(region[region.len() - 1] == '\'');
                },
                LitV::Bool(_) => {},
            }
        }
    }
    if start >= end {
        proof {
            assert forall|lit: LitV|
                lit_recoverable(lit) && region == (#[trigger] render_lit(lit)) implies false by {
                lemma_render_lit_chars(lit);
                assert(region.len() == 0);
            }
        }
        return None;
    }
    let len = end - start;
    if chars[start] == '\'' {
        if len < 2 || chars[end - 1] != '\'' {
            proof {
                assert forall|lit: LitV|
                    lit_recoverable(lit) && region == (#[trigger] render_lit(lit)) implies false
                by {
                    assert(region[0] == chars@[start as int]);
                    assert(region[region.len() - 1] == chars@[end - 1]);
                }
            }
            return None;
        }
        let middle = range_to_string(chars, start + 1, end - 1);
        proof {
            assert forall|lit: LitV|
                lit_recoverable(lit) && region == (#[trigger] render_lit(lit)) implies
                Lit::Str(middle).v() == lit by {
                assert(region[0] == chars@[start as int]);
                match lit {
                    LitV::Str(ss) => {
                        assert(render_lit(lit) == seq!['\''] + ss + seq!['\'']);
                        assert(middle@ =~= ss) by {
                            assert forall|k: int| 0 <= k < ss.len() implies middle@[k] == ss[k] by {
                                assert(middle@[k] == chars@[start + 1 + k]);
                                assert(chars@[start + 1 + k] == region[1 + k]);
                            }
                        }
                    },
                    _ => {},
                }
            }
        }
        return Some(Lit::Str(middle));
    }
    if len == 4 && chars[start] == 't' && chars[start + 1] == 'r' && chars[start + 2] == 'u'
        && chars[start + 3] == 'e' {
        proof {
            assert forall|lit: LitV|
                lit_recoverable(lit) && region == (#[trigger] render_lit(lit)) implies
                Lit::Bool(true).v() == lit by {
                assert(region[0] == chars@[start as int]);
            }
        }
        return Some(Lit::Bool(true));
    }
    if len == 5 && chars[start] == 'f' && chars[start + 1] == 'a' && chars[start + 2] == 'l'
        && chars[start + 3] == 's' && chars[start + 4] == 'e' {
        proof {
            assert forall|lit: LitV|
                lit_recoverable(lit) && region == (#[trigger] render_lit(lit)) implies
                Lit::Bool(false).v() == lit by {
                assert(region[0] == chars@[start as int]);
            }
        }
        return Some(Lit::Bool(false));
    }
    let negative = chars[start] == '-';
    let digit_start = if negative {
        start + 1
    } else {
        start
    };
    if digit_start >= end {
        proof {
            assert forall|lit: LitV|
                lit_recoverable(lit) && region == (#[trigger] render_lit(lit)) implies false by {
                assert(region[0] == chars@[start as int]);
            }
        }
        return None;
    }
    let mut digits: Vec<char> = Vec::new();
    let mut i: usize = digit_start;
    proof {
        assert(digits@ =~= chars@.subrange(digit_start as int, digit_start as int));
    }
    while i < end
        invariant
            digit_start <= i <= end,
            end <= chars@.len(),
            digits@ == chars@.subrange(digit_start as int, i as int),
        decreases end - i,
    {
        digits.push(chars[i]);
        proof {
            assert(digits@ =~= chars@.subrange(digit_start as int, i + 1));
        }
        i = i + 1;
    }
    proof {
        assert forall|lit: LitV|
            lit_recoverable(lit) && region == (#[trigger] render_lit(lit)) implies (lit matches
            LitV::Int(v) && digits@ == crate::numtext::nat_str(
            (if v >= 0 {
                v
            } else {
                -v
            }) as nat,
        ) && negative == (v < 0)) by {
            assert(region[0] == chars@[start as int]);
            match lit {
                LitV::Int(v) => {
                    crate::numtext::lemma_nat_str_digits(
                        (if v >= 0 {
                            v
                        } else {
                            -v
                        }) as nat,
                    );
                    if v >= 0 {
                        assert(digits@ =~= crate::numtext::nat_str(v as nat)) by {
                            assert forall|k: int|
                                0 <= k < region.len() implies digits@[k] == region[k] by {
                                assert(digits@[k] == chars@[start + k]);
                            }
                        }
                    } else {
                        assert(render_lit(lit) == seq!['-'] + crate::numtext::nat_str((-v) as nat));
                        assert(digits@ =~= crate::numtext::nat_str((-v) as nat)) by {
                            assert forall|k: int|
                                0 <= k < digits@.len() implies digits@[k] == region[1 + k] by {
                                assert(digits@[k] == chars@[start + 1 + k]);
                            }
                        }
                    }
                },
                _ => {},
            }
        }
    }
    match crate::numtext::parse_u64(&digits) {
        Some(v) => {
            if negative {
                if v <= i64::MAX as u64 {
                    proof {
                        lemma_lit_value_pinned(region, digits@, true, v);
                    }
                    Some(Lit::Int(-(v as i64)))
                } else {
                    proof {
                        lemma_lit_overflow_refuted(region, digits@, v as int);
                    }
                    None
                }
            } else {
                if v <= i64::MAX as u64 {
                    proof {
                        lemma_lit_value_pinned(region, digits@, false, v);
                    }
                    Some(Lit::Int(v as i64))
                } else {
                    proof {
                        lemma_lit_overflow_refuted(region, digits@, v as int);
                    }
                    None
                }
            }
        },
        None => {
            proof {
                assert forall|lit: LitV|
                    lit_recoverable(lit) && region == (#[trigger] render_lit(lit)) implies false
                by {
                    match lit {
                        LitV::Int(v) => {
                            let m = (if v >= 0 {
                                v
                            } else {
                                -v
                            }) as nat;
                            crate::numtext::lemma_nat_str_digits(m);
                            crate::numtext::lemma_dec_val_nat_str(m);
                        },
                        _ => {},
                    }
                }
            }
            None
        },
    }
}

/// The first character of a rendered literal decides its form.
spec fn lit_head_agrees(lit: LitV, region: Seq<char>) -> bool {
    match lit {
        LitV::Int(v) => region.len() >= 1 && (if v >= 0 {
            crate::numtext::is_dec_digit(region[0])
        } else {
            region[0] == '-' && (forall|k: int|
                1 <= k < region.len() ==> crate::numtext::is_dec_digit(#[trigger] region[k]))
        }),
        LitV::Str(s) => region.len() >= 2 && region[0] == '\'' && region[region.len() - 1] == '\'',
        LitV::Bool(b) => if b {
            region == seq!['t', 'r', 'u', 'e']
        } else {
            region == seq!['f', 'a', 'l', 's', 'e']
        },
    }
}

/// A parsed magnitude within range pins the recoverable integer.
proof fn lemma_lit_value_pinned(region: Seq<char>, digits: Seq<char>, negative: bool, v: u64)
    requires
        v <= i64::MAX as u64,
        forall|lit: LitV|
            lit_recoverable(lit) && region == (#[trigger] render_lit(lit)) ==> (lit matches
            LitV::Int(w) && digits == crate::numtext::nat_str(
            (if w >= 0 {
                w
            } else {
                -w
            }) as nat,
        ) && negative == (w < 0)),
        v as int == crate::numtext::dec_val(digits),
    ensures
        forall|lit: LitV|
            lit_recoverable(lit) && region == (#[trigger] render_lit(lit)) ==> (if negative {
                Lit::Int((-(v as int)) as i64)
            } else {
                Lit::Int(v as i64)
            }).v() == lit,
{
    assert forall|lit: LitV|
        lit_recoverable(lit) && region == (#[trigger] render_lit(lit)) implies (if negative {
        Lit::Int((-(v as int)) as i64)
    } else {
        Lit::Int(v as i64)
    }).v() == lit by {
        let w = lit->Int_0;
        let m = (if w >= 0 {
            w
        } else {
            -w
        }) as nat;
        crate::numtext::lemma_dec_val_nat_str(m);
        assert(v as int == m);
    }
}

/// A magnitude past the integer range refutes recoverability.
proof fn lemma_lit_overflow_refuted(region: Seq<char>, digits: Seq<char>, v: int)
    requires
        v > i64::MAX as int,
        forall|lit: LitV|
            lit_recoverable(lit) && region == (#[trigger] render_lit(lit)) ==> (lit matches
            LitV::Int(w) && digits == crate::numtext::nat_str(
            (if w >= 0 {
                w
            } else {
                -w
            }) as nat,
        )),
        v == crate::numtext::dec_val(digits),
    ensures
        forall|lit: LitV| lit_recoverable(lit) ==> region != (#[trigger] render_lit(lit)),
{
    assert forall|lit: LitV|
        lit_recoverable(lit) && region == (#[trigger] render_lit(lit)) implies false by {
        let w = lit->Int_0;
        let m = (if w >= 0 {
            w
        } else {
            -w
        }) as nat;
        crate::numtext::lemma_dec_val_nat_str(m);
        assert(v == m);
    }
}

/// The first step or wildcard delimiter at or after `from`, or `end`./// The first step or wildcard delimiter at or after `from`, or `end`.
fn scan_field_end(chars: &Vec<char>, from: usize, end: usize) -> (j: usize)
    requires
        from <= end <= chars@.len(),
    ensures
        from <= j <= end,
        forall|k: int| from <= k < j ==> (#[trigger] chars@[k]) != '.' && chars@[k] != '[',
        j < end ==> chars@[j as int] == '.' || chars@[j as int] == '[',
{
    let mut j: usize = from;
    while j < end && chars[j] != '.' && chars[j] != '['
        invariant
            from <= j <= end,
            end <= chars@.len(),
            forall|k: int| from <= k < j ==> (#[trigger] chars@[k]) != '.' && chars@[k] != '[',
        decreases end - j,
    {
        j = j + 1;
    }
    j
}

/// Parse the steps of a path: `.field` and `[*]`, zero or more. The
/// rendered text of any recoverable step sequence is recovered.
fn parse_segs(chars: &Vec<char>, start: usize, end: usize) -> (r: Option<Vec<PathSeg>>)
    requires
        start <= end <= chars@.len(),
    ensures
        forall|p: Seq<PathSegV>|
            path_recoverable(p) && chars@.subrange(start as int, end as int) == (
            #[trigger] render_path(p)) ==> (r matches Some(segs) && full_path_v(&segs) == p),
    decreases end - start,
{
    let ghost region = chars@.subrange(start as int, end as int);
    if start == end {
        let segs: Vec<PathSeg> = Vec::new();
        proof {
            assert forall|p: Seq<PathSegV>|
                path_recoverable(p) && region == (#[trigger] render_path(p)) implies full_path_v(
                &segs,
            ) == p by {
                lemma_render_path_chars(p);
                assert(p.len() == 0);
                assert(full_path_v(&segs) =~= p);
            }
        }
        return Some(segs);
    }
    if chars[start] == '.' {
        let j = scan_field_end(chars, start + 1, end);
        proof {
            assert forall|p: Seq<PathSegV>|
                path_recoverable(p) && region == (#[trigger] render_path(p)) implies (p.len() >= 1
                && (p[0] matches PathSegV::Field(f) && j == start + 1 + f.len()
                && region.subrange(1, 1 + f.len() as int) == f)) by {
                lemma_render_path_chars(p);
                assert(p.len() >= 1);
                match p[0] {
                    PathSegV::Field(f) => {
                        let t = p.drop_first();
                        assert(path_recoverable(t)) by {
                            assert(forall|k: int| 0 <= k < t.len() ==> t[k] == p[k + 1]);
                        }
                        lemma_render_path_chars(t);
                        let head = seq!['.'] + f;
                        assert(render_path(p) == head + render_path(t));
                        assert forall|k: int| 0 <= k < f.len() implies region[1 + k] == f[k] by {
                            assert(region[1 + k] == head[1 + k]);
                        }
                        assert(region.subrange(1, 1 + f.len() as int) =~= f);
                        // The scan runs past every field character and
                        // stops at the next step or the end.
                        assert forall|k: int|
                            start + 1 <= k < start + 1 + f.len() implies (#[trigger] chars@[k])
                            != '.' && chars@[k] != '[' by {
                            assert(chars@[k] == region[k - start]);
                            assert(region[k - start] == f[k - start - 1]);
                            assert(!is_special(f[k - start - 1]));
                        }
                        assert(j >= start + 1 + f.len());
                        if t.len() >= 1 {
                            assert(region[1 + f.len() as int] == render_path(t)[0]);
                            assert(chars@[start + 1 + f.len() as int] == region[1 + f.len() as int]);
                            assert(j <= start + 1 + f.len());
                        } else {
                            assert(render_path(t).len() == 0);
                            assert(region.len() == 1 + f.len());
                            assert(j <= end);
                        }
                    },
                    PathSegV::AllElems => {
                        assert(render_path(p)[0] == '[');
                        assert(region[0] == chars@[start as int]);
                    },
                }
            }
        }
        if j == start + 1 {
            proof {
                assert forall|p: Seq<PathSegV>|
                    path_recoverable(p) && region == (#[trigger] render_path(p)) implies false by {
                    assert(p[0] matches PathSegV::Field(f) && j == start + 1 + f.len());
                }
            }
            return None;
        }
        let field = range_to_string(chars, start + 1, j);
        match parse_segs(chars, j, end) {
            Some(mut segs) => {
                let ghost pre = segs@;
                segs.insert(0, PathSeg::Field(field));
                proof {
                    assert forall|p: Seq<PathSegV>|
                        path_recoverable(p) && region == (#[trigger] render_path(p)) implies
                        full_path_v(&segs) == p by {
                        let f = p[0]->Field_0;
                        let t = p.drop_first();
                        assert(path_recoverable(t)) by {
                            assert(forall|k: int| 0 <= k < t.len() ==> t[k] == p[k + 1]);
                        }
                        assert(chars@.subrange(j as int, end as int) =~= render_path(t)) by {
                            assert(render_path(p) == (seq!['.'] + f) + render_path(t));
                            assert(j == start + 1 + f.len());
                            assert(region.len() == render_path(p).len());
                            assert(render_path(p).len() == 1 + f.len() + render_path(t).len());
                            assert(end - j == render_path(t).len());
                            assert forall|k: int|
                                0 <= k < render_path(t).len() implies chars@.subrange(
                                j as int,
                                end as int,
                            )[k] == render_path(t)[k] by {
                                assert(chars@.subrange(j as int, end as int)[k] == chars@[j + k]);
                                assert(chars@[j + k] == region[j - start + k]);
                                assert(region[j - start + k] == render_path(p)[1 + f.len() + k]);
                            }
                        }
                        assert(field@ == chars@.subrange(start + 1, j as int));
                        assert(field@ =~= f) by {
                            assert forall|k: int| 0 <= k < f.len() implies field@[k] == f[k] by {
                                assert(field@[k] == chars@[start + 1 + k]);
                                assert(chars@[start + 1 + k] == region[1 + k]);
                                assert(region.subrange(1, 1 + f.len() as int)[k] == region[1 + k]);
                            }
                        }
                        assert(full_path_v(&segs) =~= p) by {
                            assert(segs@[0].v() == PathSegV::Field(f));
                            assert forall|k: int|
                                0 <= k < p.len() implies full_path_v(&segs)[k] == p[k] by {
                                if k > 0 {
                                    assert(segs@[k] == pre[k - 1]);
                                    assert(pre[k - 1].v() == t[k - 1]);
                                    assert(t[k - 1] == p[k]);
                                }
                            }
                        }
                    }
                }
                Some(segs)
            },
            None => {
                proof {
                    assert forall|p: Seq<PathSegV>|
                        path_recoverable(p) && region == (#[trigger] render_path(p)) implies false
                    by {
                        let f = p[0]->Field_0;
                        let t = p.drop_first();
                        assert(path_recoverable(t)) by {
                            assert(forall|k: int| 0 <= k < t.len() ==> t[k] == p[k + 1]);
                        }
                        assert(chars@.subrange(j as int, end as int) =~= render_path(t)) by {
                            assert(render_path(p) == (seq!['.'] + f) + render_path(t));
                            assert(j == start + 1 + f.len());
                            assert(region.len() == render_path(p).len());
                            assert(render_path(p).len() == 1 + f.len() + render_path(t).len());
                            assert(end - j == render_path(t).len());
                            assert forall|k: int|
                                0 <= k < render_path(t).len() implies chars@.subrange(
                                j as int,
                                end as int,
                            )[k] == render_path(t)[k] by {
                                assert(chars@.subrange(j as int, end as int)[k] == chars@[j + k]);
                                assert(chars@[j + k] == region[j - start + k]);
                                assert(region[j - start + k] == render_path(p)[1 + f.len() + k]);
                            }
                        }
                    }
                }
                None
            },
        }
    } else if chars[start] == '[' {
        proof {
            assert forall|p: Seq<PathSegV>|
                path_recoverable(p) && region == (#[trigger] render_path(p)) implies (p.len() >= 1
                && p[0] == PathSegV::AllElems && region.len() >= 3 && region[1] == '*' && region[2]
                == ']') by {
                lemma_render_path_chars(p);
                assert(p.len() >= 1);
                match p[0] {
                    PathSegV::Field(f) => {
                        assert(render_path(p)[0] == '.');
                        assert(region[0] == chars@[start as int]);
                    },
                    PathSegV::AllElems => {
                        let t = p.drop_first();
                        assert(render_path(p) == seq!['[', '*', ']'] + render_path(t));
                    },
                }
            }
        }
        if end - start < 3 || chars[start + 1] != '*' || chars[start + 2] != ']' {
            proof {
                assert forall|p: Seq<PathSegV>|
                    path_recoverable(p) && region == (#[trigger] render_path(p)) implies false by {
                    assert(region[1] == chars@[start + 1] && region[2] == chars@[start + 2]);
                }
            }
            return None;
        }
        match parse_segs(chars, start + 3, end) {
            Some(mut segs) => {
                let ghost pre = segs@;
                segs.insert(0, PathSeg::AllElems);
                proof {
                    assert forall|p: Seq<PathSegV>|
                        path_recoverable(p) && region == (#[trigger] render_path(p)) implies
                        full_path_v(&segs) == p by {
                        let t = p.drop_first();
                        assert(path_recoverable(t)) by {
                            assert(forall|k: int| 0 <= k < t.len() ==> t[k] == p[k + 1]);
                        }
                        assert(chars@.subrange(start + 3, end as int) =~= render_path(t)) by {
                            assert(render_path(p) == seq!['[', '*', ']'] + render_path(t));
                            assert forall|k: int|
                                0 <= k < render_path(t).len() implies chars@.subrange(
                                start + 3,
                                end as int,
                            )[k] == render_path(t)[k] by {
                                assert(chars@.subrange(start + 3, end as int)[k] == region[3 + k]);
                                assert(region[3 + k] == render_path(p)[3 + k]);
                            }
                        }
                        assert(full_path_v(&segs) =~= p) by {
                            assert(segs@[0].v() == PathSegV::AllElems);
                            assert forall|k: int|
                                0 <= k < p.len() implies full_path_v(&segs)[k] == p[k] by {
                                if k > 0 {
                                    assert(segs@[k] == pre[k - 1]);
                                    assert(pre[k - 1].v() == t[k - 1]);
                                    assert(t[k - 1] == p[k]);
                                }
                            }
                        }
                    }
                }
                Some(segs)
            },
            None => {
                proof {
                    assert forall|p: Seq<PathSegV>|
                        path_recoverable(p) && region == (#[trigger] render_path(p)) implies false
                    by {
                        let t = p.drop_first();
                        assert(path_recoverable(t)) by {
                            assert(forall|k: int| 0 <= k < t.len() ==> t[k] == p[k + 1]);
                        }
                        assert(chars@.subrange(start + 3, end as int) =~= render_path(t)) by {
                            assert(render_path(p) == seq!['[', '*', ']'] + render_path(t));
                            assert forall|k: int|
                                0 <= k < render_path(t).len() implies chars@.subrange(
                                start + 3,
                                end as int,
                            )[k] == render_path(t)[k] by {
                                assert(chars@.subrange(start + 3, end as int)[k] == region[3 + k]);
                                assert(region[3 + k] == render_path(p)[3 + k]);
                            }
                        }
                    }
                }
                None
            },
        }
    } else {
        proof {
            assert forall|p: Seq<PathSegV>|
                path_recoverable(p) && region == (#[trigger] render_path(p)) implies false by {
                lemma_render_path_chars(p);
                assert(region[0] == chars@[start as int]);
            }
        }
        None
    }
}

/// Parse one comparison `@<path><op><literal>`. The rendered text of any
/// recoverable comparison is recovered.
#[verifier::rlimit(60)]
#[verifier::spinoff_prover]
fn parse_comparison(chars: &Vec<char>, start: usize, end: usize) -> (r: Option<Comparison>)
    requires
        start <= end <= chars@.len(),
    ensures
        forall|cv: CmpV|
            cmp_recoverable(cv) && chars@.subrange(start as int, end as int) == (
            #[trigger] render_cmp(cv)) ==> (r matches Some(cmp) && cmp.v() == cv),
{
    let ghost region = chars@.subrange(start as int, end as int);
    if start >= end || chars[start] != '@' {
        proof {
            assert forall|cv: CmpV|
                cmp_recoverable(cv) && region == (#[trigger] render_cmp(cv)) implies false by {
                lemma_render_cmp_chars(cv);
                assert(region[0] == chars@[start as int]);
            }
        }
        return None;
    }
    // The operator is the first comparison character after the path.
    let mut op_pos: usize = start + 1;
    while op_pos < end && chars[op_pos] != '=' && chars[op_pos] != '!' && chars[op_pos] != '<'
        && chars[op_pos] != '>'
        invariant
            start + 1 <= op_pos <= end,
            end <= chars@.len(),
            forall|k: int| start + 1 <= k < op_pos ==> !op_char(#[trigger] chars@[k]),
        decreases end - op_pos,
    {
        op_pos = op_pos + 1;
    }
    proof {
        assert forall|cv: CmpV|
            cmp_recoverable(cv) && region == (#[trigger] render_cmp(cv)) implies scan_facts(
            cv,
            chars@,
            start as int,
            end as int,
            op_pos as int,
        ) by {
            lemma_render_cmp_chars(cv);
            lemma_render_lit_chars(cv.lit);
            let rp = render_path(cv.path);
            let ro = render_op(cv.op);
            let rl = render_lit(cv.lit);
            assert(region.len() == 1 + rp.len() + ro.len() + rl.len());
            assert forall|k: int| 0 <= k < region.len() implies region[k] == chars@[start + k] by {
            }
            assert(op_char(region[1 + rp.len() as int]));
            assert(chars@[start + 1 + rp.len() as int] == region[1 + rp.len() as int]);
            assert(op_pos <= start + 1 + rp.len());
            assert forall|k: int| start + 1 <= k < start + 1 + rp.len() implies !op_char(
                #[trigger] chars@[k],
            ) by {
                assert(chars@[k] == region[k - start]);
                assert(region.subrange(1, 1 + rp.len() as int)[k - start - 1] == region[k - start]);
            }
            assert(op_pos >= start + 1 + rp.len());
            assert(ro[0] == region[1 + rp.len() as int]);
            if ro.len() == 2 {
                assert(region[1 + rp.len() as int + 1] == ro[1]);
            } else {
                assert(region[1 + rp.len() as int + 1] == rl[0]);
            }
        }
    }
    if op_pos >= end {
        proof {
            assert forall|cv: CmpV|
                cmp_recoverable(cv) && region == (#[trigger] render_cmp(cv)) implies false by {
                assert(scan_facts(cv, chars@, start as int, end as int, op_pos as int));
            }
        }
        return None;
    }
    let c = chars[op_pos];
    let (op, op_len): (CmpOp, usize) = if c == '=' {
        if op_pos + 1 < end && chars[op_pos + 1] == '=' {
            (CmpOp::Eq, 2)
        } else {
            proof {
                assert forall|cv: CmpV|
                    cmp_recoverable(cv) && region == (#[trigger] render_cmp(cv)) implies false by {
                    assert(scan_facts(cv, chars@, start as int, end as int, op_pos as int));
                    assert(cv.op == CmpOp::Eq);
                }
            }
            return None;
        }
    } else if c == '!' {
        if op_pos + 1 < end && chars[op_pos + 1] == '=' {
            (CmpOp::Ne, 2)
        } else {
            proof {
                assert forall|cv: CmpV|
                    cmp_recoverable(cv) && region == (#[trigger] render_cmp(cv)) implies false by {
                    assert(scan_facts(cv, chars@, start as int, end as int, op_pos as int));
                    assert(cv.op == CmpOp::Ne);
                }
            }
            return None;
        }
    } else if c == '<' {
        if op_pos + 1 < end && chars[op_pos + 1] == '=' {
            (CmpOp::Le, 2)
        } else {
            (CmpOp::Lt, 1)
        }
    } else {
        if op_pos + 1 < end && chars[op_pos + 1] == '=' {
            (CmpOp::Ge, 2)
        } else {
            (CmpOp::Gt, 1)
        }
    };
    proof {
        assert forall|cv: CmpV|
            cmp_recoverable(cv) && region == (#[trigger] render_cmp(cv)) implies (op == cv.op
            && op_len == render_op(cv.op).len() && chars@.subrange(start + 1, op_pos as int)
            == render_path(cv.path) && chars@.subrange(op_pos + op_len, end as int) == render_lit(
            cv.lit,
        )) by {
            assert(scan_facts(cv, chars@, start as int, end as int, op_pos as int));
            lemma_render_cmp_chars(cv);
            let rp = render_path(cv.path);
            let ro = render_op(cv.op);
            let rl = render_lit(cv.lit);
            match cv.op {
                CmpOp::Eq => {},
                CmpOp::Ne => {},
                CmpOp::Lt => {},
                CmpOp::Le => {},
                CmpOp::Gt => {},
                CmpOp::Ge => {},
            }
            assert(op == cv.op && op_len == ro.len());
            assert(chars@.subrange(start + 1, op_pos as int) =~= rp) by {
                assert forall|k: int|
                    0 <= k < rp.len() implies chars@.subrange(start + 1, op_pos as int)[k] == rp[k]
                by {
                    assert(chars@.subrange(start + 1, op_pos as int)[k] == chars@[start + 1 + k]);
                    assert(chars@[start + 1 + k] == region[1 + k]);
                    assert(region.subrange(1, 1 + rp.len() as int)[k] == region[1 + k]);
                }
            }
            assert(chars@.subrange(op_pos + op_len, end as int) =~= rl) by {
                assert forall|k: int|
                    0 <= k < rl.len() implies chars@.subrange(op_pos + op_len, end as int)[k]
                    == rl[k] by {
                    assert(chars@.subrange(op_pos + op_len, end as int)[k] == chars@[op_pos + op_len
                        + k]);
                    assert(chars@[op_pos + op_len + k] == region[op_pos - start + op_len + k]);
                    assert(region.subrange(
                        1 + rp.len() as int + ro.len() as int,
                        region.len() as int,
                    )[k] == region[1 + rp.len() + ro.len() + k]);
                }
            }
        }
    }
    let path = match parse_segs(chars, start + 1, op_pos) {
        Some(p) => p,
        None => {
            return None;
        },
    };
    if path.len() == 0 {
        proof {
            assert forall|cv: CmpV|
                cmp_recoverable(cv) && region == (#[trigger] render_cmp(cv)) implies false by {
                assert(full_path_v(&path) == cv.path);
            }
        }
        return None;
    }
    let lit = match parse_lit(chars, op_pos + op_len, end) {
        Some(l) => l,
        None => {
            return None;
        },
    };
    let result = Comparison { path, op, lit };
    proof {
        assert forall|cv: CmpV|
            cmp_recoverable(cv) && region == (#[trigger] render_cmp(cv)) implies result.v() == cv
        by {
            assert(full_path_v(&result.path) == cv.path);
            assert(result.lit.v() == cv.lit);
            assert(result.v().path =~= cv.path);
        }
    }
    Some(result)
}

/// What the operator scan finds on the rendered text of a recoverable
/// comparison: it stops exactly where the path ends, at the operator's
/// first character, and what follows decides the operator's width.
spec fn scan_facts(cv: CmpV, text: Seq<char>, start: int, end: int, op_pos: int) -> bool {
    let rp = render_path(cv.path);
    let ro = render_op(cv.op);
    let rl = render_lit(cv.lit);
    &&& op_pos == start + 1 + rp.len()
    &&& op_pos + ro.len() + rl.len() == end
    &&& op_pos < end
    &&& text[op_pos] == ro[0]
    &&& (ro.len() == 2 ==> op_pos + 1 < end && text[op_pos + 1] == ro[1])
    &&& (ro.len() == 1 ==> op_pos + 1 < end && text[op_pos + 1] == rl[0] && !op_char(
        text[op_pos + 1],
    ))
}


/// The first operator character at or after `from`, or `end`.
fn scan_op_char(chars: &Vec<char>, from: usize, end: usize) -> (j: usize)
    requires
        from <= end <= chars@.len(),
    ensures
        from <= j <= end,
        forall|k: int| from <= k < j ==> !op_char(#[trigger] chars@[k]),
        j < end ==> op_char(chars@[j as int]),
{
    let mut j: usize = from;
    while j < end && chars[j] != '=' && chars[j] != '!' && chars[j] != '<' && chars[j] != '>'
        invariant
            from <= j <= end,
            end <= chars@.len(),
            forall|k: int| from <= k < j ==> !op_char(#[trigger] chars@[k]),
        decreases end - j,
    {
        j = j + 1;
    }
    j
}

/// The first quote at or after `from`, or `end`.
fn scan_quote(chars: &Vec<char>, from: usize, end: usize) -> (j: usize)
    requires
        from <= end <= chars@.len(),
    ensures
        from <= j <= end,
        forall|k: int| from <= k < j ==> (#[trigger] chars@[k]) != '\'',
        j < end ==> chars@[j as int] == '\'',
{
    let mut j: usize = from;
    while j < end && chars[j] != '\''
        invariant
            from <= j <= end,
            end <= chars@.len(),
            forall|k: int| from <= k < j ==> (#[trigger] chars@[k]) != '\'',
        decreases end - j,
    {
        j = j + 1;
    }
    j
}

/// The first connective character at or after `from`, or `end`.
fn scan_amp(chars: &Vec<char>, from: usize, end: usize) -> (j: usize)
    requires
        from <= end <= chars@.len(),
    ensures
        from <= j <= end,
        forall|k: int| from <= k < j ==> (#[trigger] chars@[k]) != '&' && chars@[k] != '|',
        j < end ==> chars@[j as int] == '&' || chars@[j as int] == '|',
{
    let mut j: usize = from;
    while j < end && chars[j] != '&' && chars[j] != '|'
        invariant
            from <= j <= end,
            end <= chars@.len(),
            forall|k: int| from <= k < j ==> (#[trigger] chars@[k]) != '&' && chars@[k] != '|',
        decreases end - j,
    {
        j = j + 1;
    }
    j
}

/// Whether a recoverable comparison's rendered text sits at `start`,
/// bounded by the region's end or a connective.
pub open spec fn cmp_boundary(c: CmpV, text: Seq<char>, start: int, end: int) -> bool {
    &&& cmp_recoverable(c)
    &&& start + render_cmp(c).len() <= end <= text.len()
    &&& 0 <= start
    &&& text.subrange(start, start + render_cmp(c).len() as int) == render_cmp(c)
    &&& (start + render_cmp(c).len() == end || text[start + render_cmp(c).len() as int] == '&'
        || text[start + render_cmp(c).len() as int] == '|')
}

/// Parse one comparison and say where it ended: the literal runs to its
/// closing quote, or to the next connective or the region's end. The
/// rendered text of any recoverable comparison at the front is consumed
/// exactly.
#[verifier::rlimit(80)]
#[verifier::spinoff_prover]
fn parse_cmp_prefix(chars: &Vec<char>, start: usize, end: usize) -> (r: Option<(Comparison, usize)>)
    requires
        start <= end <= chars@.len(),
    ensures
        r matches Some(p) ==> start < p.1 <= end,
        forall|c: CmpV|
            #[trigger] cmp_boundary(c, chars@, start as int, end as int) ==> (r matches Some(p)
                && p.0.v() == c && p.1 == start + render_cmp(c).len()),
{
    if start >= end {
        proof {
            assert forall|c: CmpV|
                #[trigger] cmp_boundary(c, chars@, start as int, end as int) implies false by {
                lemma_render_cmp_chars(c);
            }
        }
        return None;
    }
    let op_pos = scan_op_char(chars, start, end);
    proof {
        assert forall|c: CmpV|
            #[trigger] cmp_boundary(c, chars@, start as int, end as int) implies (op_pos == start
            + 1 + render_path(c.path).len() && op_pos < end && op_pos + 1 < end) by {
            lemma_render_cmp_chars(c);
            lemma_render_lit_chars(c.lit);
            let rc = render_cmp(c);
            let rp = render_path(c.path);
            let ro = render_op(c.op);
            let rl = render_lit(c.lit);
            assert forall|k: int| 0 <= k < rc.len() implies chars@[start + k] == rc[k] by {
                assert(chars@.subrange(start as int, start + rc.len() as int)[k] == chars@[start
                    + k]);
            }
            assert(op_char(rc[1 + rp.len() as int]));
            assert(chars@[start + 1 + rp.len() as int] == rc[1 + rp.len() as int]);
            assert(op_pos <= start + 1 + rp.len());
            assert forall|k: int| start <= k < start + 1 + rp.len() implies !op_char(
                #[trigger] chars@[k],
            ) by {
                assert(chars@[k] == rc[k - start]);
                if k > start {
                    assert(rc.subrange(1, 1 + rp.len() as int)[k - start - 1] == rc[k - start]);
                }
            }
            assert(op_pos >= start + 1 + rp.len());
            assert(rc.len() >= 1 + rp.len() + 1 + 1);
        }
    }
    if op_pos >= end {
        return None;
    }
    let two = op_pos + 1 < end && chars[op_pos + 1] == '=';
    let op_len: usize = if two {
        2
    } else {
        1
    };
    let lit_start = op_pos + op_len;
    proof {
        assert forall|c: CmpV|
            #[trigger] cmp_boundary(c, chars@, start as int, end as int) implies (op_len
            == render_op(c.op).len() && lit_start == start + 1 + render_path(c.path).len()
            + render_op(c.op).len() && lit_start < end) by {
            lemma_render_cmp_chars(c);
            lemma_render_lit_chars(c.lit);
            let rc = render_cmp(c);
            let rp = render_path(c.path);
            let ro = render_op(c.op);
            let rl = render_lit(c.lit);
            assert forall|k: int| 0 <= k < rc.len() implies chars@[start + k] == rc[k] by {
                assert(chars@.subrange(start as int, start + rc.len() as int)[k] == chars@[start
                    + k]);
            }
            if ro.len() == 2 {
                assert(rc[1 + rp.len() as int + 1] == ro[1]);
                assert(chars@[op_pos + 1] == ro[1]);
                match c.op {
                    CmpOp::Eq => {},
                    CmpOp::Ne => {},
                    CmpOp::Le => {},
                    CmpOp::Ge => {},
                    _ => {},
                }
            } else {
                assert(rc[1 + rp.len() as int + 1] == rl[0]);
                assert(chars@[op_pos + 1] == rl[0]);
                assert(!op_char(rl[0]));
            }
        }
    }
    if lit_start >= end {
        return None;
    }
    let cmp_end: usize = if chars[lit_start] == '\'' {
        let close = scan_quote(chars, lit_start + 1, end);
        if close >= end {
            proof {
                assert forall|c: CmpV|
                    #[trigger] cmp_boundary(c, chars@, start as int, end as int) implies false by {
                    lemma_render_cmp_chars(c);
                    lemma_render_lit_chars(c.lit);
                    let rc = render_cmp(c);
                    assert forall|k: int| 0 <= k < rc.len() implies chars@[start + k] == rc[k] by {
                        assert(chars@.subrange(start as int, start + rc.len() as int)[k] == chars@[
                        start + k]);
                    }
                    assert(c.lit is Str);
                    assert(rc[rc.len() - 1] == render_lit(c.lit)[render_lit(c.lit).len() - 1]);
                    assert(chars@[start + rc.len() - 1] == '\'');
                }
            }
            return None;
        }
        close + 1
    } else {
        scan_amp(chars, lit_start, end)
    };
    proof {
        assert forall|c: CmpV|
            #[trigger] cmp_boundary(c, chars@, start as int, end as int) implies (cmp_end == start
            + render_cmp(c).len() && chars@.subrange(start as int, cmp_end as int) == render_cmp(
            c,
        )) by {
            lemma_render_cmp_chars(c);
            lemma_render_lit_chars(c.lit);
            let rc = render_cmp(c);
            let rp = render_path(c.path);
            let ro = render_op(c.op);
            let rl = render_lit(c.lit);
            assert forall|k: int| 0 <= k < rc.len() implies chars@[start + k] == rc[k] by {
                assert(chars@.subrange(start as int, start + rc.len() as int)[k] == chars@[start
                    + k]);
            }
            assert(chars@[lit_start as int] == rl[0]);
            if c.lit is Str {
                assert(rl[0] == '\'');
                // The closing quote is the first quote after the opening
                // one: the literal's interior and nothing before the
                // boundary holds another.
                assert forall|k: int|
                    lit_start + 1 <= k < start + rc.len() - 1 implies (#[trigger] chars@[k])
                    != '\'' by {
                    assert(chars@[k] == rc[k - start]);
                }
                assert(chars@[start + rc.len() - 1] == rc[rc.len() - 1]);
                assert(rc[rc.len() - 1] == rl[rl.len() - 1]);
            } else {
                assert(rl[0] != '\'');
                assert forall|k: int|
                    lit_start <= k < start + rc.len() implies (#[trigger] chars@[k]) != '&'
                    && chars@[k] != '|' by {
                    assert(chars@[k] == rc[k - start]);
                }
            }
            assert(chars@.subrange(start as int, cmp_end as int) =~= rc);
        }
    }
    match parse_comparison(chars, start, cmp_end) {
        Some(cmp) => Some((cmp, cmp_end)),
        None => None,
    }
}


/// A nonempty conjunction of recoverable comparisons.
pub open spec fn conj_recoverable(cs: Seq<CmpV>) -> bool {
    cs.len() >= 1 && (forall|k: int| 0 <= k < cs.len() ==> cmp_recoverable(#[trigger] cs[k]))
}

/// A nonempty disjunction of recoverable conjunctions.
pub open spec fn disj_recoverable(ds: Seq<Seq<CmpV>>) -> bool {
    ds.len() >= 1 && (forall|j: int| 0 <= j < ds.len() ==> conj_recoverable(#[trigger] ds[j]))
}

/// The shapes of a vector of comparisons.
pub open spec fn cmp_views(cmps: &Vec<Comparison>) -> Seq<CmpV> {
    Seq::new(cmps@.len(), |k: int| cmps@[k].v())
}

/// The shapes of a vector of conjunctions.
pub open spec fn disj_views(conjs: &Vec<Vec<Comparison>>) -> Seq<Seq<CmpV>> {
    Seq::new(conjs@.len(), |j: int| cmp_views(&conjs@[j]))
}

/// A rendered comparison is at least `@`, a step, an operator and a
/// literal long.
proof fn lemma_render_cmp_len(c: CmpV)
    requires
        cmp_recoverable(c),
    ensures
        render_cmp(c).len() >= 5,
{
    lemma_render_cmp_chars(c);
    lemma_render_path_chars(c.path);
    lemma_render_lit_chars(c.lit);
    assert(render_path(c.path).len() >= 1);
    match c.path[0] {
        PathSegV::Field(f) => {
            let t = c.path.drop_first();
            assert(path_recoverable(t)) by {
                assert(forall|k: int| 0 <= k < t.len() ==> t[k] == c.path[k + 1]);
            }
            lemma_render_path_chars(t);
            assert(render_path(c.path) == (seq!['.'] + f) + render_path(t));
            assert(render_path(c.path).len() >= 2);
        },
        PathSegV::AllElems => {
            let t = c.path.drop_first();
            assert(render_path(c.path) == seq!['[', '*', ']'] + render_path(t));
            assert(render_path(c.path).len() >= 3);
        },
    }
}

/// A rendered conjunction opens with its first comparison.
proof fn lemma_render_conj_head(cs: Seq<CmpV>)
    requires
        cs.len() >= 1,
    ensures
        cs.len() == 1 ==> render_conj(cs) == render_cmp(cs[0]),
        cs.len() > 1 ==> render_conj(cs) == render_cmp(cs[0]) + seq!['&', '&'] + render_conj(
            cs.drop_first(),
        ),
{
}

/// A rendered disjunction opens with its first conjunction.
proof fn lemma_render_disj_head(ds: Seq<Seq<CmpV>>)
    requires
        ds.len() >= 1,
    ensures
        ds.len() == 1 ==> render_disj(ds) == render_conj(ds[0]),
        ds.len() > 1 ==> render_disj(ds) == render_conj(ds[0]) + seq!['|', '|'] + render_disj(
            ds.drop_first(),
        ),
{
}

proof fn lemma_render_conj_len(cs: Seq<CmpV>)
    requires
        conj_recoverable(cs),
    ensures
        render_conj(cs).len() >= 5,
    decreases cs.len(),
{
    lemma_render_conj_head(cs);
    lemma_render_cmp_len(cs[0]);
}

proof fn lemma_render_disj_len(ds: Seq<Seq<CmpV>>)
    requires
        disj_recoverable(ds),
    ensures
        render_disj(ds).len() >= 5,
{
    lemma_render_disj_head(ds);
    lemma_render_conj_len(ds[0]);
}

/// Whether a recoverable conjunction's rendered text sits at `start`,
/// bounded by the region's end or an or-connective.
pub open spec fn conj_boundary(cs: Seq<CmpV>, text: Seq<char>, start: int, end: int) -> bool {
    &&& conj_recoverable(cs)
    &&& 0 <= start
    &&& start + render_conj(cs).len() <= end <= text.len()
    &&& text.subrange(start, start + render_conj(cs).len() as int) == render_conj(cs)
    &&& (start + render_conj(cs).len() == end || (start + render_conj(cs).len() + 1 < end && text[
        start + render_conj(cs).len() as int
    ] == '|' && text[start + render_conj(cs).len() as int + 1] == '|'))
}

/// Parse comparisons joined by `&&`, stopping at the region's end or an
/// or-connective. The rendered text of any recoverable conjunction at
/// the front is consumed exactly.
#[verifier::rlimit(80)]
#[verifier::spinoff_prover]
fn parse_conj_from(chars: &Vec<char>, start: usize, end: usize) -> (r: Option<(
    Vec<Comparison>,
    usize,
)>)
    requires
        start <= end <= chars@.len(),
    ensures
        r matches Some(p) ==> start < p.1 <= end && p.0@.len() >= 1,
        forall|cs: Seq<CmpV>|
            #[trigger] conj_boundary(cs, chars@, start as int, end as int) ==> (r matches Some(p)
                && cmp_views(&p.0) == cs && p.1 == start + render_conj(cs).len()),
    decreases end - start,
{
    let first = parse_cmp_prefix(chars, start, end);
    proof {
        assert forall|cs: Seq<CmpV>|
            #[trigger] conj_boundary(cs, chars@, start as int, end as int) implies cmp_boundary(
            cs[0],
            chars@,
            start as int,
            end as int,
        ) by {
            lemma_render_conj_head(cs);
            let rc = render_cmp(cs[0]);
            let rj = render_conj(cs);
            assert forall|k: int| 0 <= k < rj.len() implies chars@[start + k] == rj[k] by {
                assert(chars@.subrange(start as int, start + rj.len() as int)[k] == chars@[start
                    + k]);
            }
            assert(chars@.subrange(start as int, start + rc.len() as int) =~= rc) by {
                assert forall|k: int|
                    0 <= k < rc.len() implies chars@.subrange(
                    start as int,
                    start + rc.len() as int,
                )[k] == rc[k] by {
                    assert(chars@.subrange(start as int, start + rc.len() as int)[k] == chars@[
                    start + k]);
                    assert(rj[k] == rc[k]);
                }
            }
            if cs.len() > 1 {
                assert(rj[rc.len() as int] == '&');
                assert(chars@[start + rc.len() as int] == '&');
            }
        }
    }
    let (cmp, pos) = match first {
        Some(p) => p,
        None => {
            return None;
        },
    };
    if pos < end && pos + 1 < end && chars[pos] == '&' && chars[pos + 1] == '&' {
        proof {
            assert forall|cs: Seq<CmpV>|
                #[trigger] conj_boundary(cs, chars@, start as int, end as int) implies (cs.len() > 1
                && conj_boundary(cs.drop_first(), chars@, pos + 2, end as int)) by {
                lemma_render_conj_head(cs);
                let rc = render_cmp(cs[0]);
                let rj = render_conj(cs);
                assert(pos == start + rc.len());
                assert forall|k: int| 0 <= k < rj.len() implies chars@[start + k] == rj[k] by {
                    assert(chars@.subrange(start as int, start + rj.len() as int)[k] == chars@[
                    start + k]);
                }
                if cs.len() == 1 {
                    // The conjunction would have ended here, at the end
                    // or an or-connective; yet an and-connective stands.
                    assert(pos == start + rj.len());
                    if start + rj.len() < end {
                        assert(chars@[pos as int] == '|');
                    }
                } else {
                    let t = cs.drop_first();
                    assert(conj_recoverable(t)) by {
                        assert(forall|k: int| 0 <= k < t.len() ==> t[k] == cs[k + 1]);
                    }
                    assert(rj == rc + seq!['&', '&'] + render_conj(t));
                    assert(chars@.subrange(pos + 2, pos + 2 + render_conj(t).len() as int)
                        =~= render_conj(t)) by {
                        assert forall|k: int|
                            0 <= k < render_conj(t).len() implies chars@.subrange(
                            pos + 2,
                            pos + 2 + render_conj(t).len() as int,
                        )[k] == render_conj(t)[k] by {
                            assert(chars@.subrange(
                                pos + 2,
                                pos + 2 + render_conj(t).len() as int,
                            )[k] == chars@[pos + 2 + k]);
                            assert(rj[rc.len() + 2 + k] == render_conj(t)[k]);
                        }
                    }
                }
            }
        }
        match parse_conj_from(chars, pos + 2, end) {
            Some(rest) => {
                let (mut cmps, endpos) = rest;
                let ghost pre = cmps@;
                cmps.insert(0, cmp);
                proof {
                    assert forall|cs: Seq<CmpV>|
                        #[trigger] conj_boundary(cs, chars@, start as int, end as int) implies (
                    cmp_views(&cmps) == cs && endpos == start + render_conj(cs).len()) by {
                        lemma_render_conj_head(cs);
                        let t = cs.drop_first();
                        assert(cmp_views(&cmps) =~= cs) by {
                            assert(cmps@[0] == cmp);
                            assert(cmp.v() == cs[0]);
                            assert forall|k: int|
                                0 <= k < cs.len() implies cmp_views(&cmps)[k] == cs[k] by {
                                if k > 0 {
                                    assert(cmps@[k] == pre[k - 1]);
                                    assert(pre[k - 1].v() == t[k - 1]);
                                    assert(t[k - 1] == cs[k]);
                                }
                            }
                        }
                    }
                }
                Some((cmps, endpos))
            },
            None => None,
        }
    } else {
        proof {
            assert forall|cs: Seq<CmpV>|
                #[trigger] conj_boundary(cs, chars@, start as int, end as int) implies (cs.len()
                == 1 && pos == start + render_conj(cs).len()) by {
                lemma_render_conj_head(cs);
                let rc = render_cmp(cs[0]);
                let rj = render_conj(cs);
                assert(pos == start + rc.len());
                assert forall|k: int| 0 <= k < rj.len() implies chars@[start + k] == rj[k] by {
                    assert(chars@.subrange(start as int, start + rj.len() as int)[k] == chars@[
                    start + k]);
                }
                if cs.len() > 1 {
                    assert(rj[rc.len() as int] == '&' && rj[rc.len() as int + 1] == '&');
                    assert(chars@[pos as int] == '&' && chars@[pos + 1] == '&');
                    assert(conj_recoverable(cs.drop_first())) by {
                        assert(forall|k: int|
                            0 <= k < cs.drop_first().len() ==> cs.drop_first()[k] == cs[k + 1]);
                    }
                    lemma_render_conj_len(cs.drop_first());
                }
            }
        }
        let mut single: Vec<Comparison> = Vec::new();
        single.push(cmp);
        proof {
            assert forall|cs: Seq<CmpV>|
                #[trigger] conj_boundary(cs, chars@, start as int, end as int) implies cmp_views(
                &single,
            ) == cs by {
                assert(single@[0] == cmp);
                assert(cmp.v() == cs[0]);
                assert(cmp_views(&single) =~= cs);
            }
        }
        Some((single, pos))
    }
}


/// Parse conjunctions joined by `||` to the region's end. The rendered
/// text of any recoverable disjunction is recovered.
#[verifier::rlimit(80)]
#[verifier::spinoff_prover]
fn parse_disj_from(chars: &Vec<char>, start: usize, end: usize) -> (r: Option<Vec<Vec<Comparison>>>)
    requires
        start <= end <= chars@.len(),
    ensures
        r matches Some(v) ==> v@.len() >= 1 && (forall|j: int|
            0 <= j < v@.len() ==> (#[trigger] v@[j])@.len() >= 1),
        forall|ds: Seq<Seq<CmpV>>|
            disj_recoverable(ds) && chars@.subrange(start as int, end as int) == (
            #[trigger] render_disj(ds)) ==> (r matches Some(v) && disj_views(&v) == ds),
    decreases end - start,
{
    let ghost region = chars@.subrange(start as int, end as int);
    let first = parse_conj_from(chars, start, end);
    proof {
        assert forall|ds: Seq<Seq<CmpV>>|
            disj_recoverable(ds) && region == (#[trigger] render_disj(ds)) implies conj_boundary(
            ds[0],
            chars@,
            start as int,
            end as int,
        ) by {
            lemma_render_disj_head(ds);
            let rj = render_conj(ds[0]);
            let rd = render_disj(ds);
            assert forall|k: int| 0 <= k < rd.len() implies chars@[start + k] == rd[k] by {
                assert(region[k] == chars@[start + k]);
            }
            if ds.len() > 1 {
                let t = ds.drop_first();
                assert(disj_recoverable(t)) by {
                    assert(forall|j: int| 0 <= j < t.len() ==> t[j] == ds[j + 1]);
                }
                lemma_render_disj_len(t);
                assert(rd == rj + seq!['|', '|'] + render_disj(t));
                assert forall|k: int| 0 <= k < rj.len() implies rd[k] == rj[k] by {
                    assert(((rj + seq!['|', '|']) + render_disj(t))[k] == (rj + seq!['|', '|'])[k]);
                }
                assert(rd[rj.len() as int] == '|' && rd[rj.len() as int + 1] == '|') by {
                    assert(((rj + seq!['|', '|']) + render_disj(t))[rj.len() as int] == (rj + seq![
                        '|',
                        '|',
                    ])[rj.len() as int]);
                    assert(((rj + seq!['|', '|']) + render_disj(t))[rj.len() as int + 1] == (rj
                        + seq!['|', '|'])[rj.len() as int + 1]);
                }
            }
            assert(chars@.subrange(start as int, start + rj.len() as int) =~= rj) by {
                assert forall|k: int|
                    0 <= k < rj.len() implies chars@.subrange(
                    start as int,
                    start + rj.len() as int,
                )[k] == rj[k] by {
                    assert(chars@.subrange(start as int, start + rj.len() as int)[k] == chars@[
                    start + k]);
                    assert(rd[k] == rj[k]);
                }
            }
        }
    }
    let (cmps, pos) = match first {
        Some(p) => p,
        None => {
            return None;
        },
    };
    if pos == end {
        let mut single: Vec<Vec<Comparison>> = Vec::new();
        single.push(cmps);
        proof {
            assert forall|ds: Seq<Seq<CmpV>>|
                disj_recoverable(ds) && region == (#[trigger] render_disj(ds)) implies disj_views(
                &single,
            ) == ds by {
                lemma_render_disj_head(ds);
                assert(cmp_views(&single@[0]) == ds[0]);
                if ds.len() > 1 {
                    let t = ds.drop_first();
                    assert(disj_recoverable(t)) by {
                        assert(forall|j: int| 0 <= j < t.len() ==> t[j] == ds[j + 1]);
                    }
                    lemma_render_disj_len(t);
                    assert(pos == start + render_conj(ds[0]).len());
                    assert(region.len() == render_disj(ds).len());
                }
                assert(disj_views(&single) =~= ds);
            }
        }
        return Some(single);
    }
    if pos + 1 < end && chars[pos] == '|' && chars[pos + 1] == '|' {
        proof {
            assert forall|ds: Seq<Seq<CmpV>>|
                disj_recoverable(ds) && region == (#[trigger] render_disj(ds)) implies (ds.len() > 1
                && disj_recoverable(ds.drop_first()) && chars@.subrange(pos + 2, end as int)
                == render_disj(ds.drop_first())) by {
                lemma_render_disj_head(ds);
                let rj = render_conj(ds[0]);
                let rd = render_disj(ds);
                assert(pos == start + rj.len());
                assert forall|k: int| 0 <= k < rd.len() implies chars@[start + k] == rd[k] by {
                    assert(region[k] == chars@[start + k]);
                }
                if ds.len() == 1 {
                    assert(pos == start + rd.len());
                    assert(pos == end);
                } else {
                    let t = ds.drop_first();
                    assert(disj_recoverable(t)) by {
                        assert(forall|j: int| 0 <= j < t.len() ==> t[j] == ds[j + 1]);
                    }
                    assert(rd == rj + seq!['|', '|'] + render_disj(t));
                    assert(chars@.subrange(pos + 2, end as int) =~= render_disj(t)) by {
                        assert(rd.len() == rj.len() + 2 + render_disj(t).len());
                        assert(end - start == rd.len());
                        assert(end - (pos + 2) == render_disj(t).len());
                        assert forall|k: int|
                            0 <= k < render_disj(t).len() implies chars@.subrange(
                            pos + 2,
                            end as int,
                        )[k] == render_disj(t)[k] by {
                            assert(chars@.subrange(pos + 2, end as int)[k] == chars@[pos + 2 + k]);
                            assert(((rj + seq!['|', '|']) + render_disj(t))[rj.len() as int + 2 + k]
                                == render_disj(t)[k]);
                            assert(rd[rj.len() + 2 + k] == render_disj(t)[k]);
                        }
                    }
                }
            }
        }
        match parse_disj_from(chars, pos + 2, end) {
            Some(rest) => {
                let mut conjs = rest;
                let ghost pre = conjs@;
                conjs.insert(0, cmps);
                proof {
                    assert forall|ds: Seq<Seq<CmpV>>|
                        disj_recoverable(ds) && region == (#[trigger] render_disj(ds)) implies
                        disj_views(&conjs) == ds by {
                        let t = ds.drop_first();
                        assert(disj_views(&conjs) =~= ds) by {
                            assert(conjs@[0] == cmps);
                            assert(cmp_views(&cmps) == ds[0]);
                            assert forall|j: int|
                                0 <= j < ds.len() implies disj_views(&conjs)[j] == ds[j] by {
                                if j > 0 {
                                    assert(conjs@[j] == pre[j - 1]);
                                    assert(cmp_views(&pre[j - 1]) == t[j - 1]);
                                    assert(t[j - 1] == ds[j]);
                                }
                            }
                        }
                    }
                }
                Some(conjs)
            },
            None => None,
        }
    } else {
        proof {
            assert forall|ds: Seq<Seq<CmpV>>|
                disj_recoverable(ds) && region == (#[trigger] render_disj(ds)) implies false by {
                lemma_render_disj_head(ds);
                let rj = render_conj(ds[0]);
                let rd = render_disj(ds);
                assert(pos == start + rj.len());
                assert forall|k: int| 0 <= k < rd.len() implies chars@[start + k] == rd[k] by {
                    assert(region[k] == chars@[start + k]);
                }
                if ds.len() == 1 {
                    assert(pos == end);
                } else {
                    let t = ds.drop_first();
                    assert(disj_recoverable(t)) by {
                        assert(forall|j: int| 0 <= j < t.len() ==> t[j] == ds[j + 1]);
                    }
                    lemma_render_disj_len(t);
                    assert(chars@[pos as int] == '|' && chars@[pos + 1] == '|');
                }
            }
        }
        None
    }
}

/// Parse the body of a filter: comparisons joined by `&&` into
/// conjunctions, joined by `||`; `&&` binds tighter, and quoted string
/// literals shield both. The rendered text of any recoverable
/// disjunction is recovered.
fn parse_filter_body(chars: &Vec<char>, start: usize, end: usize) -> (r: Option<QueryFilter>)
    requires
        start <= end <= chars@.len(),
    ensures
        r matches Some(f) ==> f.any@.len() >= 1 && (forall|j: int|
            0 <= j < f.any@.len() ==> (#[trigger] f.any@[j])@.len() >= 1),
        forall|ds: Seq<Seq<CmpV>>|
            disj_recoverable(ds) && chars@.subrange(start as int, end as int) == (
            #[trigger] render_disj(ds)) ==> (r matches Some(f) && f.v() == ds),
{
    match parse_disj_from(chars, start, end) {
        Some(conjs) => {
            let result = QueryFilter { any: conjs };
            proof {
                assert forall|ds: Seq<Seq<CmpV>>|
                    disj_recoverable(ds) && chars@.subrange(start as int, end as int) == (
                #[trigger] render_disj(ds)) implies result.v() == ds by {
                    assert(disj_views(&result.any) == ds);
                    assert(result.v() =~= ds) by {
                        assert forall|j: int| 0 <= j < ds.len() implies result.v()[j] == ds[j] by {
                            assert(disj_views(&result.any)[j] == cmp_views(&result.any@[j]));
                            assert(result.v()[j] =~= cmp_views(&result.any@[j]));
                        }
                    }
                }
            }
            Some(result)
        },
        None => None,
    }
}


/// The query forms whose canonical texts the parser is bound to
/// recover: the root, a representable index, and any filter whose
/// comparisons are recoverable.
pub open spec fn plain_form(qv: QueryV) -> bool {
    match qv {
        QueryV::All => true,
        QueryV::Index(i) => 0 <= i <= usize::MAX as int,
        QueryV::Filter(ds) => disj_recoverable(ds),
    }
}

/// The shape of a rendered recoverable filter: `$[?` the disjunction
/// `]`.
proof fn lemma_plain_filter_shape(qv: QueryV)
    requires
        plain_form(qv),
        qv is Filter,
    ensures
        render_v(qv).len() >= 9,
        render_v(qv)[0] == '$',
        render_v(qv)[1] == '[',
        render_v(qv)[2] == '?',
        render_v(qv)[render_v(qv).len() - 1] == ']',
        render_v(qv).subrange(3, render_v(qv).len() - 1) == render_disj(qv->Filter_0),
{
    let ds = qv->Filter_0;
    lemma_render_disj_len(ds);
    let text = render_v(qv);
    assert(text == seq!['$', '[', '?'] + render_disj(ds) + seq![']']);
    assert(text.subrange(3, text.len() - 1) =~= render_disj(ds));
}

/// The shape of a rendered index query: `$[` digits `]`.
proof fn lemma_render_index_shape(i: int)
    requires
        0 <= i,
    ensures
        render_v(QueryV::Index(i)).len() == 3 + crate::numtext::nat_str(i as nat).len(),
        render_v(QueryV::Index(i)).len() >= 4,
        render_v(QueryV::Index(i))[0] == '$',
        render_v(QueryV::Index(i))[1] == '[',
        render_v(QueryV::Index(i))[render_v(QueryV::Index(i)).len() - 1] == ']',
        crate::numtext::is_dec_digit(render_v(QueryV::Index(i))[2]),
        render_v(QueryV::Index(i)).subrange(2, render_v(QueryV::Index(i)).len() - 1)
            == crate::numtext::nat_str(i as nat),
{
    let digits = crate::numtext::nat_str(i as nat);
    crate::numtext::lemma_nat_str_digits(i as nat);
    let text = render_v(QueryV::Index(i));
    assert(text == seq!['$', '['] + digits + seq![']']);
    assert(text[2] == digits[0]);
    assert(text.subrange(2, text.len() - 1) =~= digits);
}


/// A field name the grammar can carry: nonempty, free of the characters
/// that delimit steps, operators, connectives and string literals.
pub open spec fn field_recoverable(f: Seq<char>) -> bool {
    f.len() >= 1 && (forall|i: int|
        0 <= i < f.len() ==> !is_special(#[trigger] f[i]))
}

/// The characters the grammar reserves.
pub open spec fn is_special(c: char) -> bool {
    c == '.' || c == '[' || c == '=' || c == '<' || c == '>' || c == '!' || c == '&' || c == '|'
        || c == '\''
}

pub open spec fn seg_recoverable(seg: PathSegV) -> bool {
    match seg {
        PathSegV::Field(f) => field_recoverable(f),
        PathSegV::AllElems => true,
    }
}

pub open spec fn path_recoverable(p: Seq<PathSegV>) -> bool {
    forall|i: int| 0 <= i < p.len() ==> seg_recoverable(#[trigger] p[i])
}

/// A literal the grammar can carry: a representable integer, a string
/// free of quotes and connectives, or a boolean.
pub open spec fn lit_recoverable(lit: LitV) -> bool {
    match lit {
        LitV::Int(v) => -(i64::MAX as int) <= v <= i64::MAX as int,
        LitV::Str(s) => forall|i: int|
            0 <= i < s.len() ==> s[i] != '\'' && s[i] != '&' && #[trigger] s[i] != '|',
        LitV::Bool(_) => true,
    }
}

pub open spec fn cmp_recoverable(c: CmpV) -> bool {
    c.path.len() >= 1 && path_recoverable(c.path) && lit_recoverable(c.lit)
}

/// A rendered path holds no reserved character but its own dots and
/// wildcard brackets, and in particular no operator, connective or quote.
proof fn lemma_render_path_chars(p: Seq<PathSegV>)
    requires
        path_recoverable(p),
    ensures
        forall|i: int|
            0 <= i < render_path(p).len() ==> !op_char(#[trigger] render_path(p)[i]) && render_path(
                p,
            )[i] != '&' && render_path(p)[i] != '|' && render_path(p)[i] != '\'',
        p.len() >= 1 ==> render_path(p).len() >= 1 && (render_path(p)[0] == '.' || render_path(
            p,
        )[0] == '['),
    decreases p.len(),
{
    if p.len() > 0 {
        let t = p.drop_first();
        assert(path_recoverable(t)) by {
            assert(forall|i: int| 0 <= i < t.len() ==> t[i] == p[i + 1]);
        }
        lemma_render_path_chars(t);
        let head = (match p[0] {
            PathSegV::Field(f) => seq!['.'] + f,
            PathSegV::AllElems => seq!['[', '*', ']'],
        });
        assert(render_path(p) == head + render_path(t));
        assert forall|i: int|
            0 <= i < render_path(p).len() implies !op_char(#[trigger] render_path(p)[i])
            && render_path(p)[i] != '&' && render_path(p)[i] != '|' && render_path(p)[i] != '\''
        by {
            if i < head.len() {
                assert(render_path(p)[i] == head[i]);
                match p[0] {
                    PathSegV::Field(f) => {
                        if i > 0 {
                            assert(head[i] == f[i - 1]);
                            assert(!is_special(f[i - 1]));
                        }
                    },
                    PathSegV::AllElems => {},
                }
            } else {
                assert(render_path(p)[i] == render_path(t)[i - head.len()]);
            }
        }
    }
}

/// An operator character.
pub open spec fn op_char(c: char) -> bool {
    c == '=' || c == '!' || c == '<' || c == '>'
}

/// A rendered operator starts with an operator character; a rendered
/// literal starts with a quote, a sign, a digit, or a boolean's first
/// letter -- never with `=`, and never holding a connective; its quotes,
/// if any, are exactly a string's two delimiters.
proof fn lemma_render_lit_chars(lit: LitV)
    requires
        lit_recoverable(lit),
    ensures
        render_lit(lit).len() >= 1,
        !op_char(render_lit(lit)[0]),
        render_lit(lit)[0] != '&' && render_lit(lit)[0] != '|',
        forall|i: int|
            0 <= i < render_lit(lit).len() ==> (#[trigger] render_lit(lit)[i]) != '&' && render_lit(
                lit,
            )[i] != '|',
        lit is Str ==> render_lit(lit)[0] == '\'' && render_lit(lit)[render_lit(lit).len() - 1]
            == '\'' && (forall|i: int|
            0 < i < render_lit(lit).len() - 1 ==> (#[trigger] render_lit(lit)[i]) != '\''),
        !(lit is Str) ==> (forall|i: int|
            0 <= i < render_lit(lit).len() ==> (#[trigger] render_lit(lit)[i]) != '\''),
{
    match lit {
        LitV::Int(v) => {
            if v < 0 {
                crate::numtext::lemma_nat_str_digits((-v) as nat);
                assert(render_lit(lit)[0] == '-');
                assert forall|i: int|
                    0 <= i < render_lit(lit).len() implies (#[trigger] render_lit(lit)[i]) != '&'
                    && render_lit(lit)[i] != '|' && render_lit(lit)[i] != '\'' by {
                    if i > 0 {
                        assert(render_lit(lit)[i] == crate::numtext::nat_str((-v) as nat)[i - 1]);
                        assert(crate::numtext::is_dec_digit(
                            crate::numtext::nat_str((-v) as nat)[i - 1],
                        ));
                    }
                }
            } else {
                crate::numtext::lemma_nat_str_digits(v as nat);
                assert(render_lit(lit) == crate::numtext::nat_str(v as nat));
                assert(crate::numtext::is_dec_digit(render_lit(lit)[0]));
                assert forall|i: int|
                    0 <= i < render_lit(lit).len() implies (#[trigger] render_lit(lit)[i]) != '&'
                    && render_lit(lit)[i] != '|' && render_lit(lit)[i] != '\'' by {
                    assert(crate::numtext::is_dec_digit(render_lit(lit)[i]));
                }
            }
        },
        LitV::Str(s) => {
            assert(render_lit(lit) == seq!['\''] + s + seq!['\'']);
            assert(render_lit(lit)[0] == '\'');
            assert forall|i: int|
                0 <= i < render_lit(lit).len() implies (#[trigger] render_lit(lit)[i]) != '&'
                && render_lit(lit)[i] != '|' by {
                if 0 < i < render_lit(lit).len() - 1 {
                    assert(render_lit(lit)[i] == s[i - 1]);
                }
            }
        },
        LitV::Bool(b) => {
            if b {
                assert(render_lit(lit) == seq!['t', 'r', 'u', 'e']);
            } else {
                assert(render_lit(lit) == seq!['f', 'a', 'l', 's', 'e']);
            }
        },
    }
}

/// A rendered comparison starts at `@`, holds its operator exactly where
/// the path ends, and holds no connective anywhere.
proof fn lemma_render_cmp_chars(c: CmpV)
    requires
        cmp_recoverable(c),
    ensures
        render_cmp(c).len() >= 1 + render_path(c.path).len() + render_op(c.op).len() + 1,
        render_cmp(c)[0] == '@',
        forall|i: int|
            1 <= i < 1 + render_path(c.path).len() ==> !op_char(#[trigger] render_cmp(c)[i]),
        op_char(render_cmp(c)[1 + render_path(c.path).len() as int]),
        render_cmp(c).subrange(
            1 + render_path(c.path).len() as int + render_op(c.op).len() as int,
            render_cmp(c).len() as int,
        ) == render_lit(c.lit),
        render_cmp(c).subrange(1, 1 + render_path(c.path).len() as int) == render_path(c.path),
        forall|i: int|
            0 <= i < render_cmp(c).len() ==> (#[trigger] render_cmp(c)[i]) != '&' && render_cmp(
                c,
            )[i] != '|',
        forall|i: int|
            0 <= i < render_cmp(c).len() && (#[trigger] render_cmp(c)[i]) == '\'' ==> c.lit is Str
                && (i == 1 + render_path(c.path).len() + render_op(c.op).len() || i == render_cmp(
                c,
            ).len() - 1),
{
    lemma_render_path_chars(c.path);
    lemma_render_lit_chars(c.lit);
    let t = render_cmp(c);
    let rp = render_path(c.path);
    let ro = render_op(c.op);
    let rl = render_lit(c.lit);
    assert(t == seq!['@'] + rp + ro + rl);
    assert(ro.len() >= 1 && op_char(ro[0]));
    assert(t[1 + rp.len() as int] == ro[0]);
    assert(t.subrange(1, 1 + rp.len() as int) =~= rp);
    assert(t.subrange(1 + rp.len() as int + ro.len() as int, t.len() as int) =~= rl);
    assert forall|i: int| 1 <= i < 1 + rp.len() implies !op_char(#[trigger] t[i]) by {
        assert(t[i] == rp[i - 1]);
    }
    assert forall|i: int|
        0 <= i < t.len() implies (#[trigger] t[i]) != '&' && t[i] != '|' by {
        if 1 <= i < 1 + rp.len() {
            assert(t[i] == rp[i - 1]);
        } else if 1 + rp.len() <= i < 1 + rp.len() + ro.len() {
            assert(t[i] == ro[i - 1 - rp.len()]);
            match c.op {
                CmpOp::Eq => {},
                CmpOp::Ne => {},
                CmpOp::Lt => {},
                CmpOp::Le => {},
                CmpOp::Gt => {},
                CmpOp::Ge => {},
            }
        } else if i >= 1 + rp.len() + ro.len() {
            assert(t[i] == rl[i - 1 - rp.len() - ro.len()]);
        }
    }
    assert forall|i: int|
        0 <= i < t.len() && (#[trigger] t[i]) == '\'' implies c.lit is Str && (i == 1 + rp.len()
        + ro.len() || i == t.len() - 1) by {
        if 1 <= i < 1 + rp.len() {
            assert(t[i] == rp[i - 1]);
        } else if 1 + rp.len() <= i < 1 + rp.len() + ro.len() {
            assert(t[i] == ro[i - 1 - rp.len()]);
            match c.op {
                CmpOp::Eq => {},
                CmpOp::Ne => {},
                CmpOp::Lt => {},
                CmpOp::Le => {},
                CmpOp::Gt => {},
                CmpOp::Ge => {},
            }
        } else if i >= 1 + rp.len() + ro.len() {
            assert(t[i] == rl[i - 1 - rp.len() - ro.len()]);
            if c.lit is Str {
                if 0 < i - 1 - rp.len() - ro.len() < rl.len() - 1 {
                    assert(rl[i - 1 - rp.len() - ro.len()] != '\'');
                }
            }
        }
    }
}


/// Parse a query without certifying it; `parse_query` holds the result
/// against its canonical text.
fn parse_core(chars: &Vec<char>) -> (r: Option<Query>)
    ensures
        chars@ == seq!['$'] ==> (r matches Some(q) && q.v() == QueryV::All),
        forall|qv: QueryV|
            #[trigger] plain_form(qv) && chars@ == render_v(qv) ==> (r matches Some(q) && q.v()
                == qv),
{
    let n = chars.len();
    if n == 0 || chars[0] != '$' {
        proof {
            assert forall|qv: QueryV| plain_form(qv) && chars@ == render_v(qv) implies false by {
                match qv {
                    QueryV::Index(i) => {
                        lemma_render_index_shape(i);
                    },
                    _ => {},
                }
            }
        }
        return None;
    }
    if n == 1 {
        proof {
            assert(chars@ =~= seq!['$']);
            assert forall|qv: QueryV| plain_form(qv) && chars@ == render_v(qv) implies false by {
                match qv {
                    QueryV::Index(i) => {
                        lemma_render_index_shape(i);
                    },
                    _ => {},
                }
            }
        }
        return Some(Query::All);
    }
    if n < 3 || chars[1] != '[' || chars[n - 1] != ']' {
        proof {
            assert forall|qv: QueryV| plain_form(qv) && chars@ == render_v(qv) implies false by {
                match qv {
                    QueryV::Index(i) => {
                        lemma_render_index_shape(i);
                    },
                    _ => {},
                }
            }
        }
        return None;
    }
    if n == 4 && chars[2] == '*' {
        proof {
            assert forall|qv: QueryV|
                plain_form(qv) && chars@ == render_v(qv) implies qv == QueryV::All by {
                match qv {
                    QueryV::Index(i) => {
                        lemma_render_index_shape(i);
                    },
                    _ => {},
                }
            }
        }
        return Some(Query::All);
    }
    if chars[2] == '?' {
        proof {
            assert forall|qv: QueryV|
                plain_form(qv) && chars@ == render_v(qv) implies (qv is Filter && chars@.subrange(
                3,
                n - 1,
            ) == render_disj(qv->Filter_0) && disj_recoverable(qv->Filter_0)) by {
                match qv {
                    QueryV::Index(i) => {
                        lemma_render_index_shape(i);
                    },
                    QueryV::All => {
                        assert(chars@.len() == 4 && chars@[2] == '*');
                    },
                    QueryV::Filter(ds) => {
                        lemma_plain_filter_shape(qv);
                        assert(chars@.subrange(3, n - 1) == render_v(qv).subrange(
                            3,
                            render_v(qv).len() - 1,
                        ));
                    },
                }
            }
        }
        let parsed = parse_filter_body(chars, 3, n - 1);
        proof {
            assert forall|qv: QueryV|
                plain_form(qv) && chars@ == render_v(qv) implies (parsed matches Some(f) && f.v()
                == qv->Filter_0) by {
            }
        }
        match parsed {
            Some(f) => Some(Query::Filter(f)),
            None => None,
        }
    } else {
        let parsed = parse_index(chars, 2, n - 1);
        proof {
            assert forall|qv: QueryV|
                plain_form(qv) && chars@ == render_v(qv) implies (match parsed {
                Some(v) => QueryV::Index(v as int) == qv,
                None => false,
            }) by {
                match qv {
                    QueryV::Index(i) => {
                        lemma_render_index_shape(i);
                        assert(chars@.subrange(2, n - 1) == crate::numtext::nat_str(i as nat));
                    },
                    QueryV::All => {
                        assert(chars@.len() == 4 && chars@[2] == '*');
                    },
                    QueryV::Filter(ds) => {
                        lemma_plain_filter_shape(qv);
                    },
                }
            }
        }
        match parsed {
            Some(i) => Some(Query::Index(i)),
            None => None,
        }
    }
}

/// Whether a parsed filter has at least one conjunction and none empty.
fn filter_shape_ok(f: &QueryFilter) -> (r: bool)
    ensures
        r == (f.any@.len() > 0 && (forall|k: int|
            0 <= k < f.any@.len() ==> (#[trigger] f.any@[k])@.len() > 0)),
{
    if f.any.len() == 0 {
        return false;
    }
    let mut i: usize = 0;
    while i < f.any.len()
        invariant
            i <= f.any@.len(),
            forall|k: int| 0 <= k < i ==> (#[trigger] f.any@[k])@.len() > 0,
        decreases f.any@.len() - i,
    {
        if f.any[i].len() == 0 {
            return false;
        }
        i = i + 1;
    }
    true
}

/// Parse a query. A parse is accepted only when the query's canonical
/// text is the input itself (the bare root `$` stands for its canonical
/// `$[*]`): what comes back always renders back to what was asked, a
/// refusal is never the canonical text of a plain-form query, and an
/// accepted text names its query uniquely among the plain forms.
pub fn parse_query(s: &str) -> (r: Option<Query>)
    ensures
        match r {
            Some(q) => (s@ == render_v(q.v()) || (s@ =~= seq!['$'] && q.v() == QueryV::All)) && (
            forall|qv: QueryV|
                #[trigger] plain_form(qv) && s@ == render_v(qv) ==> qv == q.v()),
            None => s@ != seq!['$'] && (forall|qv: QueryV|
                #[trigger] plain_form(qv) ==> s@ != render_v(qv)),
        },
{
    proof {
        reveal_strlit("$");
        assert(("$")@ =~= seq!['$']);
    }
    let chars = crate::strutil::string_to_chars(s);
    match parse_core(&chars) {
        Some(q) => {
            if crate::strutil::str_eq(s, "$") {
                proof {
                    assert(("$")@ =~= seq!['$']);
                    assert(chars@ == seq!['$']);
                }
                let result = Query::All;
                proof {
                    assert(s@ =~= seq!['$']);
                    assert(result.v() == QueryV::All);
                }
                return Some(result);
            }
            let ok_shape = match &q {
                Query::Filter(f) => filter_shape_ok(f),
                _ => true,
            };
            if !ok_shape {
                proof {
                    assert forall|qv: QueryV|
                        #[trigger] plain_form(qv) implies s@ != render_v(qv) by {
                        if s@ == render_v(qv) {
                            assert(q.v() == qv);
                            match q {
                                Query::Filter(f) => {
                                    let ds = qv->Filter_0;
                                    assert(f.v() == ds);
                                    assert(f.any@.len() == ds.len());
                                    assert forall|j: int|
                                        0 <= j < f.any@.len() implies (#[trigger] f.any@[j])@.len()
                                        > 0 by {
                                        assert(f.v()[j] == ds[j]);
                                        assert(f.any@[j]@.len() == ds[j].len());
                                        assert(conj_recoverable(ds[j]));
                                    }
                                },
                                _ => {},
                            }
                        }
                    }
                }
                return None;
            }
            let rendered = render_query(&q);
            let rendered_string = crate::strutil::chars_to_string(&rendered);
            if crate::strutil::str_eq(s, rendered_string.as_str()) {
                proof {
                    assert(rendered_string@ == rendered@);
                    assert(rendered@ == render_v(q.v()));
                    assert(s@ == render_v(q.v()));
                }
                Some(q)
            } else {
                proof {
                    assert forall|qv: QueryV|
                        #[trigger] plain_form(qv) implies s@ != render_v(qv) by {
                        if s@ == render_v(qv) {
                            assert(q.v() == qv);
                            assert(rendered_string@ == render_v(q.v()));
                        }
                    }
                }
                None
            }
        },
        None => {
            proof {
                assert forall|qv: QueryV| #[trigger] plain_form(qv) implies s@ != render_v(qv) by {
                }
            }
            None
        },
    }
}

} // verus!
