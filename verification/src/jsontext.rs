//! Minified JSON text: an exact specification of the serialized form of a
//! document, and a writer proved against it.

use vstd::prelude::*;
use crate::hash::{hex_digit, hex_digit_exec};
use crate::json::{Json, JsonV, dv_seq, dv_fields, lemma_dv_seq_len, lemma_dv_fields_len};
use crate::numtext::{int_str, i64_to_dec};
use crate::strutil::chars_to_string;
use vstd::string::StrSliceExecFns;

verus! {

/// The escape of one character inside a JSON string literal.
pub open spec fn esc_char(c: char) -> Seq<char> {
    if c == '"' {
        seq!['\\', '"']
    } else if c == '\\' {
        seq!['\\', '\\']
    } else if c == '\n' {
        seq!['\\', 'n']
    } else if c == '\r' {
        seq!['\\', 'r']
    } else if c == '\t' {
        seq!['\\', 't']
    } else if (c as u32) < 0x20 {
        seq!['\\', 'u', '0', '0', hex_digit((c as u32 / 16) as u8), hex_digit((c as u32 % 16) as u8)]
    } else {
        seq![c]
    }
}

/// The escaped body of a string literal.
pub open spec fn esc_str(s: Seq<char>) -> Seq<char>
    decreases s.len(),
{
    if s.len() == 0 {
        Seq::empty()
    } else {
        esc_char(s[0]) + esc_str(s.drop_first())
    }
}

/// A JSON string literal: quoted, escaped.
pub open spec fn str_lit(s: Seq<char>) -> Seq<char> {
    seq!['"'] + esc_str(s) + seq!['"']
}

/// The minified text of a document.
pub open spec fn json_text(v: JsonV) -> Seq<char>
    decreases v,
{
    match v {
        JsonV::Null => seq!['n', 'u', 'l', 'l'],
        JsonV::Bool(b) => if b {
            seq!['t', 'r', 'u', 'e']
        } else {
            seq!['f', 'a', 'l', 's', 'e']
        },
        JsonV::Int(i) => int_str(i),
        JsonV::Num(s) => s,
        JsonV::Str(s) => str_lit(s),
        JsonV::Arr(elems) => seq!['['] + arr_text(elems) + seq![']'],
        JsonV::Obj(fields) => seq!['{'] + obj_text(fields) + seq!['}'],
    }
}

/// The comma-joined texts of array elements.
pub open spec fn arr_text(elems: Seq<JsonV>) -> Seq<char>
    decreases elems,
{
    if elems.len() == 0 {
        Seq::empty()
    } else if elems.len() == 1 {
        json_text(elems[0])
    } else {
        json_text(elems[0]) + seq![','] + arr_text(elems.drop_first())
    }
}

/// The comma-joined `"key":value` texts of object members.
pub open spec fn obj_text(fields: Seq<(Seq<char>, JsonV)>) -> Seq<char>
    decreases fields,
{
    if fields.len() == 0 {
        Seq::empty()
    } else if fields.len() == 1 {
        str_lit(fields[0].0) + seq![':'] + json_text(fields[0].1)
    } else {
        str_lit(fields[0].0) + seq![':'] + json_text(fields[0].1) + seq![','] + obj_text(
            fields.drop_first(),
        )
    }
}

proof fn lemma_esc_str_snoc(s: Seq<char>, i: int)
    requires
        0 <= i < s.len(),
    ensures
        esc_str(s.take(i + 1)) == esc_str(s.take(i)) + esc_char(s[i]),
    decreases i,
{
    if i == 0 {
        assert(s.take(1) =~= seq![s[0]]);
        assert(s.take(1).drop_first() =~= Seq::<char>::empty());
        assert(s.take(0) =~= Seq::<char>::empty());
        assert(s.take(1)[0] == s[0]);
        assert(esc_str(Seq::<char>::empty()) == Seq::<char>::empty());
        assert(esc_str(s.take(1)) == esc_char(s[0]) + esc_str(s.take(1).drop_first()));
        assert(esc_char(s[0]) + Seq::<char>::empty() =~= esc_char(s[0]));
        assert(esc_str(s.take(0)) + esc_char(s[0]) =~= esc_char(s[0]));
    } else {
        let t = s.drop_first();
        lemma_esc_str_snoc(t, i - 1);
        assert(s.take(i + 1).drop_first() =~= t.take(i));
        assert(s.take(i).drop_first() =~= t.take(i - 1));
        assert(s.take(i + 1)[0] == s[0]);
        assert(s.take(i)[0] == s[0]);
        assert(t[i - 1] == s[i]);
        assert(esc_str(s.take(i + 1)) == esc_char(s[0]) + esc_str(t.take(i)));
        assert(esc_str(s.take(i)) == esc_char(s[0]) + esc_str(t.take(i - 1)));
        assert(esc_char(s[0]) + (esc_str(t.take(i - 1)) + esc_char(s[i])) =~= (esc_char(s[0])
            + esc_str(t.take(i - 1))) + esc_char(s[i]));
    }
}

/// Append the escape of one character.
fn push_esc_char(c: char, out: &mut Vec<char>)
    ensures
        final(out)@ == old(out)@ + esc_char(c),
{
    let ghost pre = out@;
    if c == '"' {
        out.push('\\');
        out.push('"');
    } else if c == '\\' {
        out.push('\\');
        out.push('\\');
    } else if c == '\n' {
        out.push('\\');
        out.push('n');
    } else if c == '\r' {
        out.push('\\');
        out.push('r');
    } else if c == '\t' {
        out.push('\\');
        out.push('t');
    } else if (c as u32) < 0x20 {
        out.push('\\');
        out.push('u');
        out.push('0');
        out.push('0');
        let code = c as u32;
        out.push(hex_digit_exec((code / 16) as u8));
        out.push(hex_digit_exec((code % 16) as u8));
    } else {
        out.push(c);
    }
    proof {
        assert(out@ =~= pre + esc_char(c));
    }
}

/// Append a string literal.
#[verifier::loop_isolation(false)]
fn push_str_lit(s: &str, out: &mut Vec<char>)
    ensures
        final(out)@ == old(out)@ + str_lit(s@),
{
    out.push('"');
    let ghost base = out@;
    let n = s.unicode_len();
    let mut i: usize = 0;
    while i < n
        invariant
            i <= n,
            out@ == base + esc_str(s@.take(i as int)),
        decreases n - i,
    {
        proof {
            assert(s@.take(0) =~= Seq::<char>::empty());
            lemma_esc_str_snoc(s@, i as int);
        }
        push_esc_char(s.get_char(i), out);
        i = i + 1;
    }
    proof {
        assert(s@.take(n as int) =~= s@);
    }
    out.push('"');
    proof {
        assert(out@ =~= old(out)@ + str_lit(s@));
    }
}

proof fn lemma_arr_text_split(elems: Seq<JsonV>, i: int)
    requires
        0 <= i < elems.len(),
    ensures
        arr_text(elems.take(i + 1)) == if i == 0 {
            json_text(elems[0])
        } else {
            arr_text(elems.take(i)) + seq![','] + json_text(elems[i])
        },
    decreases i,
{
    if i == 0 {
        assert(elems.take(1) =~= seq![elems[0]]);
    } else {
        let t = elems.drop_first();
        lemma_arr_text_split(t, i - 1);
        assert(elems.take(i + 1).drop_first() =~= t.take(i));
        assert(elems.take(i).drop_first() =~= t.take(i - 1));
        assert(elems.take(i + 1)[0] == elems[0]);
        assert(elems.take(i)[0] == elems[0]);
        assert(t[i - 1] == elems[i]);
        assert(elems.take(i + 1).len() == i + 1);
        if i == 1 {
            assert(arr_text(elems.take(2)) == json_text(elems[0]) + seq![','] + arr_text(t.take(1)));
            assert(arr_text(elems.take(1)) == json_text(elems[0]));
            assert(arr_text(t.take(1)) == json_text(t[0]));
        } else {
            assert(arr_text(elems.take(i + 1)) == json_text(elems[0]) + seq![','] + arr_text(
                t.take(i),
            ));
            assert(arr_text(elems.take(i)) == json_text(elems[0]) + seq![','] + arr_text(
                t.take(i - 1),
            ));
            assert((json_text(elems[0]) + seq![','] + (arr_text(t.take(i - 1)) + seq![',']
                + json_text(t[i - 1]))) =~= ((json_text(elems[0]) + seq![','] + arr_text(
                t.take(i - 1),
            )) + seq![','] + json_text(t[i - 1])));
        }
    }
}

proof fn lemma_obj_text_split(fields: Seq<(Seq<char>, JsonV)>, i: int)
    requires
        0 <= i < fields.len(),
    ensures
        obj_text(fields.take(i + 1)) == if i == 0 {
            str_lit(fields[0].0) + seq![':'] + json_text(fields[0].1)
        } else {
            obj_text(fields.take(i)) + seq![','] + str_lit(fields[i].0) + seq![':'] + json_text(
                fields[i].1,
            )
        },
    decreases i,
{
    if i == 0 {
        assert(fields.take(1) =~= seq![fields[0]]);
    } else {
        let t = fields.drop_first();
        lemma_obj_text_split(t, i - 1);
        assert(fields.take(i + 1).drop_first() =~= t.take(i));
        assert(fields.take(i).drop_first() =~= t.take(i - 1));
        assert(fields.take(i + 1)[0] == fields[0]);
        assert(fields.take(i)[0] == fields[0]);
        assert(t[i - 1] == fields[i]);
        let head = str_lit(fields[0].0) + seq![':'] + json_text(fields[0].1);
        if i == 1 {
            assert(obj_text(fields.take(2)) == head + seq![','] + obj_text(t.take(1)));
            assert(obj_text(t.take(1)) == str_lit(t[0].0) + seq![':'] + json_text(t[0].1));
            assert(obj_text(fields.take(1)) == head);
        } else {
            assert(obj_text(fields.take(i + 1)) == head + seq![','] + obj_text(t.take(i)));
            assert(obj_text(fields.take(i)) == head + seq![','] + obj_text(t.take(i - 1)));
            assert((head + seq![','] + (obj_text(t.take(i - 1)) + seq![','] + str_lit(t[i - 1].0)
                + seq![':'] + json_text(t[i - 1].1))) =~= ((head + seq![','] + obj_text(
                t.take(i - 1),
            )) + seq![','] + str_lit(t[i - 1].0) + seq![':'] + json_text(t[i - 1].1)));
        }
    }
}

/// Append the minified text of a document.
#[verifier::loop_isolation(false)]
#[verifier::rlimit(60)]
#[verifier::spinoff_prover]
pub fn write_json(v: &Json, out: &mut Vec<char>)
    ensures
        final(out)@ == old(out)@ + json_text(v.dv()),
    decreases v,
{
    match v {
        Json::Null => {
            let ghost pre = out@;
            out.push('n');
            out.push('u');
            out.push('l');
            out.push('l');
            proof {
                assert(out@ =~= pre + json_text(JsonV::Null));
            }
        },
        Json::Bool(b) => {
            let ghost pre = out@;
            if *b {
                out.push('t');
                out.push('r');
                out.push('u');
                out.push('e');
            } else {
                out.push('f');
                out.push('a');
                out.push('l');
                out.push('s');
                out.push('e');
            }
            proof {
                assert(out@ =~= pre + json_text(v.dv()));
            }
        },
        Json::Int(i) => {
            let mut digits = i64_to_dec(*i);
            out.append(&mut digits);
        },
        Json::Num(s) => {
            let mut text = crate::strutil::string_to_chars(s.as_str());
            out.append(&mut text);
        },
        Json::Str(s) => {
            push_str_lit(s.as_str(), out);
        },
        Json::Arr(elems) => {
            proof {
                lemma_dv_seq_len(elems@);
            }
            out.push('[');
            let ghost base = out@;
            let mut i: usize = 0;
            while i < elems.len()
                invariant
                    i <= elems@.len(),
                    out@ == base + arr_text(dv_seq(elems@).take(i as int)),
                decreases elems@.len() - i,
            {
                proof {
                    assert(dv_seq(elems@).take(0) =~= Seq::<JsonV>::empty());
                }
                if i > 0 {
                    out.push(',');
                }
                write_json(&elems[i], out);
                proof {
                    lemma_arr_text_split(dv_seq(elems@), i as int);
                    assert(dv_seq(elems@)[i as int] == elems@[i as int].dv());
                }
                i = i + 1;
            }
            proof {
                assert(dv_seq(elems@).take(elems@.len() as int) =~= dv_seq(elems@));
            }
            out.push(']');
            proof {
                assert(out@ =~= old(out)@ + json_text(v.dv()));
            }
        },
        Json::Obj(fields) => {
            proof {
                lemma_dv_fields_len(fields@);
            }
            out.push('{');
            let ghost base = out@;
            let mut i: usize = 0;
            while i < fields.len()
                invariant
                    i <= fields@.len(),
                    out@ == base + obj_text(dv_fields(fields@).take(i as int)),
                decreases fields@.len() - i,
            {
                proof {
                    assert(dv_fields(fields@).take(0) =~= Seq::<(Seq<char>, JsonV)>::empty());
                }
                if i > 0 {
                    out.push(',');
                }
                let entry = &fields[i];
                push_str_lit(entry.0.as_str(), out);
                out.push(':');
                write_json(&entry.1, out);
                proof {
                    lemma_obj_text_split(dv_fields(fields@), i as int);
                    assert(dv_fields(fields@)[i as int] == (fields@[i as int].0@, fields@[
                    i as int].1.dv()));
                    assert(out@ =~= base + obj_text(dv_fields(fields@).take(i + 1)));
                }
                i = i + 1;
            }
            proof {
                assert(dv_fields(fields@).take(fields@.len() as int) =~= dv_fields(fields@));
            }
            out.push('}');
            proof {
                assert(out@ =~= old(out)@ + json_text(v.dv()));
            }
        },
    }
}

/// The minified text of a document, as a string.
pub fn json_to_string(v: &Json) -> (r: String)
    ensures
        r@ == json_text(v.dv()),
{
    let mut out: Vec<char> = Vec::new();
    write_json(v, &mut out);
    chars_to_string(&out)
}

} // verus!
