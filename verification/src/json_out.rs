//! Serialization of JSON values back to bytes: the exact output format,
//! stated as spec functions, and the executable writer proved against it.
//! Strings are escaped the way the reference serializer escapes them:
//! quote, backslash and control characters, nothing else.
use vstd::prelude::*;
use crate::json::{JsonV, JsonValue, jv, jv_list, jv_pairs, lemma_jv_list_len, lemma_jv_pairs_len};

verus! {

/// Hex digit (lowercase) for a value below 16.
pub open spec fn hex_digit(v: int) -> u8 {
    if v < 10 {
        (48 + v) as u8
    } else {
        (87 + v) as u8
    }
}

/// How one byte of string content is written: named escapes for quote,
/// backslash and common controls, `\u00XX` for other controls, the byte
/// itself otherwise.
pub open spec fn esc_byte(b: u8) -> Seq<u8> {
    if b == 34 {
        seq![92u8, 34u8]
    } else if b == 92 {
        seq![92u8, 92u8]
    } else if b == 8 {
        seq![92u8, 98u8]
    } else if b == 12 {
        seq![92u8, 102u8]
    } else if b == 10 {
        seq![92u8, 110u8]
    } else if b == 13 {
        seq![92u8, 114u8]
    } else if b == 9 {
        seq![92u8, 116u8]
    } else if b < 32 {
        seq![92u8, 117u8, 48u8, 48u8, hex_digit(b as int / 16), hex_digit(b as int % 16)]
    } else {
        seq![b]
    }
}

/// String content, escaped byte for byte.
pub open spec fn esc_bytes(s: Seq<u8>) -> Seq<u8>
    decreases s.len(),
{
    if s.len() == 0 {
        Seq::empty()
    } else {
        esc_bytes(s.drop_last()) + esc_byte(s.last())
    }
}

pub proof fn lemma_esc_bytes_take(s: Seq<u8>, i: int)
    requires
        0 <= i < s.len(),
    ensures
        esc_bytes(s.take(i + 1)) == esc_bytes(s.take(i)) + esc_byte(s[i]),
{
    assert(s.take(i + 1).drop_last() =~= s.take(i));
    assert(s.take(i + 1).last() == s[i]);
}

/// A serialized JSON string: quoted, escaped content.
pub open spec fn ser_str(b: Seq<u8>) -> Seq<u8> {
    seq![34u8] + esc_bytes(b) + seq![34u8]
}

/// The serialized form of a value: minified, keys and elements in stored
/// order, numbers as their lexemes.
pub open spec fn ser(v: JsonV) -> Seq<u8>
    decreases v,
{
    match v {
        JsonV::Null => seq![110u8, 117u8, 108u8, 108u8],
        JsonV::Bool(t) => if t {
            seq![116u8, 114u8, 117u8, 101u8]
        } else {
            seq![102u8, 97u8, 108u8, 115u8, 101u8]
        },
        JsonV::Num(lex) => lex,
        JsonV::Str(b) => ser_str(b),
        JsonV::Arr(xs) => seq![91u8] + ser_items(xs) + seq![93u8],
        JsonV::Obj(ps) => seq![123u8] + ser_members(ps) + seq![125u8],
    }
}

/// Array elements joined by commas.
pub open spec fn ser_items(xs: Seq<JsonV>) -> Seq<u8>
    decreases xs,
{
    if xs.len() == 0 {
        Seq::empty()
    } else {
        ser_items(xs.drop_last()) + (if xs.len() > 1 {
            seq![44u8]
        } else {
            Seq::empty()
        }) + ser(xs.last())
    }
}

/// Object members, `"key":value` joined by commas.
pub open spec fn ser_members(ps: Seq<(Seq<u8>, JsonV)>) -> Seq<u8>
    decreases ps,
{
    if ps.len() == 0 {
        Seq::empty()
    } else {
        ser_members(ps.drop_last()) + (if ps.len() > 1 {
            seq![44u8]
        } else {
            Seq::empty()
        }) + ser_str(ps.last().0) + seq![58u8] + ser(ps.last().1)
    }
}

pub proof fn lemma_ser_items_take(xs: Seq<JsonV>, i: int)
    requires
        0 <= i < xs.len(),
    ensures
        ser_items(xs.take(i + 1)) == ser_items(xs.take(i)) + (if i > 0 {
            seq![44u8]
        } else {
            Seq::<u8>::empty()
        }) + ser(xs[i]),
{
    assert(xs.take(i + 1).drop_last() =~= xs.take(i));
    assert(xs.take(i + 1).last() == xs[i]);
}

pub proof fn lemma_ser_members_take(ps: Seq<(Seq<u8>, JsonV)>, i: int)
    requires
        0 <= i < ps.len(),
    ensures
        ser_members(ps.take(i + 1)) == ser_members(ps.take(i)) + (if i > 0 {
            seq![44u8]
        } else {
            Seq::<u8>::empty()
        }) + ser_str(ps[i].0) + seq![58u8] + ser(ps[i].1),
{
    assert(ps.take(i + 1).drop_last() =~= ps.take(i));
    assert(ps.take(i + 1).last() == ps[i]);
}

/// Append the escaped form of `s` to `out`.
pub fn write_escaped(out: &mut Vec<u8>, s: &[u8])
    ensures
        final(out)@ == old(out)@ + esc_bytes(s@),
{
    let mut i: usize = 0;
    proof {
        assert(s@.take(0) =~= Seq::<u8>::empty());
    }
    while i < s.len()
        invariant
            0 <= i <= s@.len(),
            out@ == old(out)@ + esc_bytes(s@.take(i as int)),
        decreases s@.len() - i,
    {
        let b = s[i];
        proof {
            lemma_esc_bytes_take(s@, i as int);
        }
        if b == 34 {
            out.push(92);
            out.push(34);
        } else if b == 92 {
            out.push(92);
            out.push(92);
        } else if b == 8 {
            out.push(92);
            out.push(98);
        } else if b == 12 {
            out.push(92);
            out.push(102);
        } else if b == 10 {
            out.push(92);
            out.push(110);
        } else if b == 13 {
            out.push(92);
            out.push(114);
        } else if b == 9 {
            out.push(92);
            out.push(116);
        } else if b < 32 {
            out.push(92);
            out.push(117);
            out.push(48);
            out.push(48);
            let hi = b / 16;
            let lo = b % 16;
            out.push(if hi < 10 {
                48 + hi
            } else {
                87 + hi
            });
            out.push(if lo < 10 {
                48 + lo
            } else {
                87 + lo
            });
        } else {
            out.push(b);
        }
        assert(out@ =~= old(out)@ + esc_bytes(s@.take(i + 1 as int)));
        i = i + 1;
    }
    proof {
        assert(s@.take(s@.len() as int) =~= s@);
    }
}

/// Append a serialized JSON string (quotes and escaping) to `out`.
pub fn write_json_string(out: &mut Vec<u8>, s: &[u8])
    ensures
        final(out)@ == old(out)@ + ser_str(s@),
{
    out.push(34);
    write_escaped(out, s);
    out.push(34);
    assert(out@ =~= old(out)@ + ser_str(s@));
}

/// Append the serialized form of `v` to `out`.
pub fn write_value(out: &mut Vec<u8>, v: &JsonValue)
    ensures
        final(out)@ == old(out)@ + ser(jv(*v)),
    decreases v,
{
    match v {
        JsonValue::Null => {
            out.push(110);
            out.push(117);
            out.push(108);
            out.push(108);
            assert(out@ =~= old(out)@ + ser(jv(*v)));
        },
        JsonValue::Bool(t) => {
            if *t {
                out.push(116);
                out.push(114);
                out.push(117);
                out.push(101);
            } else {
                out.push(102);
                out.push(97);
                out.push(108);
                out.push(115);
                out.push(101);
            }
            assert(out@ =~= old(out)@ + ser(jv(*v)));
        },
        JsonValue::Num(lex) => {
            crate::bytes::append_slice(out, lex.as_slice());
            assert(out@ =~= old(out)@ + ser(jv(*v)));
        },
        JsonValue::Str(b) => {
            write_json_string(out, b.as_slice());
            assert(out@ =~= old(out)@ + ser(jv(*v)));
        },
        JsonValue::Arr(xs) => {
            out.push(91);
            let ghost gl = jv_list(xs@);
            proof {
                lemma_jv_list_len(xs@);
                assert(gl.take(0) =~= Seq::<JsonV>::empty());
            }
            let mut i: usize = 0;
            while i < xs.len()
                invariant
                    0 <= i <= xs@.len(),
                    *v == JsonValue::Arr(*xs),
                    gl == jv_list(xs@),
                    gl.len() == xs@.len(),
                    forall|k: int| 0 <= k < xs@.len() ==> gl[k] == jv(xs@[k]),
                    out@ == old(out)@ + seq![91u8] + ser_items(gl.take(i as int)),
                decreases xs@.len() - i,
            {
                if i > 0 {
                    out.push(44);
                }
                proof {
                    assert(decreases_to!(*v => (*v)->Arr_0));
                    assert((*v)->Arr_0 == *xs);
                    assert(decreases_to!(*xs => xs@));
                    assert(decreases_to!(xs@ => xs@[i as int]));
                }
                write_value(out, &xs[i]);
                proof {
                    lemma_ser_items_take(gl, i as int);
                    assert(out@ =~= old(out)@ + seq![91u8] + ser_items(gl.take(i + 1 as int)));
                }
                i = i + 1;
            }
            out.push(93);
            proof {
                assert(gl.take(gl.len() as int) =~= gl);
                assert(out@ =~= old(out)@ + ser(jv(*v)));
            }
        },
        JsonValue::Obj(ps) => {
            out.push(123);
            let ghost gp = jv_pairs(ps@);
            proof {
                lemma_jv_pairs_len(ps@);
                assert(gp.take(0) =~= Seq::<(Seq<u8>, JsonV)>::empty());
            }
            let mut i: usize = 0;
            while i < ps.len()
                invariant
                    0 <= i <= ps@.len(),
                    *v == JsonValue::Obj(*ps),
                    gp == jv_pairs(ps@),
                    gp.len() == ps@.len(),
                    forall|k: int| 0 <= k < ps@.len() ==> gp[k] == (ps@[k].0@, jv(ps@[k].1)),
                    out@ == old(out)@ + seq![123u8] + ser_members(gp.take(i as int)),
                decreases ps@.len() - i,
            {
                if i > 0 {
                    out.push(44);
                }
                write_json_string(out, ps[i].0.as_slice());
                out.push(58);
                proof {
                    assert(decreases_to!(*v => (*v)->Obj_0));
                    assert((*v)->Obj_0 == *ps);
                    assert(decreases_to!(*ps => ps@));
                    assert(decreases_to!(ps@ => ps@[i as int]));
                    assert(decreases_to!(ps@[i as int] => ps@[i as int].1));
                }
                write_value(out, &ps[i].1);
                proof {
                    lemma_ser_members_take(gp, i as int);
                    assert(out@ =~= old(out)@ + seq![123u8] + ser_members(gp.take(i + 1 as int)));
                }
                i = i + 1;
            }
            out.push(125);
            proof {
                assert(gp.take(gp.len() as int) =~= gp);
                assert(out@ =~= old(out)@ + ser(jv(*v)));
            }
        },
    }
}

/// Two spaces of indentation per nesting level.
pub open spec fn pretty_indent(d: nat) -> Seq<u8>
    decreases d,
{
    if d == 0 {
        Seq::empty()
    } else {
        pretty_indent((d - 1) as nat) + seq![32u8, 32u8]
    }
}

/// The pretty-printed form of a value at nesting depth `d`: two-space
/// indentation, one element or member per line, a space after each
/// key's colon, empty containers compact. Scalars print as in `ser`.
pub open spec fn serp(v: JsonV, d: nat) -> Seq<u8>
    decreases v,
{
    match v {
        JsonV::Arr(xs) => if xs.len() == 0 {
            seq![91u8, 93u8]
        } else {
            seq![91u8, 10u8] + serp_items(xs, (d + 1) as nat) + seq![10u8] + pretty_indent(d)
                + seq![93u8]
        },
        JsonV::Obj(ps) => if ps.len() == 0 {
            seq![123u8, 125u8]
        } else {
            seq![123u8, 10u8] + serp_members(ps, (d + 1) as nat) + seq![10u8] + pretty_indent(d)
                + seq![125u8]
        },
        _ => ser(v),
    }
}

/// Pretty array elements: each on its own indented line, joined by
/// comma-newline.
pub open spec fn serp_items(xs: Seq<JsonV>, d: nat) -> Seq<u8>
    decreases xs,
{
    if xs.len() == 0 {
        Seq::empty()
    } else {
        serp_items(xs.drop_last(), d) + (if xs.len() > 1 {
            seq![44u8, 10u8]
        } else {
            Seq::empty()
        }) + pretty_indent(d) + serp(xs.last(), d)
    }
}

/// Pretty object members: `"key": value`, each on its own indented
/// line, joined by comma-newline.
pub open spec fn serp_members(ps: Seq<(Seq<u8>, JsonV)>, d: nat) -> Seq<u8>
    decreases ps,
{
    if ps.len() == 0 {
        Seq::empty()
    } else {
        serp_members(ps.drop_last(), d) + (if ps.len() > 1 {
            seq![44u8, 10u8]
        } else {
            Seq::empty()
        }) + pretty_indent(d) + ser_str(ps.last().0) + seq![58u8, 32u8] + serp(ps.last().1, d)
    }
}

pub proof fn lemma_serp_items_take(xs: Seq<JsonV>, d: nat, i: int)
    requires
        0 <= i < xs.len(),
    ensures
        serp_items(xs.take(i + 1), d) == serp_items(xs.take(i), d) + (if i > 0 {
            seq![44u8, 10u8]
        } else {
            Seq::<u8>::empty()
        }) + pretty_indent(d) + serp(xs[i], d),
{
    assert(xs.take(i + 1).drop_last() =~= xs.take(i));
    assert(xs.take(i + 1).last() == xs[i]);
}

pub proof fn lemma_serp_members_take(ps: Seq<(Seq<u8>, JsonV)>, d: nat, i: int)
    requires
        0 <= i < ps.len(),
    ensures
        serp_members(ps.take(i + 1), d) == serp_members(ps.take(i), d) + (if i > 0 {
            seq![44u8, 10u8]
        } else {
            Seq::<u8>::empty()
        }) + pretty_indent(d) + ser_str(ps[i].0) + seq![58u8, 32u8] + serp(ps[i].1, d),
{
    assert(ps.take(i + 1).drop_last() =~= ps.take(i));
    assert(ps.take(i + 1).last() == ps[i]);
}

/// Append the pretty-printed form of `v` at depth `d` to `out`; `ind`
/// carries the indentation bytes for depth `d`.
pub fn write_value_pretty(out: &mut Vec<u8>, v: &JsonValue, ind: &Vec<u8>, Ghost(d): Ghost<nat>)
    requires
        ind@ == pretty_indent(d),
    ensures
        final(out)@ == old(out)@ + serp(jv(*v), d),
    decreases v,
{
    match v {
        JsonValue::Null => {
            write_value(out, v);
            assert(out@ =~= old(out)@ + serp(jv(*v), d));
        },
        JsonValue::Bool(_) => {
            write_value(out, v);
            assert(out@ =~= old(out)@ + serp(jv(*v), d));
        },
        JsonValue::Num(_) => {
            write_value(out, v);
            assert(out@ =~= old(out)@ + serp(jv(*v), d));
        },
        JsonValue::Str(_) => {
            write_value(out, v);
            assert(out@ =~= old(out)@ + serp(jv(*v), d));
        },
        JsonValue::Arr(xs) => {
            if xs.len() == 0 {
                out.push(91);
                out.push(93);
                assert(out@ =~= old(out)@ + serp(jv(*v), d));
                return ;
            }
            let mut ind2: Vec<u8> = Vec::new();
            crate::bytes::append_slice(&mut ind2, ind.as_slice());
            ind2.push(32);
            ind2.push(32);
            proof {
                assert(ind2@ =~= pretty_indent((d + 1) as nat));
            }
            out.push(91);
            out.push(10);
            let ghost gl = jv_list(xs@);
            proof {
                lemma_jv_list_len(xs@);
                assert(gl.take(0) =~= Seq::<JsonV>::empty());
                assert(serp_items(gl.take(0), (d + 1) as nat) =~= Seq::<u8>::empty());
            }
            let mut i: usize = 0;
            while i < xs.len()
                invariant
                    0 <= i <= xs@.len(),
                    *v == JsonValue::Arr(*xs),
                    gl == jv_list(xs@),
                    gl.len() == xs@.len(),
                    forall|k: int| 0 <= k < xs@.len() ==> gl[k] == jv(xs@[k]),
                    ind2@ == pretty_indent((d + 1) as nat),
                    out@ == old(out)@ + seq![91u8, 10u8] + serp_items(
                        gl.take(i as int),
                        (d + 1) as nat,
                    ),
                decreases xs@.len() - i,
            {
                if i > 0 {
                    out.push(44);
                    out.push(10);
                }
                crate::bytes::append_slice(out, ind2.as_slice());
                proof {
                    assert(decreases_to!(*v => (*v)->Arr_0));
                    assert((*v)->Arr_0 == *xs);
                    assert(decreases_to!(*xs => xs@));
                    assert(decreases_to!(xs@ => xs@[i as int]));
                }
                write_value_pretty(out, &xs[i], &ind2, Ghost((d + 1) as nat));
                proof {
                    lemma_serp_items_take(gl, (d + 1) as nat, i as int);
                    assert(out@ =~= old(out)@ + seq![91u8, 10u8] + serp_items(
                        gl.take(i + 1 as int),
                        (d + 1) as nat,
                    ));
                }
                i = i + 1;
            }
            out.push(10);
            crate::bytes::append_slice(out, ind.as_slice());
            out.push(93);
            proof {
                assert(gl.take(gl.len() as int) =~= gl);
                assert(out@ =~= old(out)@ + serp(jv(*v), d));
            }
        },
        JsonValue::Obj(ps) => {
            if ps.len() == 0 {
                out.push(123);
                out.push(125);
                assert(out@ =~= old(out)@ + serp(jv(*v), d));
                return ;
            }
            let mut ind2: Vec<u8> = Vec::new();
            crate::bytes::append_slice(&mut ind2, ind.as_slice());
            ind2.push(32);
            ind2.push(32);
            proof {
                assert(ind2@ =~= pretty_indent((d + 1) as nat));
            }
            out.push(123);
            out.push(10);
            let ghost gp = jv_pairs(ps@);
            proof {
                lemma_jv_pairs_len(ps@);
                assert(gp.take(0) =~= Seq::<(Seq<u8>, JsonV)>::empty());
                assert(serp_members(gp.take(0), (d + 1) as nat) =~= Seq::<u8>::empty());
            }
            let mut i: usize = 0;
            while i < ps.len()
                invariant
                    0 <= i <= ps@.len(),
                    *v == JsonValue::Obj(*ps),
                    gp == jv_pairs(ps@),
                    gp.len() == ps@.len(),
                    forall|k: int| 0 <= k < ps@.len() ==> gp[k] == (ps@[k].0@, jv(ps@[k].1)),
                    ind2@ == pretty_indent((d + 1) as nat),
                    out@ == old(out)@ + seq![123u8, 10u8] + serp_members(
                        gp.take(i as int),
                        (d + 1) as nat,
                    ),
                decreases ps@.len() - i,
            {
                if i > 0 {
                    out.push(44);
                    out.push(10);
                }
                crate::bytes::append_slice(out, ind2.as_slice());
                write_json_string(out, ps[i].0.as_slice());
                out.push(58);
                out.push(32);
                proof {
                    assert(decreases_to!(*v => (*v)->Obj_0));
                    assert((*v)->Obj_0 == *ps);
                    assert(decreases_to!(*ps => ps@));
                    assert(decreases_to!(ps@ => ps@[i as int]));
                    assert(decreases_to!(ps@[i as int] => ps@[i as int].1));
                }
                write_value_pretty(out, &ps[i].1, &ind2, Ghost((d + 1) as nat));
                proof {
                    lemma_serp_members_take(gp, (d + 1) as nat, i as int);
                    assert(out@ =~= old(out)@ + seq![123u8, 10u8] + serp_members(
                        gp.take(i + 1 as int),
                        (d + 1) as nat,
                    ));
                }
                i = i + 1;
            }
            out.push(10);
            crate::bytes::append_slice(out, ind.as_slice());
            out.push(125);
            proof {
                assert(gp.take(gp.len() as int) =~= gp);
                assert(out@ =~= old(out)@ + serp(jv(*v), d));
            }
        },
    }
}

/// The serialized form of `v` as an owned vector.
pub fn ser_to_vec(v: &JsonValue) -> (r: Vec<u8>)
    ensures
        r@ == ser(jv(*v)),
{
    let mut out: Vec<u8> = Vec::new();
    write_value(&mut out, v);
    assert(out@ =~= ser(jv(*v)));
    out
}

} // verus!
