//! The CSV writer: consumes one NDJSON object per line, flattens it to
//! dot-notation keys, discovers and freezes the header on the first
//! record, and emits RFC-4180-style rows with minimal quoting.
use vstd::prelude::*;
use vstd::string::StringSliceAdditionalSpecFns;
use crate::bytes::{
    append_slice, bytes_eq, contains_bytes, copy_range, lex_le, sort_lex, sort_lex_exec, vv,
};
use crate::csv_parser::{
    CsvConfig, dec_digits, finalize_field, split_fields, split_plain, split_quoted,
};
use crate::bytes::{find_from, lemma_find_from};
use crate::detect::{key_idx, lemma_key_idx, set_union};
use crate::error::ConvertError;
use crate::json::{JsonV, JsonValue, jv, jv_pairs, jv_list, parse_json, spec_parse,
    lemma_jv_pairs_len, lemma_jv_list_len};
use crate::json_out::ser;

verus! {

/// A scalar's text in a CSV cell: strings as their bytes, numbers as
/// their lexemes, booleans spelled out, null empty.
pub open spec fn scalar_text(v: JsonV) -> Seq<u8> {
    match v {
        JsonV::Str(s) => s,
        JsonV::Num(n) => n,
        JsonV::Bool(t) => if t {
            seq![116u8, 114u8, 117u8, 101u8]
        } else {
            seq![102u8, 97u8, 108u8, 115u8, 101u8]
        },
        JsonV::Null => Seq::empty(),
        _ => Seq::empty(),
    }
}

pub open spec fn is_scalar(v: JsonV) -> bool {
    !(v is Obj) && !(v is Arr)
}

/// A nested key: `prefix.key`, or just `key` at the top.
pub open spec fn dot_join(prefix: Seq<u8>, k: Seq<u8>) -> Seq<u8> {
    if prefix.len() == 0 {
        k
    } else {
        prefix + seq![46u8] + k
    }
}

/// Store a flattened cell: the last write under a key wins.
pub open spec fn fupsert(acc: Seq<(Seq<u8>, Seq<u8>)>, k: Seq<u8>, v: Seq<u8>) -> Seq<
    (Seq<u8>, Seq<u8>),
> {
    match key_idx(acc, k, 0) {
        Some(i) => if 0 <= i < acc.len() {
            acc.update(i, (k, v))
        } else {
            acc
        },
        None => acc.push((k, v)),
    }
}

/// Flatten one value under its key: objects recurse with a dotted
/// prefix, arrays index their elements, scalars become cells.
pub open spec fn flat_entry(key: Seq<u8>, v: JsonV, acc: Seq<(Seq<u8>, Seq<u8>)>) -> Seq<
    (Seq<u8>, Seq<u8>),
>
    decreases v, 0nat, 0nat,
{
    match v {
        JsonV::Obj(ps) => flat_obj(key, ps, acc),
        JsonV::Arr(xs) => flat_arr(key, xs, 0, acc),
        _ => fupsert(acc, key, scalar_text(v)),
    }
}

/// Flatten an object's members in order.
pub open spec fn flat_obj(prefix: Seq<u8>, ps: Seq<(Seq<u8>, JsonV)>, acc: Seq<
    (Seq<u8>, Seq<u8>),
>) -> Seq<(Seq<u8>, Seq<u8>)>
    decreases ps, 0nat, 1nat,
{
    if ps.len() == 0 {
        acc
    } else {
        flat_obj(prefix, ps.drop_first(), flat_entry(dot_join(prefix, ps[0].0), ps[0].1, acc))
    }
}

/// Flatten an array's elements under indexed keys; a nested array
/// inside an array is stored as its JSON text.
pub open spec fn flat_arr(key: Seq<u8>, xs: Seq<JsonV>, i: int, acc: Seq<(Seq<u8>, Seq<u8>)>) -> Seq<
    (Seq<u8>, Seq<u8>),
>
    decreases xs, xs.len() - i, 2nat,
{
    if i < 0 || i >= xs.len() {
        acc
    } else {
        let ik = dot_join(key, dec_digits(i as nat));
        let acc2 = match xs[i] {
            JsonV::Obj(ps) => flat_obj(ik, ps, acc),
            JsonV::Arr(_) => fupsert(acc, ik, ser(xs[i])),
            _ => fupsert(acc, ik, scalar_text(xs[i])),
        };
        flat_arr(key, xs, i + 1, acc2)
    }
}

/// The flattened cells of a record.
pub open spec fn flatten_record(ps: Seq<(Seq<u8>, JsonV)>) -> Seq<(Seq<u8>, Seq<u8>)> {
    flat_obj(Seq::empty(), ps, Seq::empty())
}

/// The keys of a flattened record, in first-written order.
pub open spec fn flat_keys(flat: Seq<(Seq<u8>, Seq<u8>)>) -> Seq<Seq<u8>> {
    Seq::new(flat.len(), |i: int| flat[i].0)
}

/// A field is quoted when it holds the delimiter, a quote, or a
/// newline; internal quotes are doubled.
pub open spec fn cell_needs_quoting(v: Seq<u8>) -> bool {
    exists|i: int| 0 <= i < v.len() && (v[i] == 44 || v[i] == 34 || v[i] == 10)
}

pub open spec fn doubled_quotes(v: Seq<u8>) -> Seq<u8>
    decreases v.len(),
{
    if v.len() == 0 {
        Seq::empty()
    } else {
        doubled_quotes(v.drop_last()) + (if v.last() == 34 {
            seq![34u8, 34u8]
        } else {
            seq![v.last()]
        })
    }
}

pub proof fn lemma_doubled_quotes_take(v: Seq<u8>, i: int)
    requires
        0 <= i < v.len(),
    ensures
        doubled_quotes(v.take(i + 1)) == doubled_quotes(v.take(i)) + (if v[i] == 34 {
            seq![34u8, 34u8]
        } else {
            seq![v[i]]
        }),
{
    assert(v.take(i + 1).drop_last() =~= v.take(i));
    assert(v.take(i + 1).last() == v[i]);
}

/// One CSV cell as written.
pub open spec fn quoted_cell(v: Seq<u8>) -> Seq<u8> {
    if cell_needs_quoting(v) {
        seq![34u8] + doubled_quotes(v) + seq![34u8]
    } else {
        v
    }
}

/// A whole row: cells joined by commas, ended by a newline.
pub open spec fn spec_csv_row(values: Seq<Seq<u8>>) -> Seq<u8>
    decreases values.len(),
{
    if values.len() == 0 {
        seq![10u8]
    } else if values.len() == 1 {
        quoted_cell(values[0]) + seq![10u8]
    } else {
        let head = spec_csv_row(values.drop_last());
        head.take(head.len() - 1) + seq![44u8] + quoted_cell(values.last()) + seq![10u8]
    }
}

/// The values a row holds for the frozen headers: the flattened cell
/// under each header key, empty when absent.
pub open spec fn row_values(headers: Seq<Seq<u8>>, flat: Seq<(Seq<u8>, Seq<u8>)>) -> Seq<Seq<u8>> {
    Seq::new(
        headers.len(),
        |i: int|
            match key_idx(flat, headers[i], 0) {
                Some(j) => flat[j].1,
                None => Seq::empty(),
            },
    )
}

/// What one NDJSON line does to the writer: nothing unless it parses
/// to an object; the first object freezes the sorted header set and
/// emits it; every object emits one data row.
pub open spec fn cw_step(headers: Seq<Seq<u8>>, written: bool, line: Seq<u8>) -> (
    Seq<u8>,
    Seq<Seq<u8>>,
    bool,
) {
    match spec_parse(line) {
        Some(v) => match v {
            JsonV::Obj(ps) => {
                let flat = flatten_record(ps);
                if !written {
                    let hs = sort_lex(set_union(Seq::empty(), flat_keys(flat) + headers));
                    (
                        spec_csv_row(hs) + spec_csv_row(row_values(hs, flat)),
                        hs,
                        true,
                    )
                } else {
                    (spec_csv_row(row_values(headers, flat)), headers, written)
                }
            },
            _ => (Seq::empty(), headers, written),
        },
        None => (Seq::empty(), headers, written),
    }
}

/// Append one CSV row for these values: minimal quoting, comma joins,
/// a newline at the end.
pub fn write_csv_row(values: &Vec<Vec<u8>>, output: &mut Vec<u8>)
    ensures
        final(output)@ == old(output)@ + spec_csv_row(vv(values@)),
{
    let ghost gv = vv(values@);
    let mut i: usize = 0;
    if values.len() == 0 {
        output.push(10);
        proof {
            assert(output@ =~= old(output)@ + spec_csv_row(gv));
        }
        return ;
    }
    while i < values.len()
        invariant
            0 <= i <= values@.len(),
            values@.len() > 0,
            gv == vv(values@),
            output@ == old(output)@ + (if i == 0 {
                Seq::<u8>::empty()
            } else {
                let head = spec_csv_row(gv.take(i as int));
                head.take(head.len() - 1)
            }),
        decreases values@.len() - i,
    {
        if i > 0 {
            output.push(44);
        }
        let ghost mid = output@;
        let v = &values[i];
        proof {
            assert(gv[i as int] == values@[i as int]@);
        }
        let mut needs: bool = false;
        let mut j: usize = 0;
        while j < v.len()
            invariant
                0 <= j <= v@.len(),
                needs == (exists|m: int|
                    0 <= m < j && (v@[m] == 44 || v@[m] == 34 || v@[m] == 10)),
            decreases v@.len() - j,
        {
            let b = v[j];
            if b == 44 || b == 34 || b == 10 {
                needs = true;
            }
            j = j + 1;
        }
        proof {
            assert(needs == cell_needs_quoting(v@));
        }
        if needs {
            output.push(34);
            let mut m: usize = 0;
            proof {
                assert(v@.take(0) =~= Seq::<u8>::empty());
            }
            while m < v.len()
                invariant
                    0 <= m <= v@.len(),
                    output@ == mid + seq![34u8] + doubled_quotes(v@.take(m as int)),
                decreases v@.len() - m,
            {
                let b = v[m];
                proof {
                    lemma_doubled_quotes_take(v@, m as int);
                }
                if b == 34 {
                    output.push(34);
                    output.push(34);
                } else {
                    output.push(b);
                }
                proof {
                    assert(output@ =~= mid + seq![34u8] + doubled_quotes(v@.take(m + 1 as int)));
                }
                m = m + 1;
            }
            output.push(34);
            proof {
                assert(v@.take(v@.len() as int) =~= v@);
                assert(output@ =~= mid + quoted_cell(v@));
            }
        } else {
            append_slice(output, v.as_slice());
            proof {
                assert(output@ =~= mid + quoted_cell(v@));
            }
        }
        proof {
            let head1 = spec_csv_row(gv.take(i + 1 as int));
            assert(gv.take(i + 1 as int).drop_last() =~= gv.take(i as int));
            assert(gv.take(i + 1 as int).last() == gv[i as int]);
            if i == 0 {
                assert(output@ =~= old(output)@ + head1.take(head1.len() - 1));
            } else {
                assert(output@ =~= old(output)@ + head1.take(head1.len() - 1));
            }
        }
        i = i + 1;
    }
    output.push(10);
    proof {
        assert(gv.take(gv.len() as int) =~= gv);
        assert(output@ =~= old(output)@ + spec_csv_row(gv));
    }
}

/// Flatten one value under its key into the cell list.
fn flat_entry_exec(key: Vec<u8>, v: &JsonValue, acc: &mut Vec<(Vec<u8>, Vec<u8>)>)
    ensures
        fview(final(acc)@) == flat_entry(key@, jv(*v), fview(old(acc)@)),
    decreases v, 0nat, 0nat,
{
    match v {
        JsonValue::Obj(ps) => {
            proof {
                assert(decreases_to!(*v => (*v)->Obj_0));
                assert((*v)->Obj_0 == *ps);
            }
            flat_obj_exec(key, ps, acc);
        },
        JsonValue::Arr(xs) => {
            proof {
                assert(decreases_to!(*v => (*v)->Arr_0));
                assert((*v)->Arr_0 == *xs);
            }
            flat_arr_exec(key, xs, acc);
        },
        JsonValue::Str(s) => {
            let mut c: Vec<u8> = Vec::new();
            append_slice(&mut c, s.as_slice());
            proof {
                assert(c@ =~= scalar_text(jv(*v)));
            }
            fupsert_exec(acc, key, c);
        },
        JsonValue::Num(n) => {
            let mut c: Vec<u8> = Vec::new();
            append_slice(&mut c, n.as_slice());
            proof {
                assert(c@ =~= scalar_text(jv(*v)));
            }
            fupsert_exec(acc, key, c);
        },
        JsonValue::Bool(t) => {
            let mut c: Vec<u8> = Vec::new();
            if *t {
                c.push(116);
                c.push(114);
                c.push(117);
                c.push(101);
            } else {
                c.push(102);
                c.push(97);
                c.push(108);
                c.push(115);
                c.push(101);
            }
            proof {
                assert(c@ =~= scalar_text(jv(*v)));
            }
            fupsert_exec(acc, key, c);
        },
        JsonValue::Null => {
            let c: Vec<u8> = Vec::new();
            proof {
                assert(c@ =~= scalar_text(jv(*v)));
            }
            fupsert_exec(acc, key, c);
        },
    }
}

/// The cells view of the executable flat list.
pub open spec fn fview(v: Seq<(Vec<u8>, Vec<u8>)>) -> Seq<(Seq<u8>, Seq<u8>)> {
    Seq::new(v.len(), |i: int| (v[i].0@, v[i].1@))
}

/// Store a cell, replacing an earlier write under the same key.
fn fupsert_exec(acc: &mut Vec<(Vec<u8>, Vec<u8>)>, k: Vec<u8>, v: Vec<u8>)
    ensures
        fview(final(acc)@) == fupsert(fview(old(acc)@), k@, v@),
{
    let mut i: usize = 0;
    while i < acc.len()
        invariant
            0 <= i <= acc@.len(),
            acc@ == old(acc)@,
            key_idx(fview(acc@), k@, 0) == key_idx(fview(acc@), k@, i as int),
        decreases acc@.len() - i,
    {
        proof {
            assert(fview(acc@)[i as int] == (acc@[i as int].0@, acc@[i as int].1@));
        }
        if bytes_eq(acc[i].0.as_slice(), k.as_slice()) {
            acc.set(i, (k, v));
            proof {
                assert(fview(acc@) =~= fupsert(fview(old(acc)@), k@, v@));
            }
            return ;
        }
        i = i + 1;
    }
    acc.push((k, v));
    proof {
        assert(fview(acc@) =~= fupsert(fview(old(acc)@), k@, v@));
    }
}

/// Flatten an object's members under a dotted prefix.
fn flat_obj_exec(prefix: Vec<u8>, ps: &Vec<(Vec<u8>, JsonValue)>, acc: &mut Vec<(Vec<u8>, Vec<u8>)>)
    ensures
        fview(final(acc)@) == flat_obj(prefix@, jv_pairs(ps@), fview(old(acc)@)),
    decreases ps, 0nat, 1nat,
{
    let ghost gps = jv_pairs(ps@);
    proof {
        lemma_jv_pairs_len(ps@);
        assert(gps.skip(0) =~= gps);
    }
    let mut i: usize = 0;
    while i < ps.len()
        invariant
            0 <= i <= ps@.len(),
            gps == jv_pairs(ps@),
            gps.len() == ps@.len(),
            forall|m: int| 0 <= m < ps@.len() ==> gps[m] == (ps@[m].0@, jv(ps@[m].1)),
            flat_obj(prefix@, gps, fview(old(acc)@)) == flat_obj(
                prefix@,
                gps.skip(i as int),
                fview(acc@),
            ),
        decreases ps@.len() - i,
    {
        let mut key: Vec<u8> = Vec::new();
        if prefix.len() > 0 {
            append_slice(&mut key, prefix.as_slice());
            key.push(46);
        }
        append_slice(&mut key, ps[i].0.as_slice());
        proof {
            assert(key@ =~= dot_join(prefix@, ps@[i as int].0@));
            assert(gps.skip(i as int)[0] == gps[i as int]);
            assert(gps.skip(i as int).drop_first() =~= gps.skip(i + 1 as int));
            assert(decreases_to!(*ps => ps@));
            assert(decreases_to!(ps@ => ps@[i as int]));
            assert(decreases_to!(ps@[i as int] => ps@[i as int].1));
        }
        flat_entry_exec(key, &ps[i].1, acc);
        i = i + 1;
    }
    proof {
        assert(gps.skip(ps@.len() as int) =~= Seq::<(Seq<u8>, JsonV)>::empty());
    }
}

/// Flatten an array's elements under indexed keys.
fn flat_arr_exec(key: Vec<u8>, xs: &Vec<JsonValue>, acc: &mut Vec<(Vec<u8>, Vec<u8>)>)
    ensures
        fview(final(acc)@) == flat_arr(key@, jv_list(xs@), 0, fview(old(acc)@)),
    decreases xs, 0nat, 1nat,
{
    let ghost gxs = jv_list(xs@);
    proof {
        lemma_jv_list_len(xs@);
    }
    let mut i: usize = 0;
    while i < xs.len()
        invariant
            0 <= i <= xs@.len(),
            gxs == jv_list(xs@),
            gxs.len() == xs@.len(),
            forall|m: int| 0 <= m < xs@.len() ==> gxs[m] == jv(xs@[m]),
            flat_arr(key@, gxs, 0, fview(old(acc)@)) == flat_arr(
                key@,
                gxs,
                i as int,
                fview(acc@),
            ),
        decreases xs@.len() - i,
    {
        let mut ik: Vec<u8> = Vec::new();
        if key.len() > 0 {
            append_slice(&mut ik, key.as_slice());
            ik.push(46);
        }
        crate::csv_parser::write_decimal(&mut ik, i);
        proof {
            assert(ik@ =~= dot_join(key@, dec_digits(i as nat)));
            assert(decreases_to!(*xs => xs@));
            assert(decreases_to!(xs@ => xs@[i as int]));
        }
        match &xs[i] {
            JsonValue::Obj(ps) => {
                proof {
                    assert(decreases_to!(xs@[i as int] => xs@[i as int]->Obj_0));
                    assert(xs@[i as int]->Obj_0 == *ps);
                }
                flat_obj_exec(ik, ps, acc);
            },
            JsonValue::Arr(_) => {
                let txt = crate::json_out::ser_to_vec(&xs[i]);
                fupsert_exec(acc, ik, txt);
            },
            JsonValue::Str(s) => {
                let mut c: Vec<u8> = Vec::new();
                append_slice(&mut c, s.as_slice());
                proof {
                    assert(c@ =~= scalar_text(gxs[i as int]));
                }
                fupsert_exec(acc, ik, c);
            },
            JsonValue::Num(n) => {
                let mut c: Vec<u8> = Vec::new();
                append_slice(&mut c, n.as_slice());
                proof {
                    assert(c@ =~= scalar_text(gxs[i as int]));
                }
                fupsert_exec(acc, ik, c);
            },
            JsonValue::Bool(t) => {
                let mut c: Vec<u8> = Vec::new();
                if *t {
                    c.push(116);
                    c.push(114);
                    c.push(117);
                    c.push(101);
                } else {
                    c.push(102);
                    c.push(97);
                    c.push(108);
                    c.push(115);
                    c.push(101);
                }
                proof {
                    assert(c@ =~= scalar_text(gxs[i as int]));
                }
                fupsert_exec(acc, ik, c);
            },
            JsonValue::Null => {
                let c: Vec<u8> = Vec::new();
                proof {
                    assert(c@ =~= scalar_text(gxs[i as int]));
                }
                fupsert_exec(acc, ik, c);
            },
        }
        i = i + 1;
    }
}

/// CSV writer with on-the-fly header discovery.
pub struct CsvWriter {
    headers: Vec<Vec<u8>>,
    headers_written: bool,
}

impl CsvWriter {
    /// The frozen headers, in emission order.
    pub closed spec fn spec_headers(&self) -> Seq<Seq<u8>> {
        vv(self.headers@)
    }

    /// Whether the header row has been written.
    pub closed spec fn spec_written(&self) -> bool {
        self.headers_written
    }

    pub fn new() -> (r: CsvWriter)
        ensures
            r.spec_headers() == Seq::<Seq<u8>>::empty(),
            !r.spec_written(),
    {
        let r = CsvWriter { headers: Vec::new(), headers_written: false };
        proof {
            assert(vv(r.headers@) =~= Seq::<Seq<u8>>::empty());
        }
        r
    }

    /// Consume one NDJSON line: on the first object, freeze the sorted
    /// header set and emit it; for every object, emit one data row in
    /// header order, dropping keys outside the frozen header.
    #[verifier::rlimit(100)]
    pub fn process_json_line(&mut self, json_line: &str) -> (r: Result<Vec<u8>, ConvertError>)
        ensures
            r is Ok,
            ({
                let step = cw_step(
                    old(self).spec_headers(),
                    old(self).spec_written(),
                    json_line.spec_bytes(),
                );
                &&& r->Ok_0@ == step.0
                &&& final(self).spec_headers() == step.1
                &&& final(self).spec_written() == step.2
            }),
    {
        let mut out: Vec<u8> = Vec::new();
        let data = json_line.as_bytes();
        match parse_json(data) {
            Some(v) => {
                match v {
                    JsonValue::Obj(ps) => {
                        let mut flat: Vec<(Vec<u8>, Vec<u8>)> = Vec::new();
                        proof {
                            assert(fview(flat@) =~= Seq::<(Seq<u8>, Seq<u8>)>::empty());
                        }
                        let empty_prefix: Vec<u8> = Vec::new();
                        flat_obj_exec(empty_prefix, &ps, &mut flat);
                        let ghost gflat = fview(flat@);
                        if !self.headers_written {
                            let mut all_keys: Vec<Vec<u8>> = Vec::new();
                            let ghost u0 = flat_keys(gflat) + vv(old(self).headers@);
                            let mut ki: usize = 0;
                            proof {
                                assert(u0.skip(0) =~= u0);
                                assert(vv(all_keys@) =~= Seq::<Seq<u8>>::empty());
                            }
                            while ki < flat.len()
                                invariant
                                    0 <= ki <= flat@.len(),
                                    gflat == fview(flat@),
                                    gflat.len() == flat@.len(),
                                    u0 == flat_keys(gflat) + vv(self.headers@),
                                    u0.len() == gflat.len() + self.headers@.len(),
                                    self.headers@ == old(self).headers@,
                                    set_union(Seq::empty(), u0) == set_union(
                                        vv(all_keys@),
                                        u0.skip(ki as int),
                                    ),
                                decreases flat@.len() - ki,
                            {
                                proof {
                                    assert(gflat[ki as int] == (
                                        flat@[ki as int].0@,
                                        flat@[ki as int].1@,
                                    ));
                                    assert(u0.skip(ki as int)[0] == u0[ki as int]);
                                    assert(u0[ki as int] == flat_keys(gflat)[ki as int]);
                                    assert(u0.skip(ki as int).drop_first() =~= u0.skip(
                                        ki + 1 as int,
                                    ));
                                }
                                if !contains_bytes(&all_keys, flat[ki].0.as_slice()) {
                                    let k2 = copy_range(
                                        flat[ki].0.as_slice(),
                                        0,
                                        flat[ki].0.len(),
                                    );
                                    proof {
                                        assert(k2@ =~= flat@[ki as int].0@);
                                    }
                                    let ghost pre = vv(all_keys@);
                                    all_keys.push(k2);
                                    proof {
                                        assert(vv(all_keys@) =~= pre.push(u0[ki as int]));
                                    }
                                }
                                ki = ki + 1;
                            }
                            let mut hi: usize = 0;
                            while hi < self.headers.len()
                                invariant
                                    0 <= hi <= self.headers@.len(),
                                    gflat.len() == flat@.len(),
                                    u0 == flat_keys(gflat) + vv(self.headers@),
                                    u0.len() == gflat.len() + self.headers@.len(),
                                    self.headers@ == old(self).headers@,
                                    set_union(Seq::empty(), u0) == set_union(
                                        vv(all_keys@),
                                        u0.skip(gflat.len() + hi),
                                    ),
                                decreases self.headers@.len() - hi,
                            {
                                proof {
                                    assert(u0.skip(gflat.len() + hi)[0] == u0[gflat.len()
                                        + hi]);
                                    assert(u0[gflat.len() + hi] == vv(self.headers@)[hi as int]);
                                    assert(vv(self.headers@)[hi as int] == self.headers@[
                                        hi as int
                                    ]@);
                                    assert(u0.skip(gflat.len() + hi).drop_first() =~= u0.skip(
                                        gflat.len() + hi + 1,
                                    ));
                                }
                                if !contains_bytes(&all_keys, self.headers[hi].as_slice()) {
                                    let k2 = copy_range(
                                        self.headers[hi].as_slice(),
                                        0,
                                        self.headers[hi].len(),
                                    );
                                    proof {
                                        assert(k2@ =~= self.headers@[hi as int]@);
                                    }
                                    let ghost pre = vv(all_keys@);
                                    all_keys.push(k2);
                                    proof {
                                        assert(vv(all_keys@) =~= pre.push(u0[gflat.len() + hi]));
                                    }
                                }
                                hi = hi + 1;
                            }
                            proof {
                                assert(u0.skip(u0.len() as int) =~= Seq::<Seq<u8>>::empty());
                            }
                            let sorted = sort_lex_exec(all_keys);
                            self.headers = sorted;
                            self.headers_written = true;
                            write_csv_row(&self.headers, &mut out);
                        }
                        let values = self.row_values_exec(&flat);
                        write_csv_row(&values, &mut out);
                        proof {
                            if !old(self).spec_written() {
                                assert(out@ =~= cw_step(
                                    old(self).spec_headers(),
                                    old(self).spec_written(),
                                    json_line.spec_bytes(),
                                ).0);
                            } else {
                                assert(out@ =~= cw_step(
                                    old(self).spec_headers(),
                                    old(self).spec_written(),
                                    json_line.spec_bytes(),
                                ).0);
                            }
                        }
                        Ok(out)
                    },
                    _ => Ok(out),
                }
            },
            None => Ok(out),
        }
    }

    /// The row's cells, one per frozen header.
    fn row_values_exec(&self, flat: &Vec<(Vec<u8>, Vec<u8>)>) -> (r: Vec<Vec<u8>>)
        ensures
            vv(r@) == row_values(self.spec_headers(), fview(flat@)),
    {
        let mut values: Vec<Vec<u8>> = Vec::new();
        let mut i: usize = 0;
        while i < self.headers.len()
            invariant
                0 <= i <= self.headers@.len(),
                vv(values@).len() == i,
                forall|m: int|
                    0 <= m < i ==> vv(values@)[m] == row_values(
                        self.spec_headers(),
                        fview(flat@),
                    )[m],
            decreases self.headers@.len() - i,
        {
            let mut fi: usize = 0;
            let mut cell: Vec<u8> = Vec::new();
            let mut found: bool = false;
            loop
                invariant_except_break
                    0 <= fi <= flat@.len(),
                    !found,
                    cell@ == Seq::<u8>::empty(),
                    i < self.headers@.len(),
                    key_idx(fview(flat@), self.headers@[i as int]@, 0) == key_idx(
                        fview(flat@),
                        self.headers@[i as int]@,
                        fi as int,
                    ),
                ensures
                    i < self.headers@.len(),
                    cell@ == (match key_idx(fview(flat@), self.headers@[i as int]@, 0) {
                        Some(j) => fview(flat@)[j].1,
                        None => Seq::<u8>::empty(),
                    }),
                decreases flat@.len() - fi,
            {
                if fi >= flat.len() {
                    break;
                }
                proof {
                    assert(fview(flat@)[fi as int] == (flat@[fi as int].0@, flat@[fi as int].1@));
                }
                if bytes_eq(flat[fi].0.as_slice(), self.headers[i].as_slice()) {
                    append_slice(&mut cell, flat[fi].1.as_slice());
                    proof {
                        assert(cell@ =~= flat@[fi as int].1@);
                    }
                    found = true;
                    break;
                }
                fi = fi + 1;
            }
            let ghost pre = vv(values@);
            values.push(cell);
            proof {
                assert(vv(values@) =~= pre.push(row_values(
                    self.spec_headers(),
                    fview(flat@),
                )[i as int]));
            }
            i = i + 1;
        }
        proof {
            assert(vv(values@) =~= row_values(self.spec_headers(), fview(flat@)));
        }
        values
    }

    /// Nothing remains to flush: rows are complete as they are written.
    pub fn finish(&mut self) -> (r: Result<Vec<u8>, ConvertError>)
        ensures
            r is Ok,
            r->Ok_0@ == Seq::<u8>::empty(),
            *final(self) == *old(self),
    {
        Ok(Vec::new())
    }
}

/// `doubled_quotes` unfolded from the left: the first byte's doubling,
/// then the doubling of the rest.
proof fn lemma_dq_left(h: u8, rest: Seq<u8>)
    ensures
        doubled_quotes(seq![h] + rest) == (if h == 34 {
            seq![34u8, 34u8]
        } else {
            seq![h]
        }) + doubled_quotes(rest),
    decreases rest.len(),
{
    let v = seq![h] + rest;
    let d1: Seq<u8> = if h == 34 {
        seq![34u8, 34u8]
    } else {
        seq![h]
    };
    if rest.len() == 0 {
        assert(v =~= seq![h]);
        assert(v.drop_last() =~= Seq::<u8>::empty());
        assert(rest =~= Seq::<u8>::empty());
        assert(doubled_quotes(Seq::<u8>::empty()) == Seq::<u8>::empty());
        assert(doubled_quotes(v) =~= d1 + doubled_quotes(rest));
    } else {
        assert(v.drop_last() =~= seq![h] + rest.drop_last());
        assert(v.last() == rest.last());
        lemma_dq_left(h, rest.drop_last());
        assert(doubled_quotes(v) =~= d1 + doubled_quotes(rest));
    }
}

/// Inside a quoted cell, the doubled bytes of `v` followed by the
/// closing quote are consumed back into exactly `v`.
proof fn lemma_quoted_tail(
    cfg: CsvConfig,
    line: Seq<u8>,
    i: int,
    v: Seq<u8>,
    f: Seq<u8>,
    a: Seq<Seq<u8>>,
)
    requires
        cfg.quote == 34,
        cfg.escape == Some(34u8),
        cfg.trim_whitespace == false,
        0 <= i,
        i + doubled_quotes(v).len() + 1 == line.len(),
        line.subrange(i, line.len() as int) == doubled_quotes(v) + seq![34u8],
    ensures
        split_quoted(cfg, line, i, true, f, a) == a.push(f + v),
    decreases v.len(),
{
    let sub = line.subrange(i, line.len() as int);
    if v.len() == 0 {
        assert(sub =~= seq![34u8]);
        assert(sub[0] == 34);
        assert(line[i] == sub[0]);
        assert(i + 1 == line.len());
        assert(split_quoted(cfg, line, i, true, f, a) == split_quoted(
            cfg,
            line,
            i + 1,
            false,
            f,
            a,
        ));
        assert(split_quoted(cfg, line, i + 1, false, f, a) == a.push(finalize_field(cfg, f)));
        assert(f + v =~= f);
    } else {
        let h = v[0];
        let rest = v.skip(1);
        assert(v =~= seq![h] + rest);
        lemma_dq_left(h, rest);
        if h == 34 {
            assert(doubled_quotes(v) == seq![34u8, 34u8] + doubled_quotes(rest));
            assert(sub[0] == 34 && sub[1] == 34);
            assert(line[i] == sub[0] && line[i + 1] == sub[1]);
            assert(i + 2 < line.len());
            assert(split_quoted(cfg, line, i, true, f, a) == split_quoted(
                cfg,
                line,
                i + 2,
                true,
                f.push(34),
                a,
            ));
            assert(line.subrange(i + 2, line.len() as int) =~= sub.skip(2));
            assert(sub.skip(2) =~= doubled_quotes(rest) + seq![34u8]);
            lemma_quoted_tail(cfg, line, i + 2, rest, f.push(34), a);
            assert(f.push(34) + rest =~= f + v);
        } else {
            assert(doubled_quotes(v) == seq![h] + doubled_quotes(rest));
            assert(sub[0] == h);
            assert(line[i] == sub[0]);
            assert(i + 1 < line.len());
            assert(split_quoted(cfg, line, i, true, f, a) == split_quoted(
                cfg,
                line,
                i + 1,
                true,
                f.push(h),
                a,
            ));
            assert(line.subrange(i + 1, line.len() as int) =~= sub.skip(1));
            assert(sub.skip(1) =~= doubled_quotes(rest) + seq![34u8]);
            lemma_quoted_tail(cfg, line, i + 1, rest, f.push(h), a);
            assert(f.push(h) + rest =~= f + v);
        }
    }
}

/// A CSV cell round-trips losslessly: the cell the writer emits for a
/// value, fed back through the reader's field splitter with the same
/// RFC 4180 settings (and no trimming), yields exactly that value —
/// whether the cell was written bare or quoted with doubled quotes.
pub proof fn lemma_csv_cell_round_trip(cfg: CsvConfig, v: Seq<u8>)
    requires
        cfg.delimiter == 44,
        cfg.quote == 34,
        cfg.escape == Some(34u8),
        cfg.trim_whitespace == false,
    ensures
        split_fields(cfg, quoted_cell(v)) == seq![v],
{
    let line = quoted_cell(v);
    if cell_needs_quoting(v) {
        assert(line == seq![34u8] + doubled_quotes(v) + seq![34u8]);
        assert(line[0] == 34);
        assert(find_from(line, 34, 0) == Some(0int));
        assert(split_quoted(cfg, line, 0, false, Seq::<u8>::empty(), Seq::<Seq<u8>>::empty())
            == split_quoted(cfg, line, 1, true, Seq::<u8>::empty(), Seq::<Seq<u8>>::empty()));
        assert(line.subrange(1, line.len() as int) =~= doubled_quotes(v) + seq![34u8]);
        lemma_quoted_tail(cfg, line, 1, v, Seq::empty(), Seq::empty());
        assert(Seq::<u8>::empty() + v =~= v);
        assert(Seq::<Seq<u8>>::empty().push(v) =~= seq![v]);
    } else {
        assert(line == v);
        lemma_find_from(line, 34, 0);
        if find_from(line, 34, 0) is Some {
            let j = find_from(line, 34, 0)->Some_0;
            assert(0 <= j < v.len() && v[j] == 34);
            assert(cell_needs_quoting(v));
            assert(false);
        }
        lemma_find_from(line, 44, 0);
        if find_from(line, 44, 0) is Some {
            let j = find_from(line, 44, 0)->Some_0;
            assert(0 <= j < v.len() && v[j] == 44);
            assert(cell_needs_quoting(v));
            assert(false);
        }
        assert(split_plain(cfg, line, 0, Seq::<Seq<u8>>::empty()) == Seq::<Seq<
            u8,
        >>::empty().push(finalize_field(cfg, line.subrange(0, line.len() as int))));
        assert(line.subrange(0, line.len() as int) =~= v);
        assert(Seq::<Seq<u8>>::empty().push(v) =~= seq![v]);
    }
}

} // verus!
