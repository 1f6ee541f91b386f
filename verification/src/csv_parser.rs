//! The CSV parser: an RFC-4180-style reader with a quoted-field state
//! machine that emits one NDJSON object per data row. Line boundaries are
//! quote-aware, the header row becomes the keys, and every value is
//! emitted as a JSON string. The unfinished last row is carried across
//! chunks, so output depends only on the concatenation of the input.
use vstd::prelude::*;
use crate::bytes::{all_whitespace, all_ws, append_slice, copy_range, find_byte, find_from, vv};
use crate::error::ConvertError;

verus! {

/// CSV parser configuration.
#[derive(Debug, Clone)]
pub struct CsvConfig {
    pub delimiter: u8,
    pub quote: u8,
    pub escape: Option<u8>,
    pub has_headers: bool,
    pub trim_whitespace: bool,
}

impl CsvConfig {
    /// RFC 4180 defaults: comma, double quote, doubled-quote escaping,
    /// a header row, no trimming.
    pub fn new_default() -> (r: CsvConfig)
        ensures
            r.delimiter == 44u8,
            r.quote == 34u8,
            r.escape == Some(34u8),
            r.has_headers == true,
            r.trim_whitespace == false,
    {
        CsvConfig {
            delimiter: 44,
            quote: 34,
            escape: Some(34),
            has_headers: true,
            trim_whitespace: false,
        }
    }
}

/// Quote-aware end of row: the first unquoted CR or LF at or after `i`.
/// A quote byte followed by the escape byte is skipped as a pair.
pub open spec fn csv_eol(s: Seq<u8>, q: u8, e: Option<u8>, i: int, inq: bool) -> Option<int>
    decreases s.len() - i,
{
    if i < 0 || i >= s.len() {
        None
    } else if s[i] == q {
        if e is Some && i + 1 < s.len() && s[i + 1] == e->0 {
            csv_eol(s, q, e, i + 2, inq)
        } else {
            csv_eol(s, q, e, i + 1, !inq)
        }
    } else if (s[i] == 10 || s[i] == 13) && !inq {
        Some(i)
    } else {
        csv_eol(s, q, e, i + 1, inq)
    }
}

/// A found end of row lies in bounds, at or after the start.
pub proof fn lemma_csv_eol_bounds(s: Seq<u8>, q: u8, e: Option<u8>, i: int, inq: bool)
    requires
        0 <= i <= s.len(),
    ensures
        match csv_eol(s, q, e, i, inq) {
            Some(j) => i <= j < s.len(),
            None => true,
        },
    decreases s.len() - i,
{
    if i < s.len() {
        if s[i] == q {
            if e is Some && i + 1 < s.len() && s[i + 1] == e->0 {
                lemma_csv_eol_bounds(s, q, e, i + 2, inq);
            } else {
                lemma_csv_eol_bounds(s, q, e, i + 1, !inq);
            }
        } else if !((s[i] == 10 || s[i] == 13) && !inq) {
            lemma_csv_eol_bounds(s, q, e, i + 1, inq);
        }
    }
}

/// A row boundary found in `s` is unchanged when more bytes arrive.
pub proof fn lemma_csv_eol_append(s: Seq<u8>, t: Seq<u8>, q: u8, e: Option<u8>, i: int, inq: bool)
    requires
        0 <= i <= s.len(),
        csv_eol(s, q, e, i, inq) is Some,
    ensures
        csv_eol(s + t, q, e, i, inq) == csv_eol(s, q, e, i, inq),
    decreases s.len() - i,
{
    if i < s.len() {
        assert((s + t)[i] == s[i]);
        if s[i] == q {
            if e is Some && i + 1 < s.len() && s[i + 1] == e->0 {
                assert((s + t)[i + 1] == s[i + 1]);
                lemma_csv_eol_append(s, t, q, e, i + 2, inq);
            } else {
                lemma_csv_eol_bounds(s, q, e, i + 1, !inq);
                if i + 1 < s.len() {
                    assert((s + t)[i + 1] == s[i + 1]);
                }
                lemma_csv_eol_append(s, t, q, e, i + 1, !inq);
            }
        } else if !((s[i] == 10 || s[i] == 13) && !inq) {
            lemma_csv_eol_append(s, t, q, e, i + 1, inq);
        }
    }
}

/// Scanning a suffix mirrors scanning the whole from the same offset.
pub proof fn lemma_csv_eol_sub(
    u: Seq<u8>,
    t: Seq<u8>,
    q: u8,
    e: Option<u8>,
    base: int,
    k: int,
    inq: bool,
)
    requires
        0 <= k <= t.len(),
        0 <= base,
        u.len() == base + t.len(),
        forall|m: int| 0 <= m < t.len() ==> u[base + m] == t[m],
    ensures
        csv_eol(u, q, e, base + k, inq) == match csv_eol(t, q, e, k, inq) {
            Some(j) => Some(j + base),
            None => None::<int>,
        },
    decreases t.len() - k,
{
    if k < t.len() {
        assert(u[base + k] == t[k]);
        if t[k] == q {
            if e is Some && k + 1 < t.len() && t[k + 1] == e->0 {
                assert(u[base + k + 1] == t[k + 1]);
                lemma_csv_eol_sub(u, t, q, e, base, k + 2, inq);
            } else {
                if k + 1 < t.len() {
                    assert(u[base + k + 1] == t[k + 1]);
                }
                lemma_csv_eol_sub(u, t, q, e, base, k + 1, !inq);
            }
        } else if !((t[k] == 10 || t[k] == 13) && !inq) {
            lemma_csv_eol_sub(u, t, q, e, base, k + 1, inq);
        }
    }
}

/// The complete rows of a CSV byte stream, split quote-aware, without
/// their terminators.
pub open spec fn csv_rows(s: Seq<u8>, q: u8, e: Option<u8>) -> Seq<Seq<u8>>
    decreases s.len(),
{
    match csv_eol(s, q, e, 0, false) {
        Some(i) => if 0 <= i < s.len() {
            seq![s.take(i)] + csv_rows(s.skip(i + 1), q, e)
        } else {
            seq![]
        },
        None => seq![],
    }
}

/// The unfinished tail of a CSV byte stream.
pub open spec fn csv_rest(s: Seq<u8>, q: u8, e: Option<u8>) -> Seq<u8>
    decreases s.len(),
{
    match csv_eol(s, q, e, 0, false) {
        Some(i) => if 0 <= i < s.len() {
            csv_rest(s.skip(i + 1), q, e)
        } else {
            s
        },
        None => s,
    }
}

/// Feeding more bytes extends the row decomposition: the new complete
/// rows are those of the old tail joined with the new bytes. This is
/// what makes the CSV pass independent of chunk boundaries.
pub proof fn lemma_csv_stream_append(s: Seq<u8>, c: Seq<u8>, q: u8, e: Option<u8>)
    ensures
        csv_rows(s + c, q, e) == csv_rows(s, q, e) + csv_rows(csv_rest(s, q, e) + c, q, e),
        csv_rest(s + c, q, e) == csv_rest(csv_rest(s, q, e) + c, q, e),
    decreases s.len(),
{
    lemma_csv_eol_bounds(s, q, e, 0, false);
    match csv_eol(s, q, e, 0, false) {
        Some(i) => {
            lemma_csv_eol_append(s, c, q, e, 0, false);
            assert((s + c).take(i) =~= s.take(i));
            assert((s + c).skip(i + 1) =~= s.skip(i + 1) + c);
            lemma_csv_stream_append(s.skip(i + 1), c, q, e);
            assert(csv_rows(s + c, q, e) =~= csv_rows(s, q, e) + csv_rows(
                csv_rest(s, q, e) + c,
                q,
                e,
            ));
        },
        None => {
            assert(csv_rest(s, q, e) == s);
            assert(csv_rows(s, q, e) =~= Seq::<Seq<u8>>::empty());
            assert(csv_rows(s + c, q, e) =~= csv_rows(s, q, e) + csv_rows(
                csv_rest(s, q, e) + c,
                q,
                e,
            ));
        },
    }
}

/// Trim leading and trailing spaces and tabs.
pub open spec fn trim_start_at(f: Seq<u8>, i: int) -> int
    decreases f.len() - i,
{
    if 0 <= i < f.len() && (f[i] == 32 || f[i] == 9) {
        trim_start_at(f, i + 1)
    } else {
        i
    }
}

pub open spec fn trim_end_at(f: Seq<u8>, i: int, e: int) -> int
    decreases e,
{
    if 0 <= i < e <= f.len() && (f[e - 1] == 32 || f[e - 1] == 9) {
        trim_end_at(f, i, e - 1)
    } else {
        e
    }
}

/// A field with surrounding spaces and tabs removed.
pub open spec fn trim_field(f: Seq<u8>) -> Seq<u8> {
    let a = trim_start_at(f, 0);
    let b = trim_end_at(f, a, f.len() as int);
    if 0 <= a <= b <= f.len() {
        f.subrange(a, b)
    } else {
        f
    }
}

pub proof fn lemma_trim_bounds(f: Seq<u8>)
    ensures
        0 <= trim_start_at(f, 0) <= trim_end_at(f, trim_start_at(f, 0), f.len() as int) <= f.len(),
{
    lemma_trim_start(f, 0);
    lemma_trim_end(f, trim_start_at(f, 0), f.len() as int);
}

proof fn lemma_trim_start(f: Seq<u8>, i: int)
    requires
        0 <= i <= f.len(),
    ensures
        i <= trim_start_at(f, i) <= f.len(),
    decreases f.len() - i,
{
    if i < f.len() && (f[i] == 32 || f[i] == 9) {
        lemma_trim_start(f, i + 1);
    }
}

proof fn lemma_trim_end(f: Seq<u8>, i: int, e: int)
    requires
        0 <= i <= e <= f.len(),
    ensures
        i <= trim_end_at(f, i, e) <= e,
    decreases e,
{
    if i < e && (f[e - 1] == 32 || f[e - 1] == 9) {
        lemma_trim_end(f, i, e - 1);
    }
}

/// A finished field: trimmed when the configuration says so.
pub open spec fn finalize_field(cfg: CsvConfig, f: Seq<u8>) -> Seq<u8> {
    if cfg.trim_whitespace {
        trim_field(f)
    } else {
        f
    }
}

/// Fast path: split on every delimiter, no quote handling. `i` is the
/// current field start.
pub open spec fn split_plain(cfg: CsvConfig, line: Seq<u8>, i: int, acc: Seq<Seq<u8>>) -> Seq<
    Seq<u8>,
>
    decreases line.len() - i,
{
    if i < 0 {
        acc
    } else {
        match find_from(line, cfg.delimiter, i) {
            Some(p) => if i <= p < line.len() {
                split_plain(cfg, line, p + 1, acc.push(finalize_field(cfg, line.subrange(i, p))))
            } else {
                acc
            },
            None => acc.push(finalize_field(cfg, line.subrange(i, line.len() as int))),
        }
    }
}

/// Quoted path: the two-state field machine. Inside quotes, a quote
/// followed by the escape byte is a literal escape byte.
pub open spec fn split_quoted(
    cfg: CsvConfig,
    line: Seq<u8>,
    i: int,
    inq: bool,
    field: Seq<u8>,
    acc: Seq<Seq<u8>>,
) -> Seq<Seq<u8>>
    decreases line.len() - i,
{
    if i < 0 || i >= line.len() {
        acc.push(finalize_field(cfg, field))
    } else if line[i] == cfg.quote {
        if inq && cfg.escape is Some && i + 1 < line.len() && line[i + 1] == cfg.escape->0 {
            split_quoted(cfg, line, i + 2, inq, field.push(cfg.escape->0), acc)
        } else {
            split_quoted(cfg, line, i + 1, !inq, field, acc)
        }
    } else if line[i] == cfg.delimiter && !inq {
        split_quoted(cfg, line, i + 1, inq, Seq::empty(), acc.push(finalize_field(cfg, field)))
    } else {
        split_quoted(cfg, line, i + 1, inq, field.push(line[i]), acc)
    }
}

/// The fields of one row: the fast path when the row holds no quote
/// byte, the state machine otherwise. Both agree on quoteless rows.
pub open spec fn split_fields(cfg: CsvConfig, line: Seq<u8>) -> Seq<Seq<u8>> {
    if find_from(line, cfg.quote, 0) is Some {
        split_quoted(cfg, line, 0, false, Seq::empty(), Seq::empty())
    } else {
        split_plain(cfg, line, 0, Seq::empty())
    }
}

/// Decimal digits of `n`.
pub open spec fn dec_digits(n: nat) -> Seq<u8>
    decreases n,
{
    if n < 10 {
        seq![(48 + n) as u8]
    } else {
        dec_digits(n / 10) + seq![(48 + n % 10) as u8]
    }
}

/// How one byte of a CSV value is written into its JSON string: the
/// named escapes for quote, backslash and common controls; all other
/// bytes pass through.
pub open spec fn esc_basic_byte(b: u8) -> Seq<u8> {
    if b == 34 {
        seq![92u8, 34u8]
    } else if b == 92 {
        seq![92u8, 92u8]
    } else if b == 10 {
        seq![92u8, 110u8]
    } else if b == 13 {
        seq![92u8, 114u8]
    } else if b == 9 {
        seq![92u8, 116u8]
    } else if b == 8 {
        seq![92u8, 98u8]
    } else if b == 12 {
        seq![92u8, 102u8]
    } else {
        seq![b]
    }
}

pub open spec fn esc_basic(s: Seq<u8>) -> Seq<u8>
    decreases s.len(),
{
    if s.len() == 0 {
        Seq::empty()
    } else {
        esc_basic(s.drop_last()) + esc_basic_byte(s.last())
    }
}

pub proof fn lemma_esc_basic_take(s: Seq<u8>, i: int)
    requires
        0 <= i < s.len(),
    ensures
        esc_basic(s.take(i + 1)) == esc_basic(s.take(i)) + esc_basic_byte(s[i]),
{
    assert(s.take(i + 1).drop_last() =~= s.take(i));
    assert(s.take(i + 1).last() == s[i]);
}

/// The JSON key for column `i`: the header at that index, or `field_<i>`
/// past the header's end (and always `field_<i>` without headers).
pub open spec fn field_key(headers: Option<Seq<Seq<u8>>>, i: int) -> Seq<u8> {
    match headers {
        Some(h) => if 0 <= i < h.len() {
            h[i]
        } else {
            seq![102u8, 105u8, 101u8, 108u8, 100u8, 95u8] + dec_digits(i as nat)
        },
        None => seq![102u8, 105u8, 101u8, 108u8, 100u8, 95u8] + dec_digits(i as nat),
    }
}

/// One `"key":"value"` member of a row object.
pub open spec fn row_member(headers: Option<Seq<Seq<u8>>>, fields: Seq<Seq<u8>>, i: int) -> Seq<
    u8,
> {
    seq![34u8] + field_key(headers, i) + seq![34u8, 58u8, 34u8] + esc_basic(fields[i]) + seq![34u8]
}

/// The members of a row object up to column `n`, comma separated.
pub open spec fn row_members(headers: Option<Seq<Seq<u8>>>, fields: Seq<Seq<u8>>, n: int) -> Seq<
    u8,
>
    decreases n,
{
    if n <= 0 {
        Seq::empty()
    } else if n == 1 {
        row_member(headers, fields, 0)
    } else {
        row_members(headers, fields, n - 1) + seq![44u8] + row_member(headers, fields, n - 1)
    }
}

/// The NDJSON object for one row.
pub open spec fn row_json(headers: Option<Seq<Seq<u8>>>, fields: Seq<Seq<u8>>) -> Seq<u8> {
    seq![123u8] + row_members(headers, fields, fields.len() as int) + seq![125u8]
}

/// A row the CSV pass drops: empty or all whitespace.
pub open spec fn csv_skip_row(line: Seq<u8>) -> bool {
    line.len() == 0 || all_ws(line)
}

/// Fold the rows through the parser: blank rows are dropped, the first
/// kept row becomes the header when configured, and every later row is
/// emitted as one NDJSON line. Yields the output bytes, the headers
/// after these rows, and the number of records emitted.
pub open spec fn csv_fold(cfg: CsvConfig, lines: Seq<Seq<u8>>, h0: Option<Seq<Seq<u8>>>) -> (
    Seq<u8>,
    Option<Seq<Seq<u8>>>,
    nat,
)
    decreases lines.len(),
{
    if lines.len() == 0 {
        (Seq::empty(), h0, 0)
    } else {
        let p = csv_fold(cfg, lines.drop_last(), h0);
        let l = lines.last();
        if csv_skip_row(l) {
            p
        } else {
            let fields = split_fields(cfg, l);
            if cfg.has_headers && p.1 is None {
                (p.0, Some(fields), p.2)
            } else {
                (p.0 + row_json(p.1, fields) + seq![10u8], p.1, p.2 + 1)
            }
        }
    }
}

pub proof fn lemma_csv_fold_push(cfg: CsvConfig, lines: Seq<Seq<u8>>, l: Seq<u8>, h0: Option<
    Seq<Seq<u8>>,
>)
    ensures
        csv_fold(cfg, lines.push(l), h0) == ({
            let p = csv_fold(cfg, lines, h0);
            if csv_skip_row(l) {
                p
            } else {
                let fields = split_fields(cfg, l);
                if cfg.has_headers && p.1 is None {
                    (p.0, Some(fields), p.2)
                } else {
                    (p.0 + row_json(p.1, fields) + seq![10u8], p.1, p.2 + 1nat)
                }
            }
        }),
{
    assert(lines.push(l).drop_last() =~= lines);
    assert(lines.push(l).last() == l);
}

/// Folding appended row lists composes: the second list starts from the
/// header state the first one ended with, outputs concatenate, and
/// record counts add.
pub proof fn lemma_csv_fold_append(cfg: CsvConfig, a: Seq<Seq<u8>>, b: Seq<Seq<u8>>, h0: Option<
    Seq<Seq<u8>>,
>)
    ensures
        csv_fold(cfg, a + b, h0).0 == csv_fold(cfg, a, h0).0 + csv_fold(
            cfg,
            b,
            csv_fold(cfg, a, h0).1,
        ).0,
        csv_fold(cfg, a + b, h0).1 == csv_fold(cfg, b, csv_fold(cfg, a, h0).1).1,
        csv_fold(cfg, a + b, h0).2 == csv_fold(cfg, a, h0).2 + csv_fold(
            cfg,
            b,
            csv_fold(cfg, a, h0).1,
        ).2,
    decreases b.len(),
{
    if b.len() == 0 {
        assert(a + b =~= a);
        assert(csv_fold(cfg, a, h0).0 + Seq::<u8>::empty() =~= csv_fold(cfg, a, h0).0);
    } else {
        assert((a + b).drop_last() =~= a + b.drop_last());
        assert((a + b).last() == b.last());
        lemma_csv_fold_append(cfg, a, b.drop_last(), h0);
        let pa = csv_fold(cfg, a, h0);
        let pb = csv_fold(cfg, b.drop_last(), pa.1);
        if !csv_skip_row(b.last()) {
            let fields = split_fields(cfg, b.last());
            if !(cfg.has_headers && pb.1 is None) {
                assert(pa.0 + pb.0 + row_json(pb.1, fields) + seq![10u8] =~= pa.0 + (pb.0
                    + row_json(pb.1, fields) + seq![10u8]));
            }
        }
    }
}

/// What `finish` does with a non-empty carried tail: it is parsed as a
/// final row (header or record), without the blank-row skip of `push`.
pub open spec fn csv_finish_step(cfg: CsvConfig, rest: Seq<u8>, h: Option<Seq<Seq<u8>>>) -> (
    Seq<u8>,
    Option<Seq<Seq<u8>>>,
    nat,
) {
    if rest.len() == 0 {
        (Seq::empty(), h, 0)
    } else {
        let fields = split_fields(cfg, rest);
        if cfg.has_headers && h is None {
            (Seq::empty(), Some(fields), 0)
        } else {
            (row_json(h, fields) + seq![10u8], h, 1)
        }
    }
}

/// Quote-aware end of the next row, searching from `start`.
fn find_line_end(data: &[u8], start: usize, q: u8, e: Option<u8>) -> (r: Option<usize>)
    requires
        start <= data@.len(),
    ensures
        match r {
            Some(j) => csv_eol(data@, q, e, start as int, false) == Some(j as int) && start <= j
                < data@.len(),
            None => csv_eol(data@, q, e, start as int, false) == None::<int>,
        },
{
    proof {
        lemma_csv_eol_bounds(data@, q, e, start as int, false);
    }
    let mut pos: usize = start;
    let mut inq: bool = false;
    loop
        invariant
            start <= pos <= data@.len(),
            csv_eol(data@, q, e, start as int, false) == csv_eol(data@, q, e, pos as int, inq),
        decreases data@.len() - pos,
    {
        if pos >= data.len() {
            return None;
        }
        let b = data[pos];
        if b == q {
            let skip2: bool = match e {
                Some(esc) => pos + 1 < data.len() && data[pos + 1] == esc,
                None => false,
            };
            if skip2 {
                pos = pos + 2;
            } else {
                inq = !inq;
                pos = pos + 1;
            }
        } else if (b == 10 || b == 13) && !inq {
            proof {
                lemma_csv_eol_bounds(data@, q, e, start as int, false);
            }
            return Some(pos);
        } else {
            pos = pos + 1;
        }
    }
}

/// Trim leading and trailing spaces and tabs from a field.
fn trim_exec(f: &[u8]) -> (r: Vec<u8>)
    ensures
        r@ == trim_field(f@),
{
    proof {
        lemma_trim_bounds(f@);
    }
    let mut a: usize = 0;
    while a < f.len() && (f[a] == 32 || f[a] == 9)
        invariant
            0 <= a <= f@.len(),
            trim_start_at(f@, 0) == trim_start_at(f@, a as int),
        decreases f@.len() - a,
    {
        a = a + 1;
    }
    assert(a as int == trim_start_at(f@, 0));
    let mut b: usize = f.len();
    while b > a && (f[b - 1] == 32 || f[b - 1] == 9)
        invariant
            a <= b <= f@.len(),
            trim_end_at(f@, a as int, f@.len() as int) == trim_end_at(f@, a as int, b as int),
        decreases b,
    {
        b = b - 1;
    }
    assert(b as int == trim_end_at(f@, a as int, f@.len() as int));
    copy_range(f, a, b)
}

/// A finished field: trimmed when configured.
fn finalize_exec(cfg: &CsvConfig, f: &[u8]) -> (r: Vec<u8>)
    ensures
        r@ == finalize_field(*cfg, f@),
{
    if cfg.trim_whitespace {
        trim_exec(f)
    } else {
        let mut out: Vec<u8> = Vec::new();
        append_slice(&mut out, f);
        assert(out@ =~= f@);
        out
    }
}

/// Split one row into fields: fast path without quotes, the two-state
/// machine otherwise.
fn parse_fields_exec(cfg: &CsvConfig, line: &[u8]) -> (r: Vec<Vec<u8>>)
    ensures
        vv(r@) == split_fields(*cfg, line@),
{
    let has_quotes = find_byte(line, 0, cfg.quote).is_some();
    let mut fields: Vec<Vec<u8>> = Vec::new();
    proof {
        assert(vv(fields@) =~= Seq::<Seq<u8>>::empty());
    }
    let line_len = line.len();
    if !has_quotes {
        let mut start: usize = 0;
        loop
            invariant
                start <= line@.len(),
                line@.len() == line_len,
                find_from(line@, cfg.quote, 0) is None,
                split_plain(*cfg, line@, 0, Seq::empty()) == split_plain(
                    *cfg,
                    line@,
                    start as int,
                    vv(fields@),
                ),
            decreases line@.len() - start,
        {
            match find_byte(line, start, cfg.delimiter) {
                Some(p) => {
                    let fld = finalize_exec(cfg, crate::bytes::copy_range(
                        line,
                        start,
                        p,
                    ).as_slice());
                    proof {
                        assert(fld@ == finalize_field(*cfg, line@.subrange(start as int, p as int)));
                    }
                    let ghost pre = vv(fields@);
                    fields.push(fld);
                    proof {
                        assert(vv(fields@) =~= pre.push(
                            finalize_field(*cfg, line@.subrange(start as int, p as int)),
                        ));
                    }
                    start = p + 1;
                },
                None => {
                    let fld = finalize_exec(cfg, crate::bytes::copy_range(
                        line,
                        start,
                        line.len(),
                    ).as_slice());
                    let ghost pre = vv(fields@);
                    fields.push(fld);
                    proof {
                        assert(vv(fields@) =~= pre.push(
                            finalize_field(
                                *cfg,
                                line@.subrange(start as int, line@.len() as int),
                            ),
                        ));
                        assert(split_plain(*cfg, line@, start as int, pre) == pre.push(
                            finalize_field(
                                *cfg,
                                line@.subrange(start as int, line@.len() as int),
                            ),
                        ));
                        assert(vv(fields@) == split_plain(*cfg, line@, 0, Seq::empty()));
                        assert(find_from(line@, cfg.quote, 0) is None);
                        assert(vv(fields@) == split_fields(*cfg, line@));
                    }
                    return fields;
                },
            }
        }
    } else {
        let mut field: Vec<u8> = Vec::new();
        let mut pos: usize = 0;
        let mut inq: bool = false;
        loop
            invariant
                pos <= line@.len(),
                line@.len() == line_len,
                find_from(line@, cfg.quote, 0) is Some,
                split_quoted(*cfg, line@, 0, false, Seq::empty(), Seq::empty()) == split_quoted(
                    *cfg,
                    line@,
                    pos as int,
                    inq,
                    field@,
                    vv(fields@),
                ),
            decreases line@.len() - pos,
        {
            if pos >= line.len() {
                let ghost oldf = field@;
                let fld = finalize_exec(cfg, field.as_slice());
                let ghost pre = vv(fields@);
                fields.push(fld);
                proof {
                    assert(vv(fields@) =~= pre.push(finalize_field(*cfg, oldf)));
                    assert(split_quoted(*cfg, line@, pos as int, inq, oldf, pre) == pre.push(
                        finalize_field(*cfg, oldf),
                    ));
                    assert(vv(fields@) == split_quoted(
                        *cfg,
                        line@,
                        0,
                        false,
                        Seq::empty(),
                        Seq::empty(),
                    ));
                    assert(find_from(line@, cfg.quote, 0) is Some);
                    assert(vv(fields@) == split_fields(*cfg, line@));
                }
                return fields;
            }
            let b = line[pos];
            if b == cfg.quote {
                let pair: bool = match cfg.escape {
                    Some(esc) => inq && pos + 1 < line.len() && line[pos + 1] == esc,
                    None => false,
                };
                if pair {
                    let esc = match cfg.escape {
                        Some(x) => x,
                        None => 0,
                    };
                    field.push(esc);
                    pos = pos + 2;
                } else {
                    inq = !inq;
                    pos = pos + 1;
                }
            } else if b == cfg.delimiter && !inq {
                let ghost oldf = field@;
                let fld = finalize_exec(cfg, field.as_slice());
                let ghost pre = vv(fields@);
                fields.push(fld);
                field = Vec::new();
                proof {
                    assert(vv(fields@) =~= pre.push(finalize_field(*cfg, oldf)));
                }
                pos = pos + 1;
            } else {
                field.push(b);
                pos = pos + 1;
            }
        }
    }
}

/// Decimal digits of `n`, appended to `out`.
pub fn write_decimal(out: &mut Vec<u8>, n: usize)
    ensures
        final(out)@ == old(out)@ + dec_digits(n as nat),
    decreases n,
{
    if n < 10 {
        out.push(48 + (n as u8));
        assert(out@ =~= old(out)@ + dec_digits(n as nat));
    } else {
        write_decimal(out, n / 10);
        out.push(48 + ((n % 10) as u8));
        assert(out@ =~= old(out)@ + dec_digits(n as nat));
    }
}

/// Escape a CSV value for its JSON string: the named escapes only.
fn write_basic_escaped(out: &mut Vec<u8>, s: &[u8])
    ensures
        final(out)@ == old(out)@ + esc_basic(s@),
{
    let mut i: usize = 0;
    proof {
        assert(s@.take(0) =~= Seq::<u8>::empty());
    }
    while i < s.len()
        invariant
            0 <= i <= s@.len(),
            out@ == old(out)@ + esc_basic(s@.take(i as int)),
        decreases s@.len() - i,
    {
        let b = s[i];
        proof {
            lemma_esc_basic_take(s@, i as int);
        }
        if b == 34 {
            out.push(92);
            out.push(34);
        } else if b == 92 {
            out.push(92);
            out.push(92);
        } else if b == 10 {
            out.push(92);
            out.push(110);
        } else if b == 13 {
            out.push(92);
            out.push(114);
        } else if b == 9 {
            out.push(92);
            out.push(116);
        } else if b == 8 {
            out.push(92);
            out.push(98);
        } else if b == 12 {
            out.push(92);
            out.push(102);
        } else {
            out.push(b);
        }
        assert(out@ =~= old(out)@ + esc_basic(s@.take(i + 1 as int)));
        i = i + 1;
    }
    proof {
        assert(s@.take(s@.len() as int) =~= s@);
    }
}

/// The view of an optional header vector.
pub open spec fn hview(h: Option<Vec<Vec<u8>>>) -> Option<Seq<Seq<u8>>> {
    match h {
        Some(v) => Some(vv(v@)),
        None => None,
    }
}

/// Append the NDJSON object for one row to `out`.
#[verifier::rlimit(100)]
fn write_row_json(out: &mut Vec<u8>, headers: &Option<Vec<Vec<u8>>>, fields: &Vec<Vec<u8>>)
    ensures
        final(out)@ == old(out)@ + row_json(hview(*headers), vv(fields@)),
{
    let ghost gh = hview(*headers);
    let ghost gf = vv(fields@);
    out.push(123);
    let mut i: usize = 0;
    proof {
        assert(gf.len() == fields@.len());
    }
    while i < fields.len()
        invariant
            0 <= i <= fields@.len(),
            gh == hview(*headers),
            gf == vv(fields@),
            gf.len() == fields@.len(),
            out@ == old(out)@ + seq![123u8] + row_members(gh, gf, i as int),
        decreases fields@.len() - i,
    {
        if i > 0 {
            out.push(44);
        }
        out.push(34);
        let have_header: bool = match headers {
            Some(h) => i < h.len(),
            None => false,
        };
        if have_header {
            match headers {
                Some(h) => {
                    append_slice(out, h[i].as_slice());
                    proof {
                        assert(vv(h@)[i as int] == h@[i as int]@);
                    }
                },
                None => {},
            }
        } else {
            out.push(102);
            out.push(105);
            out.push(101);
            out.push(108);
            out.push(100);
            out.push(95);
            write_decimal(out, i);
        }
        proof {
            assert(field_key(gh, i as int) == (match gh {
                Some(h) => if 0 <= i < h.len() {
                    h[i as int]
                } else {
                    seq![102u8, 105u8, 101u8, 108u8, 100u8, 95u8] + dec_digits(i as nat)
                },
                None => seq![102u8, 105u8, 101u8, 108u8, 100u8, 95u8] + dec_digits(i as nat),
            }));
        }
        out.push(34);
        out.push(58);
        out.push(34);
        proof {
            assert(vv(fields@)[i as int] == fields@[i as int]@);
        }
        write_basic_escaped(out, fields[i].as_slice());
        out.push(34);
        proof {
            assert(out@ =~= old(out)@ + seq![123u8] + (row_members(gh, gf, i as int) + (if i > 0 {
                seq![44u8]
            } else {
                Seq::<u8>::empty()
            }) + row_member(gh, gf, i as int)));
            if i == 0 {
                assert(row_members(gh, gf, 1) == row_member(gh, gf, 0));
                assert(out@ =~= old(out)@ + seq![123u8] + row_members(gh, gf, i + 1 as int));
            } else {
                assert(row_members(gh, gf, i + 1 as int) == row_members(gh, gf, i as int) + seq![
                    44u8,
                ] + row_member(gh, gf, i as int));
                assert(out@ =~= old(out)@ + seq![123u8] + row_members(gh, gf, i + 1 as int));
            }
        }
        i = i + 1;
    }
    out.push(125);
    proof {
        assert(out@ =~= old(out)@ + row_json(gh, gf));
    }
}

/// Streaming CSV reader that emits NDJSON records.
pub struct CsvParser {
    config: CsvConfig,
    partial_line: Vec<u8>,
    headers: Option<Vec<Vec<u8>>>,
    chunk_target_bytes: usize,
    record_count: usize,
    speculative_mode: bool,
    records_exact: Ghost<nat>,
}

impl CsvParser {
    /// The configuration the parser was built with.
    pub closed spec fn spec_cfg(&self) -> CsvConfig {
        self.config
    }

    /// The carried unfinished row.
    pub closed spec fn spec_partial(&self) -> Seq<u8> {
        self.partial_line@
    }

    /// The headers discovered so far.
    pub closed spec fn spec_headers(&self) -> Option<Seq<Seq<u8>>> {
        hview(self.headers)
    }

    /// Exact number of records emitted so far.
    pub closed spec fn spec_records(&self) -> nat {
        self.records_exact@
    }

    pub fn new(config: CsvConfig, chunk_target_bytes: usize) -> (r: CsvParser)
        ensures
            r.spec_cfg() == config,
            r.spec_partial() == Seq::<u8>::empty(),
            r.spec_headers() == None::<Seq<Seq<u8>>>,
            r.spec_records() == 0,
    {
        let r = CsvParser {
            config,
            partial_line: Vec::new(),
            headers: None,
            chunk_target_bytes,
            record_count: 0,
            speculative_mode: true,
            records_exact: Ghost(0nat),
        };
        r
    }

    /// Parse the rows that `chunk` completes and emit one NDJSON object
    /// per data row; the first kept row becomes the header when
    /// configured. The unfinished row is carried to the next call.
    #[verifier::rlimit(80)]
    pub fn push_to_ndjson(&mut self, chunk: &[u8]) -> (r: Result<Vec<u8>, ConvertError>)
        ensures
            r is Ok,
            final(self).spec_cfg() == old(self).spec_cfg(),
            ({
                let cfg = old(self).spec_cfg();
                let rows = csv_rows(
                    old(self).spec_partial() + chunk@,
                    cfg.quote,
                    cfg.escape,
                );
                let f = csv_fold(cfg, rows, old(self).spec_headers());
                &&& r->Ok_0@ == f.0
                &&& final(self).spec_partial() == csv_rest(
                    old(self).spec_partial() + chunk@,
                    cfg.quote,
                    cfg.escape,
                )
                &&& final(self).spec_headers() == f.1
                &&& final(self).spec_records() == old(self).spec_records() + f.2
            }),
    {
        let ghost cfg = self.config;
        let ghost tail0 = old(self).partial_line@;
        let mut data: Vec<u8> = Vec::new();
        std::mem::swap(&mut data, &mut self.partial_line);
        append_slice(&mut data, chunk);
        let ghost full = data@;
        assert(full == tail0 + chunk@);

        let mut out: Vec<u8> = Vec::new();
        let mut start: usize = 0;
        let data_len = data.len();
        let ghost mut done: Seq<Seq<u8>> = Seq::empty();
        proof {
            assert(full.skip(0) =~= full);
            assert(csv_fold(cfg, done, old(self).spec_headers()).0 =~= Seq::<u8>::empty());
        }
        loop
            invariant
                self.config == cfg,
                cfg == old(self).spec_cfg(),
                hview(old(self).headers) == old(self).spec_headers(),
                old(self).records_exact@ == old(self).spec_records(),
                data@ == full,
                full.len() == data_len,
                full == old(self).spec_partial() + chunk@,
                start <= full.len(),
                csv_rows(full, cfg.quote, cfg.escape) == done + csv_rows(
                    full.skip(start as int),
                    cfg.quote,
                    cfg.escape,
                ),
                csv_rest(full, cfg.quote, cfg.escape) == csv_rest(
                    full.skip(start as int),
                    cfg.quote,
                    cfg.escape,
                ),
                out@ == csv_fold(cfg, done, old(self).spec_headers()).0,
                hview(self.headers) == csv_fold(cfg, done, old(self).spec_headers()).1,
                self.records_exact@ == old(self).records_exact@ + csv_fold(
                    cfg,
                    done,
                    old(self).spec_headers(),
                ).2,
            decreases full.len() - start,
        {
            proof {
                lemma_csv_eol_sub(
                    full,
                    full.skip(start as int),
                    cfg.quote,
                    cfg.escape,
                    start as int,
                    0,
                    false,
                );
                lemma_csv_eol_bounds(full, cfg.quote, cfg.escape, start as int, false);
            }
            match find_line_end(data.as_slice(), start, self.config.quote, self.config.escape) {
                Some(p) => {
                    let ghost rest = full.skip(start as int);
                    proof {
                        lemma_csv_eol_bounds(rest, cfg.quote, cfg.escape, 0, false);
                        assert(csv_eol(rest, cfg.quote, cfg.escape, 0, false) == Some(
                            p - start,
                        ));
                        assert(rest.take(p - start) =~= full.subrange(start as int, p as int));
                        assert(rest.skip(p - start + 1) =~= full.skip(p + 1 as int));
                        lemma_csv_fold_push(
                            cfg,
                            done,
                            full.subrange(start as int, p as int),
                            old(self).spec_headers(),
                        );
                    }
                    let line = copy_range(data.as_slice(), start, p);
                    if !(line.len() == 0 || all_whitespace(line.as_slice())) {
                        let fields = parse_fields_exec(&self.config, line.as_slice());
                        let needs_header: bool = self.config.has_headers && self.headers.is_none();
                        if needs_header {
                            self.headers = Some(fields);
                        } else {
                            write_row_json(&mut out, &self.headers, &fields);
                            out.push(10);
                            self.record_count = if self.record_count < usize::MAX {
                                self.record_count + 1
                            } else {
                                self.record_count
                            };
                            proof {
                                self.records_exact@ = self.records_exact@ + 1;
                            }
                        }
                    }
                    proof {
                        done = done.push(full.subrange(start as int, p as int));
                        assert(csv_rows(full, cfg.quote, cfg.escape) =~= done + csv_rows(
                            full.skip(p + 1 as int),
                            cfg.quote,
                            cfg.escape,
                        ));
                    }
                    start = p + 1;
                },
                None => {
                    proof {
                        assert(csv_eol(full.skip(start as int), cfg.quote, cfg.escape, 0, false)
                            == None::<int>);
                        assert(csv_rows(full, cfg.quote, cfg.escape) =~= done);
                        assert(csv_rest(full.skip(start as int), cfg.quote, cfg.escape) == full.skip(
                            start as int,
                        ));
                    }
                    let tail = copy_range(data.as_slice(), start, data_len);
                    proof {
                        assert(tail@ =~= full.skip(start as int));
                    }
                    self.partial_line = tail;
                    return Ok(out);
                },
            }
        }
    }

    /// Flush the carried tail as a final row: header or record, exactly
    /// as a completed row would have been handled, but without the
    /// blank-row skip. The parser is left empty.
    pub fn finish(&mut self) -> (r: Result<Vec<u8>, ConvertError>)
        ensures
            r is Ok,
            final(self).spec_cfg() == old(self).spec_cfg(),
            final(self).spec_partial() == Seq::<u8>::empty(),
            ({
                let cfg = old(self).spec_cfg();
                let f = csv_finish_step(cfg, old(self).spec_partial(), old(self).spec_headers());
                &&& r->Ok_0@ == f.0
                &&& final(self).spec_headers() == f.1
                &&& final(self).spec_records() == old(self).spec_records() + f.2
            }),
    {
        let mut line: Vec<u8> = Vec::new();
        std::mem::swap(&mut line, &mut self.partial_line);
        let mut out: Vec<u8> = Vec::new();
        if line.len() > 0 {
            let fields = parse_fields_exec(&self.config, line.as_slice());
            let needs_header: bool = self.config.has_headers && self.headers.is_none();
            if needs_header {
                self.headers = Some(fields);
            } else {
                write_row_json(&mut out, &self.headers, &fields);
                out.push(10);
                self.record_count = if self.record_count < usize::MAX {
                    self.record_count + 1
                } else {
                    self.record_count
                };
                proof {
                    self.records_exact@ = self.records_exact@ + 1;
                    assert(out@ =~= row_json(
                        hview(old(self).headers),
                        vv(fields@),
                    ) + seq![10u8]);
                }
            }
        }
        Ok(out)
    }

    /// Size of the carried partial row.
    pub fn partial_size(&self) -> (r: usize)
        ensures
            r as int == self.spec_partial().len(),
    {
        self.partial_line.len()
    }

    /// Number of records emitted so far, saturating at the machine
    /// limit; the exact count is `spec_records`.
    pub fn record_count(&self) -> usize {
        self.record_count
    }
}

/// Chunk-boundary independence for the CSV pass, one step: pushing `c`
/// after having consumed `s` contributes exactly what extending the
/// stream does, header state and record count included.
pub proof fn lemma_csv_chunk_step(cfg: CsvConfig, s: Seq<u8>, c: Seq<u8>, h0: Option<Seq<Seq<u8>>>)
    ensures
        csv_fold(cfg, csv_rows(s + c, cfg.quote, cfg.escape), h0).0 == csv_fold(
            cfg,
            csv_rows(s, cfg.quote, cfg.escape),
            h0,
        ).0 + csv_fold(
            cfg,
            csv_rows(csv_rest(s, cfg.quote, cfg.escape) + c, cfg.quote, cfg.escape),
            csv_fold(cfg, csv_rows(s, cfg.quote, cfg.escape), h0).1,
        ).0,
        csv_rest(s + c, cfg.quote, cfg.escape) == csv_rest(
            csv_rest(s, cfg.quote, cfg.escape) + c,
            cfg.quote,
            cfg.escape,
        ),
{
    lemma_csv_stream_append(s, c, cfg.quote, cfg.escape);
    lemma_csv_fold_append(
        cfg,
        csv_rows(s, cfg.quote, cfg.escape),
        csv_rows(csv_rest(s, cfg.quote, cfg.escape) + c, cfg.quote, cfg.escape),
        h0,
    );
}

} // verus!
