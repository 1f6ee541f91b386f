//! The converter state machine: one variant per pipeline, composing a
//! source parser, an optional transform, and a sink writer over the
//! NDJSON intermediate. It carries partial buffers across calls, runs
//! auto-detection on the first chunk when the input configuration is
//! incomplete, counts records, and errors on any use after `finish`.
use vstd::prelude::*;
use vstd::string::StringExecFns;
use vstd::string::StringSliceAdditionalSpecFns;
use crate::csv_parser::{CsvConfig, CsvParser};
use crate::csv_writer::CsvWriter;
use crate::detect;
use crate::error::ConvertError;
use crate::format::{ConverterConfig, Format};
use crate::json::JsonValue;
use crate::ndjson_parser::NdjsonParser;
use crate::stats::Stats;
use crate::timing::Timer;
use crate::transform::{TransformEngine, TransformPlan};
use crate::xml_parser::{XmlConfig, XmlParser, XmlWriter};

verus! {

/// Relies on str::from_utf8: `Ok` exactly on valid UTF-8, viewing the
/// same bytes; the bytes of the returned slice are the input.
#[verifier::external_body]
fn utf8_str(b: &[u8]) -> (r: Option<&str>)
    ensures
        match r {
            Some(s) => s.spec_bytes() == b@,
            None => true,
        },
{
    match std::str::from_utf8(b) {
        Ok(s) => Some(s),
        Err(_) => None,
    }
}

/// The active pipeline, one variant per (source, transform?, sink).
pub enum ConverterState {
    CsvPassthrough(CsvParser, CsvWriter),
    CsvToNdjson(CsvParser),
    CsvToNdjsonTransform(CsvParser, TransformEngine),
    CsvToJson(CsvParser, NdjsonParser, bool),
    CsvToJsonTransform(CsvParser, TransformEngine, NdjsonParser, bool),
    CsvToXml(CsvParser, XmlWriter),
    CsvToXmlTransform(CsvParser, TransformEngine, XmlWriter),
    CsvToCsvTransform(CsvParser, TransformEngine, CsvWriter),
    NdjsonPassthrough(NdjsonParser),
    NdjsonTransform(TransformEngine),
    NdjsonToJson(NdjsonParser, bool),
    NdjsonToJsonTransform(TransformEngine, NdjsonParser, bool),
    NdjsonToCsv(NdjsonParser, CsvWriter),
    NdjsonToCsvTransform(TransformEngine, CsvWriter),
    NdjsonToXml(NdjsonParser, XmlWriter),
    NdjsonToXmlTransform(TransformEngine, XmlWriter),
    XmlToNdjson(XmlParser),
    XmlToNdjsonTransform(XmlParser, TransformEngine),
    XmlToJson(XmlParser, NdjsonParser, bool),
    XmlToJsonTransform(XmlParser, TransformEngine, NdjsonParser, bool),
    XmlToCsv(XmlParser, CsvWriter),
    XmlToCsvTransform(XmlParser, TransformEngine, CsvWriter),
    XmlPassthrough(XmlParser),
    XmlToXmlTransform(XmlParser, TransformEngine, XmlWriter),
    JsonPassthrough(Vec<u8>),
    JsonToJsonTransform(Vec<u8>, TransformEngine, NdjsonParser, bool),
    JsonToNdjson(Vec<u8>),
    JsonToNdjsonTransform(Vec<u8>, TransformEngine),
    JsonToCsv(Vec<u8>, CsvWriter),
    JsonToCsvTransform(Vec<u8>, TransformEngine, CsvWriter),
    JsonToXml(Vec<u8>, XmlWriter),
    JsonToXmlTransform(Vec<u8>, TransformEngine, XmlWriter),
    NeedsDetection(Vec<u8>),
}

/// A streaming converter: push chunks in, take converted bytes out,
/// finish exactly once.
pub struct Converter {
    debug: bool,
    config: ConverterConfig,
    state: Option<ConverterState>,
    stats: Stats,
}

/// A feed line with any trailing carriage return removed.
pub open spec fn strip_cr(l: Seq<u8>) -> Seq<u8> {
    if l.len() > 0 && l.last() == 13 {
        l.drop_last()
    } else {
        l
    }
}

/// How the writer feed splits NDJSON bytes: every complete line, then
/// the trailing remainder when one is left, carriage returns stripped.
pub open spec fn feed_lines(b: Seq<u8>) -> Seq<Seq<u8>> {
    crate::bytes::stream_lines(b).map_values(|l: Seq<u8>| strip_cr(l)) + (
    if crate::bytes::stream_tail(b).len() > 0 {
        seq![strip_cr(crate::bytes::stream_tail(b))]
    } else {
        Seq::<Seq<u8>>::empty()
    })
}

/// Fold the feed lines through the CSV writer: blank lines dropped,
/// every other line one header-freezing `cw_step`.
pub open spec fn csv_feed(hs: Seq<Seq<u8>>, written: bool, lines: Seq<Seq<u8>>) -> (
    Seq<u8>,
    Seq<Seq<u8>>,
    bool,
)
    decreases lines.len(),
{
    if lines.len() == 0 {
        (Seq::empty(), hs, written)
    } else {
        let prev = csv_feed(hs, written, lines.drop_last());
        let l = lines.last();
        if l.len() == 0 || crate::bytes::all_ws(l) {
            prev
        } else {
            let st = crate::csv_writer::cw_step(prev.1, prev.2, l);
            (prev.0 + st.0, st.1, st.2)
        }
    }
}

/// Fold the feed lines through the XML writer: blank lines dropped,
/// the document header once before the first record element.
pub open spec fn xml_feed(root: Seq<u8>, rec: Seq<u8>, hw: bool, lines: Seq<Seq<u8>>) -> (
    Seq<u8>,
    bool,
)
    decreases lines.len(),
{
    if lines.len() == 0 {
        (Seq::empty(), hw)
    } else {
        let prev = xml_feed(root, rec, hw, lines.drop_last());
        let l = lines.last();
        if l.len() == 0 || crate::bytes::all_ws(l) {
            prev
        } else {
            (
                prev.0 + (if prev.1 {
                    Seq::<u8>::empty()
                } else {
                    crate::xml_parser::xml_header(root)
                }) + crate::xml_parser::xml_line_out(rec, l),
                true,
            )
        }
    }
}

proof fn lemma_vv_push(s: Seq<Vec<u8>>, x: Vec<u8>)
    ensures
        crate::bytes::vv(s.push(x)) == crate::bytes::vv(s).push(x@),
{
    assert(crate::bytes::vv(s.push(x)) =~= crate::bytes::vv(s).push(x@));
}

proof fn lemma_strip_map_push(s: Seq<Seq<u8>>, x: Seq<u8>)
    ensures
        s.push(x).map_values(|l: Seq<u8>| strip_cr(l)) == s.map_values(
            |l: Seq<u8>| strip_cr(l),
        ).push(strip_cr(x)),
{
    assert(s.push(x).map_values(|l: Seq<u8>| strip_cr(l)) =~= s.map_values(
        |l: Seq<u8>| strip_cr(l),
    ).push(strip_cr(x)));
}

/// Split intermediate NDJSON bytes into lines and hand each non-blank
/// one to the callback-free writers below.
fn lines_of(data: &[u8]) -> (r: Vec<Vec<u8>>)
    ensures
        crate::bytes::vv(r@) == feed_lines(data@),
{
    let mut out: Vec<Vec<u8>> = Vec::new();
    let mut start: usize = 0;
    let data_len = data.len();
    let ghost full = data@;
    let ghost mut done: Seq<Seq<u8>> = Seq::empty();
    proof {
        assert(full.skip(0) =~= full);
        assert(crate::bytes::vv(out@) =~= done.map_values(|l: Seq<u8>| strip_cr(l)));
    }
    loop
        invariant
            data@ == full,
            full.len() == data_len,
            start <= full.len(),
            crate::bytes::stream_lines(full) == done + crate::bytes::stream_lines(
                full.skip(start as int),
            ),
            crate::bytes::stream_tail(full) == crate::bytes::stream_tail(
                full.skip(start as int),
            ),
            crate::bytes::vv(out@) == done.map_values(|l: Seq<u8>| strip_cr(l)),
        decreases full.len() - start,
    {
        proof {
            crate::bytes::lemma_find_skip(full, 10, start as int);
            crate::bytes::lemma_find_from(full, 10, start as int);
        }
        match crate::bytes::find_byte(data, start, 10) {
            Some(p) => {
                let ghost rest = full.skip(start as int);
                proof {
                    crate::bytes::lemma_stream_step(rest, p - start);
                    assert(rest.take(p - start) =~= full.subrange(start as int, p as int));
                    assert(rest.skip(p - start + 1) =~= full.skip(p + 1 as int));
                }
                let ghost raw = full.subrange(start as int, p as int);
                let mut line = crate::bytes::copy_range(data, start, p);
                proof {
                    assert(line@ =~= raw);
                }
                if line.len() > 0 && line[line.len() - 1] == 13 {
                    let shorter = crate::bytes::copy_range(line.as_slice(), 0, line.len() - 1);
                    proof {
                        assert(shorter@ =~= raw.drop_last());
                    }
                    line = shorter;
                }
                proof {
                    assert(line@ == strip_cr(raw));
                }
                let ghost out_prev = out@;
                out.push(line);
                proof {
                    lemma_vv_push(out_prev, line);
                    lemma_strip_map_push(done, raw);
                    done = done.push(raw);
                    assert(crate::bytes::stream_lines(full) =~= done
                        + crate::bytes::stream_lines(full.skip(p + 1 as int)));
                    assert(crate::bytes::vv(out@) == done.map_values(
                        |l: Seq<u8>| strip_cr(l),
                    ));
                }
                start = p + 1;
            },
            None => {
                proof {
                    crate::bytes::lemma_stream_no_nl(full.skip(start as int));
                    assert(crate::bytes::stream_lines(full) =~= done);
                    assert(crate::bytes::stream_tail(full.skip(start as int)) == full.skip(
                        start as int,
                    ));
                }
                if start < data_len {
                    let ghost raw = full.skip(start as int);
                    let mut line = crate::bytes::copy_range(data, start, data_len);
                    proof {
                        assert(line@ =~= raw);
                    }
                    if line.len() > 0 && line[line.len() - 1] == 13 {
                        let shorter = crate::bytes::copy_range(
                            line.as_slice(),
                            0,
                            line.len() - 1,
                        );
                        proof {
                            assert(shorter@ =~= raw.drop_last());
                        }
                        line = shorter;
                    }
                    proof {
                        assert(line@ == strip_cr(raw));
                    }
                    let ghost out_prev = out@;
                    out.push(line);
                    proof {
                        lemma_vv_push(out_prev, line);
                        assert(crate::bytes::vv(out@) =~= feed_lines(full));
                    }
                } else {
                    proof {
                        assert(full.skip(start as int) =~= Seq::<u8>::empty());
                        assert(crate::bytes::vv(out@) =~= feed_lines(full));
                    }
                }
                return out;
            },
        }
    }
}

/// Feed NDJSON lines to the CSV writer: the output grows by the
/// `csv_feed` fold of the feed lines, and the writer carries the fold's
/// header state. Only a line that is not UTF-8 fails.
fn ndjson_to_csv_writer(writer: &mut CsvWriter, ndjson: &[u8], out: &mut Vec<u8>) -> (r: Result<
    (),
    ConvertError,
>)
    ensures
        match r {
            Ok(_) => ({
                let f = csv_feed(
                    old(writer).spec_headers(),
                    old(writer).spec_written(),
                    feed_lines(ndjson@),
                );
                &&& final(out)@ == old(out)@ + f.0
                &&& final(writer).spec_headers() == f.1
                &&& final(writer).spec_written() == f.2
            }),
            Err(e) => e is Utf8Error,
        },
{
    let lines = lines_of(ndjson);
    let ghost big_l = feed_lines(ndjson@);
    let ghost h0 = writer.spec_headers();
    let ghost w0 = writer.spec_written();
    let ghost out0 = out@;
    let mut i: usize = 0;
    proof {
        assert(big_l.take(0) =~= Seq::<Seq<u8>>::empty());
    }
    while i < lines.len()
        invariant
            crate::bytes::vv(lines@) == big_l,
            big_l == feed_lines(ndjson@),
            0 <= i <= lines@.len(),
            h0 == old(writer).spec_headers(),
            w0 == old(writer).spec_written(),
            out0 == old(out)@,
            out@ == out0 + csv_feed(h0, w0, big_l.take(i as int)).0,
            writer.spec_headers() == csv_feed(h0, w0, big_l.take(i as int)).1,
            writer.spec_written() == csv_feed(h0, w0, big_l.take(i as int)).2,
        decreases lines@.len() - i,
    {
        proof {
            assert(big_l.take(i + 1).drop_last() =~= big_l.take(i as int));
            assert(big_l.take(i + 1).last() == big_l[i as int]);
            assert(big_l[i as int] == lines@[i as int]@);
        }
        let line = &lines[i];
        if !(line.len() == 0 || crate::bytes::all_whitespace(line.as_slice())) {
            match utf8_str(line.as_slice()) {
                Some(s) => {
                    match writer.process_json_line(s) {
                        Ok(piece) => {
                            crate::bytes::append_slice(out, piece.as_slice());
                            proof {
                                assert(out@ =~= out0 + (csv_feed(
                                    h0,
                                    w0,
                                    big_l.take(i as int),
                                ).0 + piece@));
                            }
                        },
                        Err(_) => {},
                    }
                },
                None => {
                    return Err(
                        ConvertError::Utf8Error(String::from_str("invalid UTF-8 in record")),
                    );
                },
            }
        }
        i = i + 1;
    }
    proof {
        assert(big_l.take(lines@.len() as int) =~= big_l);
    }
    Ok(())
}

/// Feed NDJSON lines to the XML writer: the output grows by the
/// `xml_feed` fold of the feed lines, the header written once. Only a
/// line that is not UTF-8 fails.
fn ndjson_to_xml_writer(writer: &mut XmlWriter, ndjson: &[u8], out: &mut Vec<u8>) -> (r: Result<
    (),
    ConvertError,
>)
    ensures
        match r {
            Ok(_) => ({
                let f = xml_feed(
                    old(writer).spec_root(),
                    old(writer).spec_record(),
                    old(writer).spec_header_written(),
                    feed_lines(ndjson@),
                );
                &&& final(out)@ == old(out)@ + f.0
                &&& final(writer).spec_header_written() == f.1
                &&& final(writer).spec_root() == old(writer).spec_root()
                &&& final(writer).spec_record() == old(writer).spec_record()
            }),
            Err(e) => e is Utf8Error,
        },
{
    let lines = lines_of(ndjson);
    let ghost big_l = feed_lines(ndjson@);
    let ghost root0 = writer.spec_root();
    let ghost rec0 = writer.spec_record();
    let ghost hw0 = writer.spec_header_written();
    let ghost out0 = out@;
    let mut i: usize = 0;
    proof {
        assert(big_l.take(0) =~= Seq::<Seq<u8>>::empty());
    }
    while i < lines.len()
        invariant
            crate::bytes::vv(lines@) == big_l,
            big_l == feed_lines(ndjson@),
            0 <= i <= lines@.len(),
            root0 == old(writer).spec_root(),
            rec0 == old(writer).spec_record(),
            hw0 == old(writer).spec_header_written(),
            out0 == old(out)@,
            writer.spec_root() == root0,
            writer.spec_record() == rec0,
            out@ == out0 + xml_feed(root0, rec0, hw0, big_l.take(i as int)).0,
            writer.spec_header_written() == xml_feed(root0, rec0, hw0, big_l.take(i as int)).1,
        decreases lines@.len() - i,
    {
        proof {
            assert(big_l.take(i + 1).drop_last() =~= big_l.take(i as int));
            assert(big_l.take(i + 1).last() == big_l[i as int]);
            assert(big_l[i as int] == lines@[i as int]@);
        }
        let line = &lines[i];
        if !(line.len() == 0 || crate::bytes::all_whitespace(line.as_slice())) {
            match utf8_str(line.as_slice()) {
                Some(s) => {
                    match writer.process_json_line(s) {
                        Ok(piece) => {
                            crate::bytes::append_slice(out, piece.as_slice());
                            proof {
                                assert(out@ =~= out0 + (xml_feed(
                                    root0,
                                    rec0,
                                    hw0,
                                    big_l.take(i as int),
                                ).0 + piece@));
                            }
                        },
                        Err(_) => {},
                    }
                },
                None => {
                    return Err(
                        ConvertError::Utf8Error(String::from_str("invalid UTF-8 in record")),
                    );
                },
            }
        }
        i = i + 1;
    }
    proof {
        assert(big_l.take(lines@.len() as int) =~= big_l);
    }
    Ok(())
}

/// Count the newlines in a byte string. On the NDJSON intermediate
/// every record is one line ending in a newline and record contents
/// escape theirs, so this is the record count of the intermediate.
fn count_newlines(data: &[u8]) -> (r: usize)
    ensures
        true,
{
    let mut count: usize = 0;
    let mut i: usize = 0;
    while i < data.len()
        invariant
            0 <= i <= data@.len(),
            count <= i,
        decreases data@.len() - i,
    {
        if data[i] == 10 {
            count = count + 1;
        }
        i = i + 1;
    }
    count
}

/// One NDJSON line per array element, serialized minified.
pub open spec fn jv_ndjson_lines(xs: Seq<crate::json::JsonV>) -> Seq<u8>
    decreases xs.len(),
{
    if xs.len() == 0 {
        Seq::empty()
    } else {
        jv_ndjson_lines(xs.drop_last()) + crate::json_out::ser(xs.last()) + seq![10u8]
    }
}

/// The NDJSON a parsed JSON document yields: one line per array
/// element, one line for a bare object, nothing otherwise; with the
/// record count.
pub open spec fn jv_ndjson(v: crate::json::JsonV) -> (Seq<u8>, nat) {
    match v {
        crate::json::JsonV::Arr(xs) => (jv_ndjson_lines(xs), xs.len()),
        crate::json::JsonV::Obj(_) => (crate::json_out::ser(v) + seq![10u8], 1),
        _ => (Seq::empty(), 0),
    }
}

/// Serialize a parsed JSON document as NDJSON: one line per array
/// element, one line for a bare object, nothing otherwise.
fn json_value_to_ndjson(v: &JsonValue) -> (r: (Vec<u8>, usize))
    ensures
        r.0@ == jv_ndjson(crate::json::jv(*v)).0,
        r.1 as nat == jv_ndjson(crate::json::jv(*v)).1,
{
    match v {
        JsonValue::Arr(xs) => {
            proof {
                crate::json::lemma_jv_list_len(xs@);
            }
            let ghost big_l = crate::json::jv_list(xs@);
            let mut out: Vec<u8> = Vec::new();
            let mut i: usize = 0;
            proof {
                assert(jv_ndjson_lines(big_l.take(0)) =~= Seq::<u8>::empty());
            }
            while i < xs.len()
                invariant
                    0 <= i <= xs@.len(),
                    big_l == crate::json::jv_list(xs@),
                    big_l.len() == xs@.len(),
                    forall|j: int| 0 <= j < xs@.len() ==> big_l[j] == crate::json::jv(xs@[j]),
                    out@ == jv_ndjson_lines(big_l.take(i as int)),
                decreases xs@.len() - i,
            {
                proof {
                    assert(big_l.take(i + 1).drop_last() =~= big_l.take(i as int));
                    assert(big_l.take(i + 1).last() == big_l[i as int]);
                }
                let piece = crate::json_out::ser_to_vec(&xs[i]);
                crate::bytes::append_slice(&mut out, piece.as_slice());
                out.push(10);
                proof {
                    assert(out@ =~= jv_ndjson_lines(big_l.take(i as int))
                        + crate::json_out::ser(big_l[i as int]) + seq![10u8]);
                }
                i = i + 1;
            }
            let n = xs.len();
            proof {
                assert(big_l.take(xs@.len() as int) =~= big_l);
            }
            (out, n)
        },
        JsonValue::Obj(_) => {
            let mut out = crate::json_out::ser_to_vec(v);
            out.push(10);
            proof {
                assert(out@ =~= crate::json_out::ser(crate::json::jv(*v)) + seq![10u8]);
            }
            (out, 1)
        },
        _ => (Vec::new(), 0),
    }
}

/// NDJSON bytes a CSV parser yields for one pushed chunk.
pub open spec fn csv_stage_push(p: CsvParser, chunk: Seq<u8>) -> Seq<u8> {
    crate::csv_parser::csv_fold(
        p.spec_cfg(),
        crate::csv_parser::csv_rows(
            p.spec_partial() + chunk,
            p.spec_cfg().quote,
            p.spec_cfg().escape,
        ),
        p.spec_headers(),
    ).0
}

/// NDJSON bytes an XML parser yields for one pushed chunk; `None` on a
/// malformed record element.
pub open spec fn xml_stage_push(p: XmlParser, chunk: Seq<u8>) -> Option<Seq<u8>> {
    match crate::xml_parser::xp_scan(
        p.spec_partial() + chunk,
        p.spec_name(),
        p.spec_trim(),
        p.spec_attrs(),
    ) {
        Some(t) => Some(t.0),
        None => None,
    }
}

/// NDJSON bytes the validating pass yields for one pushed chunk.
pub open spec fn nd_stage_push(p: NdjsonParser, chunk: Seq<u8>) -> Seq<u8> {
    crate::ndjson_parser::nd_out(crate::bytes::stream_lines(p.spec_partial() + chunk))
}

/// NDJSON bytes the transform engine yields for one pushed chunk;
/// `None` when a complete line fails to transform.
pub open spec fn tr_stage_push(e: TransformEngine, b: Seq<u8>) -> Option<Seq<u8>> {
    if crate::transform::tr_lines_ok(
        e.spec_plan(),
        crate::bytes::stream_lines(e.spec_partial() + b),
    ) {
        Some(
            crate::transform::tr_out(
                e.spec_plan(),
                crate::bytes::stream_lines(e.spec_partial() + b),
            ).0,
        )
    } else {
        None
    }
}

/// JSON-array bytes the array writer yields for one pushed chunk.
pub open spec fn ja_stage_push(p: NdjsonParser, b: Seq<u8>, is_first: bool) -> Seq<u8> {
    (if is_first {
        seq![91u8]
    } else {
        Seq::<u8>::empty()
    }) + crate::ndjson_parser::ja_fold(
        crate::bytes::stream_lines(p.spec_partial() + b),
        p.spec_items() > 0,
    ).0
}

/// CSV bytes the writer sink yields for NDJSON bytes.
pub open spec fn csv_sink_push(w: CsvWriter, b: Seq<u8>) -> Seq<u8> {
    csv_feed(w.spec_headers(), w.spec_written(), feed_lines(b)).0
}

/// XML bytes the writer sink yields for NDJSON bytes.
pub open spec fn xml_sink_push(w: XmlWriter, b: Seq<u8>) -> Seq<u8> {
    xml_feed(w.spec_root(), w.spec_record(), w.spec_header_written(), feed_lines(b)).0
}

/// A CSV parse stage advanced by one chunk.
pub open spec fn csv_parser_evolves(p: CsvParser, chunk: Seq<u8>, p2: CsvParser) -> bool {
    let cfg = p.spec_cfg();
    &&& p2.spec_cfg() == cfg
    &&& p2.spec_partial() == crate::csv_parser::csv_rest(
        p.spec_partial() + chunk,
        cfg.quote,
        cfg.escape,
    )
    &&& p2.spec_headers() == crate::csv_parser::csv_fold(
        cfg,
        crate::csv_parser::csv_rows(p.spec_partial() + chunk, cfg.quote, cfg.escape),
        p.spec_headers(),
    ).1
}

/// An NDJSON validating stage advanced by one chunk.
pub open spec fn nd_parser_evolves(p: NdjsonParser, chunk: Seq<u8>, p2: NdjsonParser) -> bool {
    &&& p2.spec_partial() == crate::bytes::stream_tail(p.spec_partial() + chunk)
    &&& p2.spec_items() == p.spec_items()
}

/// A JSON-array stage advanced by one feed.
pub open spec fn ja_parser_evolves(p: NdjsonParser, b: Seq<u8>, p2: NdjsonParser) -> bool {
    &&& p2.spec_partial() == crate::bytes::stream_tail(p.spec_partial() + b)
    &&& (p2.spec_items() > 0) == crate::ndjson_parser::ja_fold(
        crate::bytes::stream_lines(p.spec_partial() + b),
        p.spec_items() > 0,
    ).1
}

/// A transform stage advanced by one feed.
pub open spec fn engine_evolves(e: TransformEngine, b: Seq<u8>, e2: TransformEngine) -> bool {
    &&& e2.spec_plan() == e.spec_plan()
    &&& e2.spec_partial() == crate::bytes::stream_tail(e.spec_partial() + b)
}

/// A CSV sink advanced by one feed.
pub open spec fn csv_writer_evolves(w: CsvWriter, b: Seq<u8>, w2: CsvWriter) -> bool {
    let f = csv_feed(w.spec_headers(), w.spec_written(), feed_lines(b));
    &&& w2.spec_headers() == f.1
    &&& w2.spec_written() == f.2
}

/// An XML sink advanced by one feed.
pub open spec fn xml_writer_evolves(w: XmlWriter, b: Seq<u8>, w2: XmlWriter) -> bool {
    let f = xml_feed(w.spec_root(), w.spec_record(), w.spec_header_written(), feed_lines(b));
    &&& w2.spec_header_written() == f.1
    &&& w2.spec_root() == w.spec_root()
    &&& w2.spec_record() == w.spec_record()
}

/// An XML record-extraction stage advanced by one chunk.
pub open spec fn xml_parser_evolves(p: XmlParser, chunk: Seq<u8>, p2: XmlParser) -> bool {
    match crate::xml_parser::xp_scan(
        p.spec_partial() + chunk,
        p.spec_name(),
        p.spec_trim(),
        p.spec_attrs(),
    ) {
        Some(t) => p2.spec_partial() == t.2 && p2.spec_name() == p.spec_name() && p2.spec_trim()
            == p.spec_trim() && p2.spec_attrs() == p.spec_attrs(),
        None => false,
    }
}

/// How one successful push advances the pipeline: the same pipeline
/// shape, each stage advanced per its specification, the JSON-array
/// opening consumed, JSON-document buffers extended.
pub open spec fn push_evolves(st: ConverterState, chunk: Seq<u8>, st2: ConverterState) -> bool {
    match (st, st2) {
        (
            ConverterState::CsvPassthrough(p, w),
            ConverterState::CsvPassthrough(p2, w2),
        ) => csv_parser_evolves(p, chunk, p2) && csv_writer_evolves(
            w,
            csv_stage_push(p, chunk),
            w2,
        ),
        (ConverterState::CsvToNdjson(p), ConverterState::CsvToNdjson(p2)) => csv_parser_evolves(
            p,
            chunk,
            p2,
        ),
        (
            ConverterState::CsvToNdjsonTransform(p, e),
            ConverterState::CsvToNdjsonTransform(p2, e2),
        ) => csv_parser_evolves(p, chunk, p2) && engine_evolves(e, csv_stage_push(p, chunk), e2),
        (
            ConverterState::CsvToJson(p, nd, _),
            ConverterState::CsvToJson(p2, nd2, f2),
        ) => csv_parser_evolves(p, chunk, p2) && ja_parser_evolves(
            nd,
            csv_stage_push(p, chunk),
            nd2,
        ) && f2 == false,
        (
            ConverterState::CsvToJsonTransform(p, e, nd, _),
            ConverterState::CsvToJsonTransform(p2, e2, nd2, f2),
        ) => csv_parser_evolves(p, chunk, p2) && engine_evolves(e, csv_stage_push(p, chunk), e2)
            && (match tr_stage_push(e, csv_stage_push(p, chunk)) {
            Some(t) => ja_parser_evolves(nd, t, nd2),
            None => false,
        }) && f2 == false,
        (
            ConverterState::CsvToXml(p, w),
            ConverterState::CsvToXml(p2, w2),
        ) => csv_parser_evolves(p, chunk, p2) && xml_writer_evolves(
            w,
            csv_stage_push(p, chunk),
            w2,
        ),
        (
            ConverterState::CsvToXmlTransform(p, e, w),
            ConverterState::CsvToXmlTransform(p2, e2, w2),
        ) => csv_parser_evolves(p, chunk, p2) && engine_evolves(e, csv_stage_push(p, chunk), e2)
            && (match tr_stage_push(e, csv_stage_push(p, chunk)) {
            Some(t) => xml_writer_evolves(w, t, w2),
            None => false,
        }),
        (
            ConverterState::CsvToCsvTransform(p, e, w),
            ConverterState::CsvToCsvTransform(p2, e2, w2),
        ) => csv_parser_evolves(p, chunk, p2) && engine_evolves(e, csv_stage_push(p, chunk), e2)
            && (match tr_stage_push(e, csv_stage_push(p, chunk)) {
            Some(t) => csv_writer_evolves(w, t, w2),
            None => false,
        }),
        (
            ConverterState::NdjsonPassthrough(p),
            ConverterState::NdjsonPassthrough(p2),
        ) => nd_parser_evolves(p, chunk, p2),
        (
            ConverterState::NdjsonTransform(e),
            ConverterState::NdjsonTransform(e2),
        ) => engine_evolves(e, chunk, e2),
        (
            ConverterState::NdjsonToJson(p, _),
            ConverterState::NdjsonToJson(p2, f2),
        ) => ja_parser_evolves(p, chunk, p2) && f2 == false,
        (
            ConverterState::NdjsonToJsonTransform(e, nd, _),
            ConverterState::NdjsonToJsonTransform(e2, nd2, f2),
        ) => engine_evolves(e, chunk, e2) && (match tr_stage_push(e, chunk) {
            Some(t) => ja_parser_evolves(nd, t, nd2),
            None => false,
        }) && f2 == false,
        (
            ConverterState::NdjsonToCsv(p, w),
            ConverterState::NdjsonToCsv(p2, w2),
        ) => nd_parser_evolves(p, chunk, p2) && csv_writer_evolves(
            w,
            nd_stage_push(p, chunk),
            w2,
        ),
        (
            ConverterState::NdjsonToCsvTransform(e, w),
            ConverterState::NdjsonToCsvTransform(e2, w2),
        ) => engine_evolves(e, chunk, e2) && (match tr_stage_push(e, chunk) {
            Some(t) => csv_writer_evolves(w, t, w2),
            None => false,
        }),
        (
            ConverterState::NdjsonToXml(p, w),
            ConverterState::NdjsonToXml(p2, w2),
        ) => nd_parser_evolves(p, chunk, p2) && xml_writer_evolves(
            w,
            nd_stage_push(p, chunk),
            w2,
        ),
        (
            ConverterState::NdjsonToXmlTransform(e, w),
            ConverterState::NdjsonToXmlTransform(e2, w2),
        ) => engine_evolves(e, chunk, e2) && (match tr_stage_push(e, chunk) {
            Some(t) => xml_writer_evolves(w, t, w2),
            None => false,
        }),
        (ConverterState::XmlToNdjson(p), ConverterState::XmlToNdjson(p2)) => xml_parser_evolves(
            p,
            chunk,
            p2,
        ),
        (
            ConverterState::XmlToNdjsonTransform(p, e),
            ConverterState::XmlToNdjsonTransform(p2, e2),
        ) => xml_parser_evolves(p, chunk, p2) && (match xml_stage_push(p, chunk) {
            Some(nd) => engine_evolves(e, nd, e2),
            None => false,
        }),
        (
            ConverterState::XmlToJson(p, nd, _),
            ConverterState::XmlToJson(p2, nd2, f2),
        ) => xml_parser_evolves(p, chunk, p2) && (match xml_stage_push(p, chunk) {
            Some(t) => ja_parser_evolves(nd, t, nd2),
            None => false,
        }) && f2 == false,
        (
            ConverterState::XmlToJsonTransform(p, e, nd, _),
            ConverterState::XmlToJsonTransform(p2, e2, nd2, f2),
        ) => xml_parser_evolves(p, chunk, p2) && (match xml_stage_push(p, chunk) {
            Some(t) => engine_evolves(e, t, e2) && (match tr_stage_push(e, t) {
                Some(u) => ja_parser_evolves(nd, u, nd2),
                None => false,
            }),
            None => false,
        }) && f2 == false,
        (
            ConverterState::XmlToCsv(p, w),
            ConverterState::XmlToCsv(p2, w2),
        ) => xml_parser_evolves(p, chunk, p2) && (match xml_stage_push(p, chunk) {
            Some(t) => csv_writer_evolves(w, t, w2),
            None => false,
        }),
        (
            ConverterState::XmlToCsvTransform(p, e, w),
            ConverterState::XmlToCsvTransform(p2, e2, w2),
        ) => xml_parser_evolves(p, chunk, p2) && (match xml_stage_push(p, chunk) {
            Some(t) => engine_evolves(e, t, e2) && (match tr_stage_push(e, t) {
                Some(u) => csv_writer_evolves(w, u, w2),
                None => false,
            }),
            None => false,
        }),
        (
            ConverterState::XmlPassthrough(p),
            ConverterState::XmlPassthrough(p2),
        ) => xml_parser_evolves(p, chunk, p2),
        (
            ConverterState::XmlToXmlTransform(p, e, w),
            ConverterState::XmlToXmlTransform(p2, e2, w2),
        ) => xml_parser_evolves(p, chunk, p2) && (match xml_stage_push(p, chunk) {
            Some(t) => engine_evolves(e, t, e2) && (match tr_stage_push(e, t) {
                Some(u) => xml_writer_evolves(w, u, w2),
                None => false,
            }),
            None => false,
        }),
        (
            ConverterState::JsonPassthrough(b),
            ConverterState::JsonPassthrough(b2),
        ) => b2@ == b@ + chunk,
        (
            ConverterState::JsonToJsonTransform(b, e, nd, f),
            ConverterState::JsonToJsonTransform(b2, e2, nd2, f2),
        ) => b2@ == b@ + chunk && e2 == e && nd2 == nd && f2 == f,
        (
            ConverterState::JsonToNdjson(b),
            ConverterState::JsonToNdjson(b2),
        ) => b2@ == b@ + chunk,
        (
            ConverterState::JsonToNdjsonTransform(b, e),
            ConverterState::JsonToNdjsonTransform(b2, e2),
        ) => b2@ == b@ + chunk && e2 == e,
        (
            ConverterState::JsonToCsv(b, w),
            ConverterState::JsonToCsv(b2, w2),
        ) => b2@ == b@ + chunk && w2 == w,
        (
            ConverterState::JsonToCsvTransform(b, e, w),
            ConverterState::JsonToCsvTransform(b2, e2, w2),
        ) => b2@ == b@ + chunk && e2 == e && w2 == w,
        (
            ConverterState::JsonToXml(b, w),
            ConverterState::JsonToXml(b2, w2),
        ) => b2@ == b@ + chunk && w2 == w,
        (
            ConverterState::JsonToXmlTransform(b, e, w),
            ConverterState::JsonToXmlTransform(b2, e2, w2),
        ) => b2@ == b@ + chunk && e2 == e && w2 == w,
        (
            ConverterState::NeedsDetection(b),
            ConverterState::NeedsDetection(b2),
        ) => b2 == b,
        _ => false,
    }
}

/// The bytes one push yields in each pipeline state, composed from the
/// stage specifications; `None` exactly where a stage specification
/// rejects the input. JSON-document input is buffered until `finish`,
/// so a push contributes no bytes there.
pub open spec fn push_out(st: ConverterState, chunk: Seq<u8>) -> Option<Seq<u8>> {
    match st {
        ConverterState::CsvPassthrough(p, w) => Some(csv_sink_push(w, csv_stage_push(p, chunk))),
        ConverterState::CsvToNdjson(p) => Some(csv_stage_push(p, chunk)),
        ConverterState::CsvToNdjsonTransform(p, e) => tr_stage_push(e, csv_stage_push(p, chunk)),
        ConverterState::CsvToJson(p, nd, first) => Some(
            ja_stage_push(nd, csv_stage_push(p, chunk), first),
        ),
        ConverterState::CsvToJsonTransform(p, e, nd, first) => match tr_stage_push(
            e,
            csv_stage_push(p, chunk),
        ) {
            Some(t) => Some(ja_stage_push(nd, t, first)),
            None => None,
        },
        ConverterState::CsvToXml(p, w) => Some(xml_sink_push(w, csv_stage_push(p, chunk))),
        ConverterState::CsvToXmlTransform(p, e, w) => match tr_stage_push(
            e,
            csv_stage_push(p, chunk),
        ) {
            Some(t) => Some(xml_sink_push(w, t)),
            None => None,
        },
        ConverterState::CsvToCsvTransform(p, e, w) => match tr_stage_push(
            e,
            csv_stage_push(p, chunk),
        ) {
            Some(t) => Some(csv_sink_push(w, t)),
            None => None,
        },
        ConverterState::NdjsonPassthrough(p) => Some(nd_stage_push(p, chunk)),
        ConverterState::NdjsonTransform(e) => tr_stage_push(e, chunk),
        ConverterState::NdjsonToJson(p, first) => Some(ja_stage_push(p, chunk, first)),
        ConverterState::NdjsonToJsonTransform(e, nd, first) => match tr_stage_push(e, chunk) {
            Some(t) => Some(ja_stage_push(nd, t, first)),
            None => None,
        },
        ConverterState::NdjsonToCsv(p, w) => Some(csv_sink_push(w, nd_stage_push(p, chunk))),
        ConverterState::NdjsonToCsvTransform(e, w) => match tr_stage_push(e, chunk) {
            Some(t) => Some(csv_sink_push(w, t)),
            None => None,
        },
        ConverterState::NdjsonToXml(p, w) => Some(xml_sink_push(w, nd_stage_push(p, chunk))),
        ConverterState::NdjsonToXmlTransform(e, w) => match tr_stage_push(e, chunk) {
            Some(t) => Some(xml_sink_push(w, t)),
            None => None,
        },
        ConverterState::XmlToNdjson(p) => xml_stage_push(p, chunk),
        ConverterState::XmlToNdjsonTransform(p, e) => match xml_stage_push(p, chunk) {
            Some(nd) => tr_stage_push(e, nd),
            None => None,
        },
        ConverterState::XmlToJson(p, nd, first) => match xml_stage_push(p, chunk) {
            Some(t) => Some(ja_stage_push(nd, t, first)),
            None => None,
        },
        ConverterState::XmlToJsonTransform(p, e, nd, first) => match xml_stage_push(p, chunk) {
            Some(t) => match tr_stage_push(e, t) {
                Some(u) => Some(ja_stage_push(nd, u, first)),
                None => None,
            },
            None => None,
        },
        ConverterState::XmlToCsv(p, w) => match xml_stage_push(p, chunk) {
            Some(t) => Some(csv_sink_push(w, t)),
            None => None,
        },
        ConverterState::XmlToCsvTransform(p, e, w) => match xml_stage_push(p, chunk) {
            Some(t) => match tr_stage_push(e, t) {
                Some(u) => Some(csv_sink_push(w, u)),
                None => None,
            },
            None => None,
        },
        ConverterState::XmlPassthrough(p) => match xml_stage_push(p, chunk) {
            Some(_) => Some(chunk),
            None => None,
        },
        ConverterState::XmlToXmlTransform(p, e, w) => match xml_stage_push(p, chunk) {
            Some(t) => match tr_stage_push(e, t) {
                Some(u) => Some(xml_sink_push(w, u)),
                None => None,
            },
            None => None,
        },
        ConverterState::JsonPassthrough(_) => Some(Seq::empty()),
        ConverterState::JsonToJsonTransform(_, _, _, _) => Some(Seq::empty()),
        ConverterState::JsonToNdjson(_) => Some(Seq::empty()),
        ConverterState::JsonToNdjsonTransform(_, _) => Some(Seq::empty()),
        ConverterState::JsonToCsv(_, _) => Some(Seq::empty()),
        ConverterState::JsonToCsvTransform(_, _, _) => Some(Seq::empty()),
        ConverterState::JsonToXml(_, _) => Some(Seq::empty()),
        ConverterState::JsonToXmlTransform(_, _, _) => Some(Seq::empty()),
        ConverterState::NeedsDetection(_) => Some(Seq::empty()),
    }
}

/// NDJSON bytes a CSV parser flush yields.
pub open spec fn csv_stage_fin(p: CsvParser) -> Seq<u8> {
    crate::csv_parser::csv_finish_step(p.spec_cfg(), p.spec_partial(), p.spec_headers()).0
}

/// NDJSON bytes an XML parser flush yields; `None` on a malformed
/// buffered record.
pub open spec fn xml_stage_fin(p: XmlParser) -> Option<Seq<u8>> {
    match crate::xml_parser::xp_scan(
        p.spec_partial(),
        p.spec_name(),
        p.spec_trim(),
        p.spec_attrs(),
    ) {
        Some(t) => Some(t.0),
        None => None,
    }
}

/// What the transform engine yields for a final feed `b` followed by
/// its own flush; `None` when a line or the tail fails to transform.
pub open spec fn tr_stage_fin(e: TransformEngine, b: Seq<u8>) -> Option<Seq<u8>> {
    let lines = crate::bytes::stream_lines(e.spec_partial() + b);
    let t = crate::bytes::stream_tail(e.spec_partial() + b);
    if crate::transform::tr_lines_ok(e.spec_plan(), lines) && (crate::transform::tr_skip(t)
        || crate::transform::tr_line(e.spec_plan(), t) is Some) {
        Some(
            crate::transform::tr_out(e.spec_plan(), lines).0 + (if crate::transform::tr_skip(t) {
                Seq::<u8>::empty()
            } else {
                match crate::transform::tr_line(e.spec_plan(), t) {
                    Some(Some(bytes)) => bytes,
                    _ => Seq::<u8>::empty(),
                }
            }),
        )
    } else {
        None
    }
}

/// What the engine's flush alone yields; `None` when the carried tail
/// fails to transform.
pub open spec fn tr_tail_fin(e: TransformEngine) -> Option<Seq<u8>> {
    let t = e.spec_partial();
    if crate::transform::tr_skip(t) || crate::transform::tr_line(e.spec_plan(), t) is Some {
        Some(
            if crate::transform::tr_skip(t) {
                Seq::<u8>::empty()
            } else {
                match crate::transform::tr_line(e.spec_plan(), t) {
                    Some(Some(bytes)) => bytes,
                    _ => Seq::<u8>::empty(),
                }
            },
        )
    } else {
        None
    }
}

/// The closing JSON-array bytes: remaining records, the flushed tail,
/// and the closing bracket.
pub open spec fn ja_stage_fin(p: NdjsonParser, b: Seq<u8>, is_first: bool) -> Seq<u8> {
    let lines = crate::bytes::stream_lines(p.spec_partial() + b);
    let t = crate::bytes::stream_tail(p.spec_partial() + b);
    let fa = crate::ndjson_parser::ja_fold(lines, p.spec_items() > 0);
    let fb = crate::ndjson_parser::ja_fold(seq![t], fa.1);
    (if is_first {
        seq![91u8]
    } else {
        Seq::<u8>::empty()
    }) + fa.0 + fb.0 + seq![93u8]
}

/// The XML sink's bytes for final NDJSON bytes `b`: the fold, then the
/// footer when a header was ever written.
pub open spec fn xml_sink_fin(w: XmlWriter, b: Seq<u8>) -> Seq<u8> {
    let f = xml_feed(w.spec_root(), w.spec_record(), w.spec_header_written(), feed_lines(b));
    f.0 + (if f.1 {
        crate::xml_parser::xml_footer(w.spec_root())
    } else {
        Seq::<u8>::empty()
    })
}

/// The bytes `finish` yields in each pipeline state, composed from the
/// stage flush specifications; `None` exactly where a stage
/// specification rejects what was carried.
pub open spec fn finish_out(st: ConverterState) -> Option<Seq<u8>> {
    match st {
        ConverterState::CsvPassthrough(p, w) => Some(csv_sink_push(w, csv_stage_fin(p))),
        ConverterState::CsvToNdjson(p) => Some(csv_stage_fin(p)),
        ConverterState::CsvToNdjsonTransform(p, e) => tr_stage_fin(e, csv_stage_fin(p)),
        ConverterState::CsvToJson(p, nd, first) => Some(
            ja_stage_fin(nd, csv_stage_fin(p), first),
        ),
        ConverterState::CsvToJsonTransform(p, e, nd, first) => match tr_stage_fin(
            e,
            csv_stage_fin(p),
        ) {
            Some(t) => Some(ja_stage_fin(nd, t, first)),
            None => None,
        },
        ConverterState::CsvToXml(p, w) => Some(xml_sink_fin(w, csv_stage_fin(p))),
        ConverterState::CsvToXmlTransform(p, e, w) => match tr_stage_fin(e, csv_stage_fin(p)) {
            Some(t) => Some(xml_sink_fin(w, t)),
            None => None,
        },
        ConverterState::CsvToCsvTransform(p, e, w) => match tr_stage_fin(e, csv_stage_fin(p)) {
            Some(t) => Some(csv_sink_push(w, t)),
            None => None,
        },
        ConverterState::NdjsonPassthrough(p) => Some(
            crate::ndjson_parser::nd_line_out(p.spec_partial()),
        ),
        ConverterState::NdjsonTransform(e) => tr_tail_fin(e),
        ConverterState::NdjsonToJson(p, first) => Some(
            ja_stage_fin(p, Seq::<u8>::empty(), first),
        ),
        ConverterState::NdjsonToJsonTransform(e, nd, first) => match tr_tail_fin(e) {
            Some(t) => Some(ja_stage_fin(nd, t, first)),
            None => None,
        },
        ConverterState::NdjsonToCsv(p, w) => Some(
            csv_sink_push(w, crate::ndjson_parser::nd_line_out(p.spec_partial())),
        ),
        ConverterState::NdjsonToCsvTransform(e, w) => match tr_tail_fin(e) {
            Some(t) => Some(csv_sink_push(w, t)),
            None => None,
        },
        ConverterState::NdjsonToXml(p, w) => Some(
            xml_sink_fin(w, crate::ndjson_parser::nd_line_out(p.spec_partial())),
        ),
        ConverterState::NdjsonToXmlTransform(e, w) => match tr_tail_fin(e) {
            Some(t) => Some(xml_sink_fin(w, t)),
            None => None,
        },
        ConverterState::XmlToNdjson(p) => xml_stage_fin(p),
        ConverterState::XmlToNdjsonTransform(p, e) => match xml_stage_fin(p) {
            Some(nd) => tr_stage_fin(e, nd),
            None => None,
        },
        ConverterState::XmlToJson(p, nd, first) => match xml_stage_fin(p) {
            Some(t) => Some(ja_stage_fin(nd, t, first)),
            None => None,
        },
        ConverterState::XmlToJsonTransform(p, e, nd, first) => match xml_stage_fin(p) {
            Some(t) => match tr_stage_fin(e, t) {
                Some(u) => Some(ja_stage_fin(nd, u, first)),
                None => None,
            },
            None => None,
        },
        ConverterState::XmlToCsv(p, w) => match xml_stage_fin(p) {
            Some(t) => Some(csv_sink_push(w, t)),
            None => None,
        },
        ConverterState::XmlToCsvTransform(p, e, w) => match xml_stage_fin(p) {
            Some(t) => match tr_stage_fin(e, t) {
                Some(u) => Some(csv_sink_push(w, u)),
                None => None,
            },
            None => None,
        },
        ConverterState::XmlPassthrough(p) => match xml_stage_fin(p) {
            Some(_) => Some(Seq::<u8>::empty()),
            None => None,
        },
        ConverterState::XmlToXmlTransform(p, e, w) => match xml_stage_fin(p) {
            Some(t) => match tr_stage_fin(e, t) {
                Some(u) => Some(xml_sink_fin(w, u)),
                None => None,
            },
            None => None,
        },
        ConverterState::JsonPassthrough(buf) => Some(buf@),
        ConverterState::JsonToJsonTransform(buf, e, nd, first) => match crate::json::spec_parse(
            buf@,
        ) {
            Some(v) => match tr_stage_fin(e, jv_ndjson(v).0) {
                Some(t) => Some(ja_stage_fin(nd, t, first)),
                None => None,
            },
            None => None,
        },
        ConverterState::JsonToNdjson(buf) => match crate::json::spec_parse(buf@) {
            Some(v) => Some(jv_ndjson(v).0),
            None => None,
        },
        ConverterState::JsonToNdjsonTransform(buf, e) => match crate::json::spec_parse(buf@) {
            Some(v) => tr_stage_fin(e, jv_ndjson(v).0),
            None => None,
        },
        ConverterState::JsonToCsv(buf, w) => match crate::json::spec_parse(buf@) {
            Some(v) => Some(csv_sink_push(w, jv_ndjson(v).0)),
            None => None,
        },
        ConverterState::JsonToCsvTransform(buf, e, w) => match crate::json::spec_parse(buf@) {
            Some(v) => match tr_stage_fin(e, jv_ndjson(v).0) {
                Some(t) => Some(csv_sink_push(w, t)),
                None => None,
            },
            None => None,
        },
        ConverterState::JsonToXml(buf, w) => match crate::json::spec_parse(buf@) {
            Some(v) => Some(xml_sink_fin(w, jv_ndjson(v).0)),
            None => None,
        },
        ConverterState::JsonToXmlTransform(buf, e, w) => match crate::json::spec_parse(buf@) {
            Some(v) => match tr_stage_fin(e, jv_ndjson(v).0) {
                Some(t) => Some(xml_sink_fin(w, t)),
                None => None,
            },
            None => None,
        },
        ConverterState::NeedsDetection(_) => Some(Seq::<u8>::empty()),
    }
}

/// Chunk-boundary independence at the converter, NDJSON pass-through:
/// pushing `a + b` in one call yields the same bytes as pushing `a`
/// and then `b` to the advanced state. Folded over any partition of a
/// stream, the pushes therefore produce the same output wherever the
/// boundaries fell.
pub proof fn lemma_converter_ndjson_chunk_step(
    p: NdjsonParser,
    p2: NdjsonParser,
    a: Seq<u8>,
    b: Seq<u8>,
)
    requires
        nd_parser_evolves(p, a, p2),
    ensures
        push_out(ConverterState::NdjsonPassthrough(p), a + b) matches Some(whole)
            && push_out(ConverterState::NdjsonPassthrough(p), a) matches Some(first)
            && push_out(ConverterState::NdjsonPassthrough(p2), b) matches Some(second) && whole
            == first + second,
{
    crate::ndjson_parser::lemma_ndjson_chunk_step(p.spec_partial() + a, b);
    assert(p.spec_partial() + a + b =~= p.spec_partial() + (a + b));
}

/// Chunk-boundary independence at the converter, CSV to NDJSON: the
/// same split law, with the parser's quote state and discovered
/// headers carried through the advanced state.
pub proof fn lemma_converter_csv_chunk_step(p: CsvParser, p2: CsvParser, a: Seq<u8>, b: Seq<u8>)
    requires
        csv_parser_evolves(p, a, p2),
    ensures
        push_out(ConverterState::CsvToNdjson(p), a + b) matches Some(whole) && push_out(
            ConverterState::CsvToNdjson(p),
            a,
        ) matches Some(first) && push_out(ConverterState::CsvToNdjson(p2), b) matches Some(second)
            && whole == first + second,
{
    let cfg = p.spec_cfg();
    crate::csv_parser::lemma_csv_chunk_step(cfg, p.spec_partial() + a, b, p.spec_headers());
    assert(p.spec_partial() + a + b =~= p.spec_partial() + (a + b));
}

impl Converter {
    /// Is the converter finished (no active state left)?
    pub closed spec fn spec_finished(&self) -> bool {
        self.state is None
    }

    /// The running statistics.
    pub closed spec fn spec_stats(&self) -> Stats {
        self.stats
    }

    /// The active pipeline state, `None` once finished.
    pub closed spec fn spec_state(&self) -> Option<ConverterState> {
        self.state
    }

    /// The configuration this converter runs.
    pub closed spec fn spec_config(&self) -> ConverterConfig {
        self.config
    }

    /// Build the active state for a configuration; the transform plan,
    /// when present, is taken out of the configuration.
    fn create_state(config: &mut ConverterConfig) -> (r: ConverterState)
        ensures
            !(r is NeedsDetection),
            final(config).input_format == old(config).input_format,
            final(config).output_format == old(config).output_format,
            final(config).chunk_target_bytes == old(config).chunk_target_bytes,
            final(config).enable_stats == old(config).enable_stats,
            final(config).csv_config == old(config).csv_config,
            final(config).xml_config == old(config).xml_config,
            final(config).transform is None,
    {
        let mut plan_slot: Option<TransformPlan> = None;
        std::mem::swap(&mut plan_slot, &mut config.transform);
        let csv_cfg: CsvConfig = match &config.csv_config {
            Some(c) => c.clone(),
            None => CsvConfig::new_default(),
        };
        let xml_cfg: XmlConfig = match &config.xml_config {
            Some(c) => c.clone(),
            None => XmlConfig::new_default(),
        };
        let chunk = config.chunk_target_bytes;
        match (config.input_format, config.output_format) {
            (Format::Csv, Format::Ndjson) => match plan_slot {
                Some(plan) => ConverterState::CsvToNdjsonTransform(
                    CsvParser::new(csv_cfg, chunk),
                    TransformEngine::new(plan),
                ),
                None => ConverterState::CsvToNdjson(CsvParser::new(csv_cfg, chunk)),
            },
            (Format::Csv, Format::Json) => match plan_slot {
                Some(plan) => ConverterState::CsvToJsonTransform(
                    CsvParser::new(csv_cfg, chunk),
                    TransformEngine::new(plan),
                    NdjsonParser::new(chunk),
                    true,
                ),
                None => ConverterState::CsvToJson(
                    CsvParser::new(csv_cfg, chunk),
                    NdjsonParser::new(chunk),
                    true,
                ),
            },
            (Format::Csv, Format::Csv) => match plan_slot {
                Some(plan) => ConverterState::CsvToCsvTransform(
                    CsvParser::new(csv_cfg, chunk),
                    TransformEngine::new(plan),
                    CsvWriter::new(),
                ),
                None => ConverterState::CsvPassthrough(
                    CsvParser::new(csv_cfg, chunk),
                    CsvWriter::new(),
                ),
            },
            (Format::Csv, Format::Xml) => match plan_slot {
                Some(plan) => ConverterState::CsvToXmlTransform(
                    CsvParser::new(csv_cfg, chunk),
                    TransformEngine::new(plan),
                    XmlWriter::new(),
                ),
                None => ConverterState::CsvToXml(CsvParser::new(csv_cfg, chunk), XmlWriter::new()),
            },
            (Format::Ndjson, Format::Ndjson) => match plan_slot {
                Some(plan) => ConverterState::NdjsonTransform(TransformEngine::new(plan)),
                None => ConverterState::NdjsonPassthrough(NdjsonParser::new(chunk)),
            },
            (Format::Ndjson, Format::Json) => match plan_slot {
                Some(plan) => ConverterState::NdjsonToJsonTransform(
                    TransformEngine::new(plan),
                    NdjsonParser::new(chunk),
                    true,
                ),
                None => ConverterState::NdjsonToJson(NdjsonParser::new(chunk), true),
            },
            (Format::Ndjson, Format::Csv) => match plan_slot {
                Some(plan) => ConverterState::NdjsonToCsvTransform(
                    TransformEngine::new(plan),
                    CsvWriter::new(),
                ),
                None => ConverterState::NdjsonToCsv(NdjsonParser::new(chunk), CsvWriter::new()),
            },
            (Format::Ndjson, Format::Xml) => match plan_slot {
                Some(plan) => ConverterState::NdjsonToXmlTransform(
                    TransformEngine::new(plan),
                    XmlWriter::new(),
                ),
                None => ConverterState::NdjsonToXml(NdjsonParser::new(chunk), XmlWriter::new()),
            },
            (Format::Xml, Format::Ndjson) => match plan_slot {
                Some(plan) => ConverterState::XmlToNdjsonTransform(
                    XmlParser::new(xml_cfg, chunk),
                    TransformEngine::new(plan),
                ),
                None => ConverterState::XmlToNdjson(XmlParser::new(xml_cfg, chunk)),
            },
            (Format::Xml, Format::Json) => match plan_slot {
                Some(plan) => ConverterState::XmlToJsonTransform(
                    XmlParser::new(xml_cfg, chunk),
                    TransformEngine::new(plan),
                    NdjsonParser::new(chunk),
                    true,
                ),
                None => ConverterState::XmlToJson(
                    XmlParser::new(xml_cfg, chunk),
                    NdjsonParser::new(chunk),
                    true,
                ),
            },
            (Format::Xml, Format::Csv) => match plan_slot {
                Some(plan) => ConverterState::XmlToCsvTransform(
                    XmlParser::new(xml_cfg, chunk),
                    TransformEngine::new(plan),
                    CsvWriter::new(),
                ),
                None => ConverterState::XmlToCsv(XmlParser::new(xml_cfg, chunk), CsvWriter::new()),
            },
            (Format::Xml, Format::Xml) => match plan_slot {
                Some(plan) => ConverterState::XmlToXmlTransform(
                    XmlParser::new(xml_cfg, chunk),
                    TransformEngine::new(plan),
                    XmlWriter::new(),
                ),
                None => ConverterState::XmlPassthrough(XmlParser::new(xml_cfg, chunk)),
            },
            (Format::Json, Format::Json) => match plan_slot {
                Some(plan) => ConverterState::JsonToJsonTransform(
                    Vec::new(),
                    TransformEngine::new(plan),
                    NdjsonParser::new(chunk),
                    true,
                ),
                None => ConverterState::JsonPassthrough(Vec::new()),
            },
            (Format::Json, Format::Ndjson) => match plan_slot {
                Some(plan) => ConverterState::JsonToNdjsonTransform(
                    Vec::new(),
                    TransformEngine::new(plan),
                ),
                None => ConverterState::JsonToNdjson(Vec::new()),
            },
            (Format::Json, Format::Csv) => match plan_slot {
                Some(plan) => ConverterState::JsonToCsvTransform(
                    Vec::new(),
                    TransformEngine::new(plan),
                    CsvWriter::new(),
                ),
                None => ConverterState::JsonToCsv(Vec::new(), CsvWriter::new()),
            },
            (Format::Json, Format::Xml) => match plan_slot {
                Some(plan) => ConverterState::JsonToXmlTransform(
                    Vec::new(),
                    TransformEngine::new(plan),
                    XmlWriter::new(),
                ),
                None => ConverterState::JsonToXml(Vec::new(), XmlWriter::new()),
            },
        }
    }

    /// A converter with the default configuration.
    pub fn new(debug: bool) -> (r: Converter)
        ensures
            !r.spec_finished(),
    {
        let mut config = ConverterConfig::new(Format::Csv, Format::Ndjson);
        let state = Self::create_state(&mut config);
        Converter { debug, config, state: Some(state), stats: Stats::new_default() }
    }

    /// A converter for the named formats; a CSV input without a CSV
    /// configuration, or an XML input without one, starts in detection.
    /// Exactly an unknown format name is rejected; on success the
    /// configuration carries the arguments.
    pub fn with_config(
        debug: bool,
        input_format: &str,
        output_format: &str,
        chunk_target_bytes: usize,
        enable_stats: bool,
        csv_config: Option<CsvConfig>,
        xml_config: Option<XmlConfig>,
        transform: Option<TransformPlan>,
    ) -> (r: Result<Converter, ConvertError>)
        ensures
            r is Err <==> (crate::format::spec_format_from(input_format.spec_bytes()) is None
                || crate::format::spec_format_from(output_format.spec_bytes()) is None),
            match r {
                Ok(c) => {
                    &&& !c.spec_finished()
                    &&& Some(c.spec_config().input_format) == crate::format::spec_format_from(
                        input_format.spec_bytes(),
                    )
                    &&& Some(c.spec_config().output_format) == crate::format::spec_format_from(
                        output_format.spec_bytes(),
                    )
                    &&& c.spec_config().chunk_target_bytes == chunk_target_bytes
                    &&& c.spec_config().enable_stats == enable_stats
                    &&& (csv_config matches Some(cc) ==> c.spec_config().csv_config == Some(cc))
                    &&& (xml_config matches Some(xc) ==> c.spec_config().xml_config == Some(xc))
                    &&& ((c.spec_state()->Some_0 is NeedsDetection) <==> ((
                    c.spec_config().input_format is Csv && csv_config is None) || (
                    c.spec_config().input_format is Xml && xml_config is None)))
                    &&& (c.spec_state()->Some_0 matches ConverterState::NeedsDetection(b) ==> b@
                        == Seq::<u8>::empty())
                    &&& c.spec_stats().bytes_in == 0 && c.spec_stats().bytes_out == 0
                    &&& c.spec_stats().chunks_in == 0 && c.spec_stats().records_processed == 0
                },
                Err(e) => e is InvalidConfig,
            },
    {
        let input = match Format::from_string(input_format) {
            Some(f) => f,
            None => {
                return Err(
                    ConvertError::InvalidConfig(String::from_str("unknown input format")),
                );
            },
        };
        let output = match Format::from_string(output_format) {
            Some(f) => f,
            None => {
                return Err(
                    ConvertError::InvalidConfig(String::from_str("unknown output format")),
                );
            },
        };
        let needs_detection: bool = match input {
            Format::Csv => csv_config.is_none(),
            Format::Xml => xml_config.is_none(),
            _ => false,
        };
        let mut config = ConverterConfig::new(input, output).with_chunk_size(
            chunk_target_bytes,
        ).with_stats(enable_stats);
        if let Some(c) = csv_config {
            config = config.with_csv_config(c);
        }
        if let Some(x) = xml_config {
            config = config.with_xml_config(x);
        }
        if let Some(t) = transform {
            config = config.with_transform(t);
        }
        let state = if needs_detection {
            ConverterState::NeedsDetection(Vec::new())
        } else {
            Self::create_state(&mut config)
        };
        Ok(Converter { debug, config, state: Some(state), stats: Stats::new_default() })
    }

    /// Run detection on the buffered prefix and commit the hints the
    /// user left open: the CSV delimiter, or the XML record element.
    /// Formats and every other setting are never overridden.
    fn auto_detect_and_initialize(&mut self, sample: &[u8]) -> (r: ConverterState)
        ensures
            final(self).stats == old(self).stats,
            final(self).state == old(self).state,
            !(r is NeedsDetection),
            final(self).config.input_format == old(self).config.input_format,
            final(self).config.output_format == old(self).config.output_format,
            final(self).config.chunk_target_bytes == old(self).config.chunk_target_bytes,
            final(self).config.enable_stats == old(self).config.enable_stats,
            old(self).config.input_format is Csv ==> (match crate::detect::spec_detect_csv(
                sample@,
            ) {
                Some(d) => final(self).config.csv_config matches Some(c) && c.delimiter == d.0,
                None => true,
            }),
            old(self).config.input_format is Xml ==> (match crate::detect::spec_detect_xml(
                sample@,
            ) {
                Some(d) => (match d.1 {
                    Some(n) => final(self).config.xml_config matches Some(x) && x.record_element@
                        == crate::detect::lossy_of(n),
                    None => true,
                }),
                None => true,
            }),
    {
        match self.config.input_format {
            Format::Csv => {
                match detect::detect_csv(sample) {
                    Some(d) => {
                        let mut csv = match &self.config.csv_config {
                            Some(c) => c.clone(),
                            None => CsvConfig::new_default(),
                        };
                        csv.delimiter = d.delimiter;
                        self.config.csv_config = Some(csv);
                    },
                    None => {},
                }
            },
            Format::Xml => {
                match detect::detect_xml(sample) {
                    Some(d) => {
                        match d.record_element {
                            Some(name) => {
                                let mut xml = match &self.config.xml_config {
                                    Some(c) => c.clone(),
                                    None => XmlConfig::new_default(),
                                };
                                xml.record_element = name;
                                self.config.xml_config = Some(xml);
                            },
                            None => {},
                        }
                    },
                    None => {},
                }
            },
            _ => {},
        }
        Self::create_state(&mut self.config)
    }

    /// Push a chunk of input; returns the converted output this chunk
    /// yields (possibly empty while auto-detecting). After `finish`,
    /// pushing is an error.
    pub fn push(&mut self, chunk: &[u8]) -> (r: Result<Vec<u8>, ConvertError>)
        ensures
            Stats::monotonic_from(old(self).spec_stats(), final(self).spec_stats()),
            old(self).spec_finished() ==> (r is Err && r->Err_0 is InvalidConfig && final(self).spec_finished()),
            match old(self).spec_state() {
                Some(st) => {
                    &&& !(st is NeedsDetection) ==> {
                        &&& (r is Ok ==> Some(r->Ok_0@) == push_out(st, chunk@))
                        &&& (r is Ok ==> (match final(self).spec_state() {
                            Some(st2) => push_evolves(st, chunk@, st2),
                            None => false,
                        }))
                        &&& (push_out(st, chunk@) is None ==> r is Err)
                    }
                    &&& (st is NeedsDetection && st->NeedsDetection_0@.len() + chunk@.len() < 256
                        && chunk@.len() > 0) ==> {
                        &&& r is Ok
                        &&& r->Ok_0@ == Seq::<u8>::empty()
                        &&& final(self).spec_state() matches Some(
                            ConverterState::NeedsDetection(b2),
                        ) && b2@ == st->NeedsDetection_0@ + chunk@
                    }
                },
                None => r is Err,
            },
    {
        if self.config.enable_stats {
            self.stats.record_chunk(chunk.len());
        }
        let is_detecting: bool = match &self.state {
            Some(ConverterState::NeedsDetection(_)) => true,
            _ => false,
        };
        if is_detecting {
            let mut slot: Option<ConverterState> = None;
            std::mem::swap(&mut slot, &mut self.state);
            let mut buffer: Vec<u8> = match slot {
                Some(ConverterState::NeedsDetection(b)) => b,
                _ => Vec::new(),
            };
            crate::bytes::append_slice(&mut buffer, chunk);
            if buffer.len() < 256 && chunk.len() > 0 {
                self.state = Some(ConverterState::NeedsDetection(buffer));
                return Ok(Vec::new());
            }
            let new_state = self.auto_detect_and_initialize(buffer.as_slice());
            self.state = Some(new_state);
            return self.push_active(buffer.as_slice());
        }
        self.push_active(chunk)
    }

    /// Push a chunk through the active pipeline.
    fn push_active(&mut self, chunk: &[u8]) -> (r: Result<Vec<u8>, ConvertError>)
        ensures
            Stats::monotonic_from(old(self).spec_stats(), final(self).spec_stats()),
            final(self).config == old(self).config,
            old(self).spec_finished() ==> (r is Err && r->Err_0 is InvalidConfig && final(self).spec_finished()),
            match old(self).spec_state() {
                Some(st) => {
                    &&& (r is Ok ==> Some(r->Ok_0@) == push_out(st, chunk@))
                    &&& (r is Ok ==> (match final(self).spec_state() {
                        Some(st2) => push_evolves(st, chunk@, st2),
                        None => false,
                    }))
                    &&& (push_out(st, chunk@) is None ==> r is Err)
                    &&& (r is Err ==> (push_out(st, chunk@) is None || r->Err_0 is Utf8Error))
                },
                None => r is Err,
            },
    {
        let timer = Timer::new();
        let mut slot: Option<ConverterState> = None;
        std::mem::swap(&mut slot, &mut self.state);
        let state = match slot {
            Some(s) => s,
            None => {
                return Err(
                    ConvertError::InvalidConfig(String::from_str("Converter already finished")),
                );
            },
        };
        let outcome: Result<(Vec<u8>, ConverterState), ConvertError> = self.run_push(
            state,
            chunk,
        );
        match outcome {
            Ok((out, new_state)) => {
                self.state = Some(new_state);
                if self.config.enable_stats {
                    self.stats.record_output(out.len());
                    self.stats.record_parse_time(timer.elapsed());
                }
                Ok(out)
            },
            Err(e) => Err(e),
        }
    }

    /// Dispatch one push to the state's pipeline.
    #[verifier::rlimit(100)]
    fn run_push(&mut self, state: ConverterState, chunk: &[u8]) -> (r: Result<
        (Vec<u8>, ConverterState),
        ConvertError,
    >)
        ensures
            Stats::monotonic_from(old(self).spec_stats(), final(self).spec_stats()),
            final(self).state == old(self).state,
            final(self).config == old(self).config,
            r is Ok ==> Some(r->Ok_0.0@) == push_out(state, chunk@),
            r is Ok ==> push_evolves(state, chunk@, r->Ok_0.1),
            push_out(state, chunk@) is None ==> r is Err,
            r is Err ==> (push_out(state, chunk@) is None || r->Err_0 is Utf8Error),
    {
        match state {
            ConverterState::CsvPassthrough(mut parser, mut writer) => {
                let ndjson = match parser.push_to_ndjson(chunk) {
                    Ok(o) => o,
                    Err(e) => {
                        return Err(e);
                    },
                };
                self.count_ndjson_records(ndjson.as_slice());
                let mut out: Vec<u8> = Vec::new();
                match ndjson_to_csv_writer(&mut writer, ndjson.as_slice(), &mut out) {
                    Ok(_) => Ok((out, ConverterState::CsvPassthrough(parser, writer))),
                    Err(e) => Err(e),
                }
            },
            ConverterState::CsvToNdjson(mut parser) => {
                let out = match parser.push_to_ndjson(chunk) {
                    Ok(o) => o,
                    Err(e) => {
                        return Err(e);
                    },
                };
                self.count_ndjson_records(out.as_slice());
                Ok((out, ConverterState::CsvToNdjson(parser)))
            },
            ConverterState::CsvToNdjsonTransform(mut parser, mut engine) => {
                let ndjson = match parser.push_to_ndjson(chunk) {
                    Ok(o) => o,
                    Err(e) => {
                        return Err(e);
                    },
                };
                let res = match engine.push(ndjson.as_slice()) {
                    Ok(rr) => rr,
                    Err(e) => {
                        return Err(e);
                    },
                };
                if self.config.enable_stats {
                    self.stats.record_records(res.records);
                }
                Ok((res.output, ConverterState::CsvToNdjsonTransform(parser, engine)))
            },
            ConverterState::CsvToJson(mut parser, mut nd, is_first) => {
                let ndjson = match parser.push_to_ndjson(chunk) {
                    Ok(o) => o,
                    Err(e) => {
                        return Err(e);
                    },
                };
                self.count_ndjson_records(ndjson.as_slice());
                let out = match nd.to_json_array(ndjson.as_slice(), is_first, false) {
                    Ok(o) => o,
                    Err(e) => {
                        return Err(e);
                    },
                };
                Ok((out, ConverterState::CsvToJson(parser, nd, false)))
            },
            ConverterState::CsvToJsonTransform(mut parser, mut engine, mut nd, is_first) => {
                let ndjson = match parser.push_to_ndjson(chunk) {
                    Ok(o) => o,
                    Err(e) => {
                        return Err(e);
                    },
                };
                let res = match engine.push(ndjson.as_slice()) {
                    Ok(rr) => rr,
                    Err(e) => {
                        return Err(e);
                    },
                };
                if self.config.enable_stats {
                    self.stats.record_records(res.records);
                }
                let out = match nd.to_json_array(res.output.as_slice(), is_first, false) {
                    Ok(o) => o,
                    Err(e) => {
                        return Err(e);
                    },
                };
                Ok((out, ConverterState::CsvToJsonTransform(parser, engine, nd, false)))
            },
            ConverterState::CsvToXml(mut parser, mut writer) => {
                let ndjson = match parser.push_to_ndjson(chunk) {
                    Ok(o) => o,
                    Err(e) => {
                        return Err(e);
                    },
                };
                self.count_ndjson_records(ndjson.as_slice());
                let mut out: Vec<u8> = Vec::new();
                match ndjson_to_xml_writer(&mut writer, ndjson.as_slice(), &mut out) {
                    Ok(_) => Ok((out, ConverterState::CsvToXml(parser, writer))),
                    Err(e) => Err(e),
                }
            },
            ConverterState::CsvToXmlTransform(mut parser, mut engine, mut writer) => {
                let ndjson = match parser.push_to_ndjson(chunk) {
                    Ok(o) => o,
                    Err(e) => {
                        return Err(e);
                    },
                };
                let res = match engine.push(ndjson.as_slice()) {
                    Ok(rr) => rr,
                    Err(e) => {
                        return Err(e);
                    },
                };
                if self.config.enable_stats {
                    self.stats.record_records(res.records);
                }
                let mut out: Vec<u8> = Vec::new();
                match ndjson_to_xml_writer(&mut writer, res.output.as_slice(), &mut out) {
                    Ok(_) => Ok((out, ConverterState::CsvToXmlTransform(parser, engine, writer))),
                    Err(e) => Err(e),
                }
            },
            ConverterState::CsvToCsvTransform(mut parser, mut engine, mut writer) => {
                let ndjson = match parser.push_to_ndjson(chunk) {
                    Ok(o) => o,
                    Err(e) => {
                        return Err(e);
                    },
                };
                let res = match engine.push(ndjson.as_slice()) {
                    Ok(rr) => rr,
                    Err(e) => {
                        return Err(e);
                    },
                };
                if self.config.enable_stats {
                    self.stats.record_records(res.records);
                }
                let mut out: Vec<u8> = Vec::new();
                match ndjson_to_csv_writer(&mut writer, res.output.as_slice(), &mut out) {
                    Ok(_) => Ok((out, ConverterState::CsvToCsvTransform(parser, engine, writer))),
                    Err(e) => Err(e),
                }
            },
            ConverterState::NdjsonPassthrough(mut parser) => {
                match parser.push(chunk) {
                    Ok(out) => {
                        self.count_ndjson_records(out.as_slice());
                        Ok((out, ConverterState::NdjsonPassthrough(parser)))
                    },
                    Err(e) => Err(e),
                }
            },
            ConverterState::NdjsonTransform(mut engine) => {
                let res = match engine.push(chunk) {
                    Ok(rr) => rr,
                    Err(e) => {
                        return Err(e);
                    },
                };
                if self.config.enable_stats {
                    self.stats.record_records(res.records);
                }
                Ok((res.output, ConverterState::NdjsonTransform(engine)))
            },
            ConverterState::NdjsonToJson(mut parser, is_first) => {
                let before = parser.items_count();
                match parser.to_json_array(chunk, is_first, false) {
                    Ok(out) => {
                        let after = parser.items_count();
                        let n: usize = if after >= before {
                            after - before
                        } else {
                            0
                        };
                        if self.config.enable_stats {
                            self.stats.record_records(n);
                        }
                        Ok((out, ConverterState::NdjsonToJson(parser, false)))
                    },
                    Err(e) => Err(e),
                }
            },
            ConverterState::NdjsonToJsonTransform(mut engine, mut parser, is_first) => {
                let res = match engine.push(chunk) {
                    Ok(rr) => rr,
                    Err(e) => {
                        return Err(e);
                    },
                };
                if self.config.enable_stats {
                    self.stats.record_records(res.records);
                }
                match parser.to_json_array(res.output.as_slice(), is_first, false) {
                    Ok(out) => Ok(
                        (out, ConverterState::NdjsonToJsonTransform(engine, parser, false)),
                    ),
                    Err(e) => Err(e),
                }
            },
            ConverterState::NdjsonToCsv(mut parser, mut writer) => {
                let ndjson = match parser.push(chunk) {
                    Ok(o) => o,
                    Err(e) => {
                        return Err(e);
                    },
                };
                self.count_ndjson_records(ndjson.as_slice());
                let mut out: Vec<u8> = Vec::new();
                match ndjson_to_csv_writer(&mut writer, ndjson.as_slice(), &mut out) {
                    Ok(_) => Ok((out, ConverterState::NdjsonToCsv(parser, writer))),
                    Err(e) => Err(e),
                }
            },
            ConverterState::NdjsonToCsvTransform(mut engine, mut writer) => {
                let res = match engine.push(chunk) {
                    Ok(rr) => rr,
                    Err(e) => {
                        return Err(e);
                    },
                };
                if self.config.enable_stats {
                    self.stats.record_records(res.records);
                }
                let mut out: Vec<u8> = Vec::new();
                match ndjson_to_csv_writer(&mut writer, res.output.as_slice(), &mut out) {
                    Ok(_) => Ok((out, ConverterState::NdjsonToCsvTransform(engine, writer))),
                    Err(e) => Err(e),
                }
            },
            ConverterState::NdjsonToXml(mut parser, mut writer) => {
                let ndjson = match parser.push(chunk) {
                    Ok(o) => o,
                    Err(e) => {
                        return Err(e);
                    },
                };
                self.count_ndjson_records(ndjson.as_slice());
                let mut out: Vec<u8> = Vec::new();
                match ndjson_to_xml_writer(&mut writer, ndjson.as_slice(), &mut out) {
                    Ok(_) => Ok((out, ConverterState::NdjsonToXml(parser, writer))),
                    Err(e) => Err(e),
                }
            },
            ConverterState::NdjsonToXmlTransform(mut engine, mut writer) => {
                let res = match engine.push(chunk) {
                    Ok(rr) => rr,
                    Err(e) => {
                        return Err(e);
                    },
                };
                if self.config.enable_stats {
                    self.stats.record_records(res.records);
                }
                let mut out: Vec<u8> = Vec::new();
                match ndjson_to_xml_writer(&mut writer, res.output.as_slice(), &mut out) {
                    Ok(_) => Ok((out, ConverterState::NdjsonToXmlTransform(engine, writer))),
                    Err(e) => Err(e),
                }
            },
            ConverterState::XmlToNdjson(mut parser) => {
                let out = match parser.push_to_ndjson(chunk) {
                    Ok(o) => o,
                    Err(e) => {
                        return Err(e);
                    },
                };
                self.count_ndjson_records(out.as_slice());
                Ok((out, ConverterState::XmlToNdjson(parser)))
            },
            ConverterState::XmlToNdjsonTransform(mut parser, mut engine) => {
                let ndjson = match parser.push_to_ndjson(chunk) {
                    Ok(o) => o,
                    Err(e) => {
                        return Err(e);
                    },
                };
                let res = match engine.push(ndjson.as_slice()) {
                    Ok(rr) => rr,
                    Err(e) => {
                        return Err(e);
                    },
                };
                if self.config.enable_stats {
                    self.stats.record_records(res.records);
                }
                Ok((res.output, ConverterState::XmlToNdjsonTransform(parser, engine)))
            },
            ConverterState::XmlToJson(mut parser, mut nd, is_first) => {
                let ndjson = match parser.push_to_ndjson(chunk) {
                    Ok(o) => o,
                    Err(e) => {
                        return Err(e);
                    },
                };
                self.count_ndjson_records(ndjson.as_slice());
                match nd.to_json_array(ndjson.as_slice(), is_first, false) {
                    Ok(out) => Ok((out, ConverterState::XmlToJson(parser, nd, false))),
                    Err(e) => Err(e),
                }
            },
            ConverterState::XmlToJsonTransform(mut parser, mut engine, mut nd, is_first) => {
                let ndjson = match parser.push_to_ndjson(chunk) {
                    Ok(o) => o,
                    Err(e) => {
                        return Err(e);
                    },
                };
                let res = match engine.push(ndjson.as_slice()) {
                    Ok(rr) => rr,
                    Err(e) => {
                        return Err(e);
                    },
                };
                if self.config.enable_stats {
                    self.stats.record_records(res.records);
                }
                match nd.to_json_array(res.output.as_slice(), is_first, false) {
                    Ok(out) => Ok(
                        (out, ConverterState::XmlToJsonTransform(parser, engine, nd, false)),
                    ),
                    Err(e) => Err(e),
                }
            },
            ConverterState::XmlToCsv(mut parser, mut writer) => {
                let ndjson = match parser.push_to_ndjson(chunk) {
                    Ok(o) => o,
                    Err(e) => {
                        return Err(e);
                    },
                };
                self.count_ndjson_records(ndjson.as_slice());
                let mut out: Vec<u8> = Vec::new();
                match ndjson_to_csv_writer(&mut writer, ndjson.as_slice(), &mut out) {
                    Ok(_) => Ok((out, ConverterState::XmlToCsv(parser, writer))),
                    Err(e) => Err(e),
                }
            },
            ConverterState::XmlToCsvTransform(mut parser, mut engine, mut writer) => {
                let ndjson = match parser.push_to_ndjson(chunk) {
                    Ok(o) => o,
                    Err(e) => {
                        return Err(e);
                    },
                };
                let res = match engine.push(ndjson.as_slice()) {
                    Ok(rr) => rr,
                    Err(e) => {
                        return Err(e);
                    },
                };
                if self.config.enable_stats {
                    self.stats.record_records(res.records);
                }
                let mut out: Vec<u8> = Vec::new();
                match ndjson_to_csv_writer(&mut writer, res.output.as_slice(), &mut out) {
                    Ok(_) => Ok((out, ConverterState::XmlToCsvTransform(parser, engine, writer))),
                    Err(e) => Err(e),
                }
            },
            ConverterState::XmlPassthrough(mut parser) => {
                let ndjson = match parser.push_to_ndjson(chunk) {
                    Ok(o) => o,
                    Err(e) => {
                        return Err(e);
                    },
                };
                self.count_ndjson_records(ndjson.as_slice());
                let mut out: Vec<u8> = Vec::new();
                crate::bytes::append_slice(&mut out, chunk);
                Ok((out, ConverterState::XmlPassthrough(parser)))
            },
            ConverterState::XmlToXmlTransform(mut parser, mut engine, mut writer) => {
                let ndjson = match parser.push_to_ndjson(chunk) {
                    Ok(o) => o,
                    Err(e) => {
                        return Err(e);
                    },
                };
                let res = match engine.push(ndjson.as_slice()) {
                    Ok(rr) => rr,
                    Err(e) => {
                        return Err(e);
                    },
                };
                if self.config.enable_stats {
                    self.stats.record_records(res.records);
                }
                let mut out: Vec<u8> = Vec::new();
                match ndjson_to_xml_writer(&mut writer, res.output.as_slice(), &mut out) {
                    Ok(_) => Ok((out, ConverterState::XmlToXmlTransform(parser, engine, writer))),
                    Err(e) => Err(e),
                }
            },
            ConverterState::JsonPassthrough(mut buf) => {
                crate::bytes::append_slice(&mut buf, chunk);
                Ok((Vec::new(), ConverterState::JsonPassthrough(buf)))
            },
            ConverterState::JsonToNdjson(mut buf) => {
                crate::bytes::append_slice(&mut buf, chunk);
                Ok((Vec::new(), ConverterState::JsonToNdjson(buf)))
            },
            ConverterState::JsonToNdjsonTransform(mut buf, engine) => {
                crate::bytes::append_slice(&mut buf, chunk);
                Ok((Vec::new(), ConverterState::JsonToNdjsonTransform(buf, engine)))
            },
            ConverterState::JsonToCsv(mut buf, writer) => {
                crate::bytes::append_slice(&mut buf, chunk);
                Ok((Vec::new(), ConverterState::JsonToCsv(buf, writer)))
            },
            ConverterState::JsonToCsvTransform(mut buf, engine, writer) => {
                crate::bytes::append_slice(&mut buf, chunk);
                Ok((Vec::new(), ConverterState::JsonToCsvTransform(buf, engine, writer)))
            },
            ConverterState::JsonToXml(mut buf, writer) => {
                crate::bytes::append_slice(&mut buf, chunk);
                Ok((Vec::new(), ConverterState::JsonToXml(buf, writer)))
            },
            ConverterState::JsonToXmlTransform(mut buf, engine, writer) => {
                crate::bytes::append_slice(&mut buf, chunk);
                Ok((Vec::new(), ConverterState::JsonToXmlTransform(buf, engine, writer)))
            },
            ConverterState::JsonToJsonTransform(mut buf, engine, nd, is_first) => {
                crate::bytes::append_slice(&mut buf, chunk);
                Ok((Vec::new(), ConverterState::JsonToJsonTransform(buf, engine, nd, is_first)))
            },
            ConverterState::NeedsDetection(b) => {
                Ok((Vec::new(), ConverterState::NeedsDetection(b)))
            },
        }
    }

    /// Count the records in a piece of NDJSON intermediate.
    fn count_ndjson_records(&mut self, ndjson: &[u8])
        ensures
            Stats::monotonic_from(old(self).spec_stats(), final(self).spec_stats()),
            final(self).config == old(self).config,
            final(self).state == old(self).state,
    {
        if self.config.enable_stats {
            let n = count_newlines(ndjson);
            self.stats.record_records(n);
        }
    }

    /// Finish the stream: flush every stage in order and close any open
    /// framing. Finishing twice is an error.
    pub fn finish(&mut self) -> (r: Result<Vec<u8>, ConvertError>)
        ensures
            Stats::monotonic_from(old(self).spec_stats(), final(self).spec_stats()),
            old(self).spec_finished() ==> r is Err && r->Err_0 is InvalidConfig,
            r is Ok ==> final(self).spec_finished(),
            match old(self).spec_state() {
                Some(st) => !(st is NeedsDetection) ==> {
                    &&& (r is Ok ==> Some(r->Ok_0@) == finish_out(st))
                    &&& (finish_out(st) is None ==> r is Err)
                    &&& (r is Err ==> (finish_out(st) is None || r->Err_0 is Utf8Error))
                },
                None => r is Err,
            },
    {
        let is_detecting: bool = match &self.state {
            Some(ConverterState::NeedsDetection(_)) => true,
            _ => false,
        };
        if is_detecting {
            let mut slot: Option<ConverterState> = None;
            std::mem::swap(&mut slot, &mut self.state);
            let buffer: Vec<u8> = match slot {
                Some(ConverterState::NeedsDetection(b)) => b,
                _ => Vec::new(),
            };
            if buffer.len() > 0 {
                let new_state = self.auto_detect_and_initialize(buffer.as_slice());
                self.state = Some(new_state);
                let mut out = match self.push_active(buffer.as_slice()) {
                    Ok(o) => o,
                    Err(e) => {
                        return Err(e);
                    },
                };
                let rest = match self.finish_active() {
                    Ok(o) => o,
                    Err(e) => {
                        return Err(e);
                    },
                };
                crate::bytes::append_slice(&mut out, rest.as_slice());
                return Ok(out);
            }
            self.state = None;
            return Ok(Vec::new());
        }
        self.finish_active()
    }

    /// Flush the active pipeline and drop the state.
    #[verifier::rlimit(100)]
    fn finish_active(&mut self) -> (r: Result<Vec<u8>, ConvertError>)
        ensures
            Stats::monotonic_from(old(self).spec_stats(), final(self).spec_stats()),
            old(self).spec_finished() ==> r is Err && r->Err_0 is InvalidConfig,
            r is Ok ==> final(self).spec_finished(),
            match old(self).spec_state() {
                Some(st) => {
                    &&& (r is Ok ==> Some(r->Ok_0@) == finish_out(st))
                    &&& (finish_out(st) is None ==> r is Err)
                    &&& (r is Err ==> (finish_out(st) is None || r->Err_0 is Utf8Error))
                },
                None => r is Err,
            },
    {
        let mut slot: Option<ConverterState> = None;
        std::mem::swap(&mut slot, &mut self.state);
        let state = match slot {
            Some(s) => s,
            None => {
                return Err(
                    ConvertError::InvalidConfig(String::from_str("Converter already finished")),
                );
            },
        };
        let r = self.run_finish(state);
        match r {
            Ok(out) => {
                if self.config.enable_stats {
                    self.stats.record_output(out.len());
                }
                Ok(out)
            },
            Err(e) => Err(e),
        }
    }

    /// Flush one pipeline to completion.
    #[verifier::rlimit(100)]
    fn run_finish(&mut self, state: ConverterState) -> (r: Result<Vec<u8>, ConvertError>)
        ensures
            Stats::monotonic_from(old(self).spec_stats(), final(self).spec_stats()),
            final(self).state == old(self).state,
            final(self).config == old(self).config,
            r is Ok ==> Some(r->Ok_0@) == finish_out(state),
            finish_out(state) is None ==> r is Err,
            r is Err ==> (finish_out(state) is None || r->Err_0 is Utf8Error),
    {
        match state {
            ConverterState::CsvPassthrough(mut parser, mut writer) => {
                let ndjson = match parser.finish() {
                    Ok(o) => o,
                    Err(e) => {
                        return Err(e);
                    },
                };
                self.count_ndjson_records(ndjson.as_slice());
                let mut out: Vec<u8> = Vec::new();
                match ndjson_to_csv_writer(&mut writer, ndjson.as_slice(), &mut out) {
                    Ok(_) => {
                        match writer.finish() {
                            Ok(tail) => {
                                crate::bytes::append_slice(&mut out, tail.as_slice());
                                Ok(out)
                            },
                            Err(e) => Err(e),
                        }
                    },
                    Err(e) => Err(e),
                }
            },
            ConverterState::CsvToNdjson(mut parser) => {
                let out = match parser.finish() {
                    Ok(o) => o,
                    Err(e) => {
                        return Err(e);
                    },
                };
                self.count_ndjson_records(out.as_slice());
                Ok(out)
            },
            ConverterState::CsvToNdjsonTransform(mut parser, mut engine) => {
                let ndjson = match parser.finish() {
                    Ok(o) => o,
                    Err(e) => {
                        return Err(e);
                    },
                };
                let mut res = match engine.push(ndjson.as_slice()) {
                    Ok(rr) => rr,
                    Err(e) => {
                        return Err(e);
                    },
                };
                let res2 = match engine.finish() {
                    Ok(rr) => rr,
                    Err(e) => {
                        return Err(e);
                    },
                };
                if self.config.enable_stats {
                    self.stats.record_records(res.records);
                    self.stats.record_records(res2.records);
                }
                crate::bytes::append_slice(&mut res.output, res2.output.as_slice());
                Ok(res.output)
            },
            ConverterState::CsvToJson(mut parser, mut nd, is_first) => {
                let ndjson = match parser.finish() {
                    Ok(o) => o,
                    Err(e) => {
                        return Err(e);
                    },
                };
                self.count_ndjson_records(ndjson.as_slice());
                match nd.to_json_array(ndjson.as_slice(), is_first, true) {
                    Ok(out) => Ok(out),
                    Err(e) => Err(e),
                }
            },
            ConverterState::CsvToJsonTransform(mut parser, mut engine, mut nd, is_first) => {
                let ndjson = match parser.finish() {
                    Ok(o) => o,
                    Err(e) => {
                        return Err(e);
                    },
                };
                let mut res = match engine.push(ndjson.as_slice()) {
                    Ok(rr) => rr,
                    Err(e) => {
                        return Err(e);
                    },
                };
                let res2 = match engine.finish() {
                    Ok(rr) => rr,
                    Err(e) => {
                        return Err(e);
                    },
                };
                if self.config.enable_stats {
                    self.stats.record_records(res.records);
                    self.stats.record_records(res2.records);
                }
                crate::bytes::append_slice(&mut res.output, res2.output.as_slice());
                match nd.to_json_array(res.output.as_slice(), is_first, true) {
                    Ok(out) => Ok(out),
                    Err(e) => Err(e),
                }
            },
            ConverterState::CsvToXml(mut parser, mut writer) => {
                let ndjson = match parser.finish() {
                    Ok(o) => o,
                    Err(e) => {
                        return Err(e);
                    },
                };
                self.count_ndjson_records(ndjson.as_slice());
                let mut out: Vec<u8> = Vec::new();
                match ndjson_to_xml_writer(&mut writer, ndjson.as_slice(), &mut out) {
                    Ok(_) => {
                        match writer.finish() {
                            Ok(tail) => {
                                crate::bytes::append_slice(&mut out, tail.as_slice());
                                Ok(out)
                            },
                            Err(e) => Err(e),
                        }
                    },
                    Err(e) => Err(e),
                }
            },
            ConverterState::CsvToXmlTransform(mut parser, mut engine, mut writer) => {
                let ndjson = match parser.finish() {
                    Ok(o) => o,
                    Err(e) => {
                        return Err(e);
                    },
                };
                let mut res = match engine.push(ndjson.as_slice()) {
                    Ok(rr) => rr,
                    Err(e) => {
                        return Err(e);
                    },
                };
                let res2 = match engine.finish() {
                    Ok(rr) => rr,
                    Err(e) => {
                        return Err(e);
                    },
                };
                if self.config.enable_stats {
                    self.stats.record_records(res.records);
                    self.stats.record_records(res2.records);
                }
                crate::bytes::append_slice(&mut res.output, res2.output.as_slice());
                let mut out: Vec<u8> = Vec::new();
                match ndjson_to_xml_writer(&mut writer, res.output.as_slice(), &mut out) {
                    Ok(_) => {
                        match writer.finish() {
                            Ok(tail) => {
                                crate::bytes::append_slice(&mut out, tail.as_slice());
                                Ok(out)
                            },
                            Err(e) => Err(e),
                        }
                    },
                    Err(e) => Err(e),
                }
            },
            ConverterState::CsvToCsvTransform(mut parser, mut engine, mut writer) => {
                let ndjson = match parser.finish() {
                    Ok(o) => o,
                    Err(e) => {
                        return Err(e);
                    },
                };
                let mut res = match engine.push(ndjson.as_slice()) {
                    Ok(rr) => rr,
                    Err(e) => {
                        return Err(e);
                    },
                };
                let res2 = match engine.finish() {
                    Ok(rr) => rr,
                    Err(e) => {
                        return Err(e);
                    },
                };
                if self.config.enable_stats {
                    self.stats.record_records(res.records);
                    self.stats.record_records(res2.records);
                }
                crate::bytes::append_slice(&mut res.output, res2.output.as_slice());
                let mut out: Vec<u8> = Vec::new();
                match ndjson_to_csv_writer(&mut writer, res.output.as_slice(), &mut out) {
                    Ok(_) => {
                        match writer.finish() {
                            Ok(tail) => {
                                crate::bytes::append_slice(&mut out, tail.as_slice());
                                Ok(out)
                            },
                            Err(e) => Err(e),
                        }
                    },
                    Err(e) => Err(e),
                }
            },
            ConverterState::NdjsonPassthrough(mut parser) => {
                match parser.finish() {
                    Ok(out) => Ok(out),
                    Err(e) => Err(e),
                }
            },
            ConverterState::NdjsonTransform(mut engine) => {
                match engine.finish() {
                    Ok(res) => {
                        if self.config.enable_stats {
                            self.stats.record_records(res.records);
                        }
                        Ok(res.output)
                    },
                    Err(e) => Err(e),
                }
            },
            ConverterState::NdjsonToJson(mut parser, is_first) => {
                let empty: [u8; 0] = [];
                match parser.to_json_array(&empty, is_first, true) {
                    Ok(out) => Ok(out),
                    Err(e) => Err(e),
                }
            },
            ConverterState::NdjsonToJsonTransform(mut engine, mut parser, is_first) => {
                let res = match engine.finish() {
                    Ok(rr) => rr,
                    Err(e) => {
                        return Err(e);
                    },
                };
                if self.config.enable_stats {
                    self.stats.record_records(res.records);
                }
                match parser.to_json_array(res.output.as_slice(), is_first, true) {
                    Ok(out) => Ok(out),
                    Err(e) => Err(e),
                }
            },
            ConverterState::NdjsonToCsv(mut parser, mut writer) => {
                let ndjson = match parser.finish() {
                    Ok(o) => o,
                    Err(e) => {
                        return Err(e);
                    },
                };
                let mut out: Vec<u8> = Vec::new();
                match ndjson_to_csv_writer(&mut writer, ndjson.as_slice(), &mut out) {
                    Ok(_) => {
                        match writer.finish() {
                            Ok(tail) => {
                                crate::bytes::append_slice(&mut out, tail.as_slice());
                                Ok(out)
                            },
                            Err(e) => Err(e),
                        }
                    },
                    Err(e) => Err(e),
                }
            },
            ConverterState::NdjsonToCsvTransform(mut engine, mut writer) => {
                let res = match engine.finish() {
                    Ok(rr) => rr,
                    Err(e) => {
                        return Err(e);
                    },
                };
                if self.config.enable_stats {
                    self.stats.record_records(res.records);
                }
                let mut out: Vec<u8> = Vec::new();
                match ndjson_to_csv_writer(&mut writer, res.output.as_slice(), &mut out) {
                    Ok(_) => {
                        match writer.finish() {
                            Ok(tail) => {
                                crate::bytes::append_slice(&mut out, tail.as_slice());
                                Ok(out)
                            },
                            Err(e) => Err(e),
                        }
                    },
                    Err(e) => Err(e),
                }
            },
            ConverterState::NdjsonToXml(mut parser, mut writer) => {
                let ndjson = match parser.finish() {
                    Ok(o) => o,
                    Err(e) => {
                        return Err(e);
                    },
                };
                let mut out: Vec<u8> = Vec::new();
                match ndjson_to_xml_writer(&mut writer, ndjson.as_slice(), &mut out) {
                    Ok(_) => {
                        match writer.finish() {
                            Ok(tail) => {
                                crate::bytes::append_slice(&mut out, tail.as_slice());
                                Ok(out)
                            },
                            Err(e) => Err(e),
                        }
                    },
                    Err(e) => Err(e),
                }
            },
            ConverterState::NdjsonToXmlTransform(mut engine, mut writer) => {
                let res = match engine.finish() {
                    Ok(rr) => rr,
                    Err(e) => {
                        return Err(e);
                    },
                };
                if self.config.enable_stats {
                    self.stats.record_records(res.records);
                }
                let mut out: Vec<u8> = Vec::new();
                match ndjson_to_xml_writer(&mut writer, res.output.as_slice(), &mut out) {
                    Ok(_) => {
                        match writer.finish() {
                            Ok(tail) => {
                                crate::bytes::append_slice(&mut out, tail.as_slice());
                                Ok(out)
                            },
                            Err(e) => Err(e),
                        }
                    },
                    Err(e) => Err(e),
                }
            },
            ConverterState::XmlToNdjson(mut parser) => {
                let out = match parser.finish() {
                    Ok(o) => o,
                    Err(e) => {
                        return Err(e);
                    },
                };
                self.count_ndjson_records(out.as_slice());
                Ok(out)
            },
            ConverterState::XmlToNdjsonTransform(mut parser, mut engine) => {
                let ndjson = match parser.finish() {
                    Ok(o) => o,
                    Err(e) => {
                        return Err(e);
                    },
                };
                let mut res = match engine.push(ndjson.as_slice()) {
                    Ok(rr) => rr,
                    Err(e) => {
                        return Err(e);
                    },
                };
                let res2 = match engine.finish() {
                    Ok(rr) => rr,
                    Err(e) => {
                        return Err(e);
                    },
                };
                if self.config.enable_stats {
                    self.stats.record_records(res.records);
                    self.stats.record_records(res2.records);
                }
                crate::bytes::append_slice(&mut res.output, res2.output.as_slice());
                Ok(res.output)
            },
            ConverterState::XmlToJson(mut parser, mut nd, is_first) => {
                let ndjson = match parser.finish() {
                    Ok(o) => o,
                    Err(e) => {
                        return Err(e);
                    },
                };
                self.count_ndjson_records(ndjson.as_slice());
                match nd.to_json_array(ndjson.as_slice(), is_first, true) {
                    Ok(out) => Ok(out),
                    Err(e) => Err(e),
                }
            },
            ConverterState::XmlToJsonTransform(mut parser, mut engine, mut nd, is_first) => {
                let ndjson = match parser.finish() {
                    Ok(o) => o,
                    Err(e) => {
                        return Err(e);
                    },
                };
                let mut res = match engine.push(ndjson.as_slice()) {
                    Ok(rr) => rr,
                    Err(e) => {
                        return Err(e);
                    },
                };
                let res2 = match engine.finish() {
                    Ok(rr) => rr,
                    Err(e) => {
                        return Err(e);
                    },
                };
                if self.config.enable_stats {
                    self.stats.record_records(res.records);
                    self.stats.record_records(res2.records);
                }
                crate::bytes::append_slice(&mut res.output, res2.output.as_slice());
                match nd.to_json_array(res.output.as_slice(), is_first, true) {
                    Ok(out) => Ok(out),
                    Err(e) => Err(e),
                }
            },
            ConverterState::XmlToCsv(mut parser, mut writer) => {
                let ndjson = match parser.finish() {
                    Ok(o) => o,
                    Err(e) => {
                        return Err(e);
                    },
                };
                self.count_ndjson_records(ndjson.as_slice());
                let mut out: Vec<u8> = Vec::new();
                match ndjson_to_csv_writer(&mut writer, ndjson.as_slice(), &mut out) {
                    Ok(_) => {
                        match writer.finish() {
                            Ok(tail) => {
                                crate::bytes::append_slice(&mut out, tail.as_slice());
                                Ok(out)
                            },
                            Err(e) => Err(e),
                        }
                    },
                    Err(e) => Err(e),
                }
            },
            ConverterState::XmlToCsvTransform(mut parser, mut engine, mut writer) => {
                let ndjson = match parser.finish() {
                    Ok(o) => o,
                    Err(e) => {
                        return Err(e);
                    },
                };
                let mut res = match engine.push(ndjson.as_slice()) {
                    Ok(rr) => rr,
                    Err(e) => {
                        return Err(e);
                    },
                };
                let res2 = match engine.finish() {
                    Ok(rr) => rr,
                    Err(e) => {
                        return Err(e);
                    },
                };
                if self.config.enable_stats {
                    self.stats.record_records(res.records);
                    self.stats.record_records(res2.records);
                }
                crate::bytes::append_slice(&mut res.output, res2.output.as_slice());
                let mut out: Vec<u8> = Vec::new();
                match ndjson_to_csv_writer(&mut writer, res.output.as_slice(), &mut out) {
                    Ok(_) => {
                        match writer.finish() {
                            Ok(tail) => {
                                crate::bytes::append_slice(&mut out, tail.as_slice());
                                Ok(out)
                            },
                            Err(e) => Err(e),
                        }
                    },
                    Err(e) => Err(e),
                }
            },
            ConverterState::XmlPassthrough(mut parser) => {
                match parser.finish() {
                    Ok(_) => Ok(Vec::new()),
                    Err(e) => Err(e),
                }
            },
            ConverterState::XmlToXmlTransform(mut parser, mut engine, mut writer) => {
                let ndjson = match parser.finish() {
                    Ok(o) => o,
                    Err(e) => {
                        return Err(e);
                    },
                };
                let mut res = match engine.push(ndjson.as_slice()) {
                    Ok(rr) => rr,
                    Err(e) => {
                        return Err(e);
                    },
                };
                let res2 = match engine.finish() {
                    Ok(rr) => rr,
                    Err(e) => {
                        return Err(e);
                    },
                };
                if self.config.enable_stats {
                    self.stats.record_records(res.records);
                    self.stats.record_records(res2.records);
                }
                crate::bytes::append_slice(&mut res.output, res2.output.as_slice());
                let mut out: Vec<u8> = Vec::new();
                match ndjson_to_xml_writer(&mut writer, res.output.as_slice(), &mut out) {
                    Ok(_) => {
                        match writer.finish() {
                            Ok(tail) => {
                                crate::bytes::append_slice(&mut out, tail.as_slice());
                                Ok(out)
                            },
                            Err(e) => Err(e),
                        }
                    },
                    Err(e) => Err(e),
                }
            },
            ConverterState::JsonPassthrough(buf) => {
                match crate::json::parse_json(buf.as_slice()) {
                    Some(v) => {
                        let n: usize = match &v {
                            JsonValue::Arr(xs) => xs.len(),
                            _ => 1,
                        };
                        if self.config.enable_stats {
                            self.stats.record_records(n);
                        }
                    },
                    None => {},
                }
                Ok(buf)
            },
            ConverterState::JsonToNdjson(buf) => {
                match crate::json::parse_json(buf.as_slice()) {
                    Some(v) => {
                        let (out, n) = json_value_to_ndjson(&v);
                        if self.config.enable_stats {
                            self.stats.record_records(n);
                        }
                        Ok(out)
                    },
                    None => Err(
                        ConvertError::JsonParse(String::from_str("invalid JSON document")),
                    ),
                }
            },
            ConverterState::JsonToNdjsonTransform(buf, mut engine) => {
                match crate::json::parse_json(buf.as_slice()) {
                    Some(v) => {
                        let (ndjson, _n) = json_value_to_ndjson(&v);
                        let mut res = match engine.push(ndjson.as_slice()) {
                            Ok(rr) => rr,
                            Err(e) => {
                                return Err(e);
                            },
                        };
                        let res2 = match engine.finish() {
                            Ok(rr) => rr,
                            Err(e) => {
                                return Err(e);
                            },
                        };
                        if self.config.enable_stats {
                            self.stats.record_records(res.records);
                            self.stats.record_records(res2.records);
                        }
                        crate::bytes::append_slice(&mut res.output, res2.output.as_slice());
                        Ok(res.output)
                    },
                    None => Err(
                        ConvertError::JsonParse(String::from_str("invalid JSON document")),
                    ),
                }
            },
            ConverterState::JsonToCsv(buf, mut writer) => {
                match crate::json::parse_json(buf.as_slice()) {
                    Some(v) => {
                        let (ndjson, n) = json_value_to_ndjson(&v);
                        if self.config.enable_stats {
                            self.stats.record_records(n);
                        }
                        let mut out: Vec<u8> = Vec::new();
                        match ndjson_to_csv_writer(&mut writer, ndjson.as_slice(), &mut out) {
                            Ok(_) => {
                                match writer.finish() {
                                    Ok(tail) => {
                                        crate::bytes::append_slice(&mut out, tail.as_slice());
                                        Ok(out)
                                    },
                                    Err(e) => Err(e),
                                }
                            },
                            Err(e) => Err(e),
                        }
                    },
                    None => Err(
                        ConvertError::JsonParse(String::from_str("invalid JSON document")),
                    ),
                }
            },
            ConverterState::JsonToCsvTransform(buf, mut engine, mut writer) => {
                match crate::json::parse_json(buf.as_slice()) {
                    Some(v) => {
                        let (ndjson, _n) = json_value_to_ndjson(&v);
                        let mut res = match engine.push(ndjson.as_slice()) {
                            Ok(rr) => rr,
                            Err(e) => {
                                return Err(e);
                            },
                        };
                        let res2 = match engine.finish() {
                            Ok(rr) => rr,
                            Err(e) => {
                                return Err(e);
                            },
                        };
                        if self.config.enable_stats {
                            self.stats.record_records(res.records);
                            self.stats.record_records(res2.records);
                        }
                        crate::bytes::append_slice(&mut res.output, res2.output.as_slice());
                        let mut out: Vec<u8> = Vec::new();
                        match ndjson_to_csv_writer(&mut writer, res.output.as_slice(), &mut out) {
                            Ok(_) => {
                                match writer.finish() {
                                    Ok(tail) => {
                                        crate::bytes::append_slice(&mut out, tail.as_slice());
                                        Ok(out)
                                    },
                                    Err(e) => Err(e),
                                }
                            },
                            Err(e) => Err(e),
                        }
                    },
                    None => Err(
                        ConvertError::JsonParse(String::from_str("invalid JSON document")),
                    ),
                }
            },
            ConverterState::JsonToXml(buf, mut writer) => {
                match crate::json::parse_json(buf.as_slice()) {
                    Some(v) => {
                        let (ndjson, n) = json_value_to_ndjson(&v);
                        if self.config.enable_stats {
                            self.stats.record_records(n);
                        }
                        let mut out: Vec<u8> = Vec::new();
                        match ndjson_to_xml_writer(&mut writer, ndjson.as_slice(), &mut out) {
                            Ok(_) => {
                                match writer.finish() {
                                    Ok(tail) => {
                                        crate::bytes::append_slice(&mut out, tail.as_slice());
                                        Ok(out)
                                    },
                                    Err(e) => Err(e),
                                }
                            },
                            Err(e) => Err(e),
                        }
                    },
                    None => Err(
                        ConvertError::JsonParse(String::from_str("invalid JSON document")),
                    ),
                }
            },
            ConverterState::JsonToXmlTransform(buf, mut engine, mut writer) => {
                match crate::json::parse_json(buf.as_slice()) {
                    Some(v) => {
                        let (ndjson, _n) = json_value_to_ndjson(&v);
                        let mut res = match engine.push(ndjson.as_slice()) {
                            Ok(rr) => rr,
                            Err(e) => {
                                return Err(e);
                            },
                        };
                        let res2 = match engine.finish() {
                            Ok(rr) => rr,
                            Err(e) => {
                                return Err(e);
                            },
                        };
                        if self.config.enable_stats {
                            self.stats.record_records(res.records);
                            self.stats.record_records(res2.records);
                        }
                        crate::bytes::append_slice(&mut res.output, res2.output.as_slice());
                        let mut out: Vec<u8> = Vec::new();
                        match ndjson_to_xml_writer(&mut writer, res.output.as_slice(), &mut out) {
                            Ok(_) => {
                                match writer.finish() {
                                    Ok(tail) => {
                                        crate::bytes::append_slice(&mut out, tail.as_slice());
                                        Ok(out)
                                    },
                                    Err(e) => Err(e),
                                }
                            },
                            Err(e) => Err(e),
                        }
                    },
                    None => Err(
                        ConvertError::JsonParse(String::from_str("invalid JSON document")),
                    ),
                }
            },
            ConverterState::JsonToJsonTransform(buf, mut engine, mut nd, is_first) => {
                match crate::json::parse_json(buf.as_slice()) {
                    Some(v) => {
                        let (ndjson, _n) = json_value_to_ndjson(&v);
                        let mut res = match engine.push(ndjson.as_slice()) {
                            Ok(rr) => rr,
                            Err(e) => {
                                return Err(e);
                            },
                        };
                        let res2 = match engine.finish() {
                            Ok(rr) => rr,
                            Err(e) => {
                                return Err(e);
                            },
                        };
                        if self.config.enable_stats {
                            self.stats.record_records(res.records);
                            self.stats.record_records(res2.records);
                        }
                        crate::bytes::append_slice(&mut res.output, res2.output.as_slice());
                        match nd.to_json_array(res.output.as_slice(), is_first, true) {
                            Ok(out) => Ok(out),
                            Err(e) => Err(e),
                        }
                    },
                    None => Err(
                        ConvertError::JsonParse(String::from_str("invalid JSON document")),
                    ),
                }
            },
            ConverterState::NeedsDetection(_) => Ok(Vec::new()),
        }
    }

    /// The running statistics.
    pub fn get_stats(&self) -> (r: Stats)
        ensures
            r == self.spec_stats(),
    {
        self.stats
    }
}

} // verus!