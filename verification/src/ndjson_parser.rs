//! The NDJSON parser: splits a chunked byte stream into lines, validates
//! each complete line as JSON, and passes the valid ones through. A line
//! that is blank or fails validation is skipped, never aborting the
//! stream. The unfinished last line is carried across calls, so output
//! depends only on the concatenation of the chunks — never on where
//! they were cut.
use vstd::prelude::*;
use vstd::string::StringExecFns;
use crate::bytes::{
    all_whitespace, all_ws, append_slice, copy_range, find_byte, find_from, lemma_find_skip,
    lemma_stream_append, lemma_stream_no_nl, lemma_stream_step, lemma_stream_tail_no_nl,
    stream_lines, stream_tail,
};
use crate::error::ConvertError;
use crate::json::is_valid_json;
use crate::json_parser::{JsonParser, quick_valid};

verus! {

/// A line the NDJSON pass drops silently: empty or all whitespace, or
/// one that is not valid JSON (whether the quick heuristic or the full
/// parse rejects it).
pub open spec fn nd_skip(line: Seq<u8>) -> bool {
    line.len() == 0 || all_ws(line) || !quick_valid(line) || !is_valid_json(line)
}

/// What one line contributes to the output: itself plus a newline when
/// kept, nothing when skipped.
pub open spec fn nd_line_out(line: Seq<u8>) -> Seq<u8> {
    if nd_skip(line) {
        Seq::empty()
    } else {
        line + seq![10u8]
    }
}

/// The validated pass-through of a list of lines.
pub open spec fn nd_out(lines: Seq<Seq<u8>>) -> Seq<u8>
    decreases lines.len(),
{
    if lines.len() == 0 {
        Seq::empty()
    } else {
        nd_out(lines.drop_last()) + nd_line_out(lines.last())
    }
}

pub proof fn lemma_nd_out_push(lines: Seq<Seq<u8>>, l: Seq<u8>)
    ensures
        nd_out(lines.push(l)) == nd_out(lines) + nd_line_out(l),
{
    assert(lines.push(l).drop_last() =~= lines);
    assert(lines.push(l).last() == l);
}

pub proof fn lemma_nd_out_append(a: Seq<Seq<u8>>, b: Seq<Seq<u8>>)
    ensures
        nd_out(a + b) == nd_out(a) + nd_out(b),
    decreases b.len(),
{
    if b.len() == 0 {
        assert(a + b =~= a);
        assert(nd_out(a) + nd_out(b) =~= nd_out(a));
    } else {
        assert((a + b).drop_last() =~= a + b.drop_last());
        assert((a + b).last() == b.last());
        lemma_nd_out_append(a, b.drop_last());
        assert(nd_out(a) + nd_out(b.drop_last()) + nd_line_out(b.last()) =~= nd_out(a) + (nd_out(
            b.drop_last(),
        ) + nd_line_out(b.last())));
    }
}

/// The whole-stream output of the NDJSON pass: every complete line,
/// then the unfinished tail flushed as a final line.
pub open spec fn ndjson_total_output(s: Seq<u8>) -> Seq<u8> {
    nd_out(stream_lines(s)) + nd_line_out(stream_tail(s))
}

/// Chunk-boundary independence, one step: pushing `c` after having
/// consumed `s` contributes exactly what extending the stream does.
/// Folded over any partition of a stream, the pushes and the final flush
/// therefore reproduce `ndjson_total_output` of the concatenation,
/// wherever the boundaries fell.
pub proof fn lemma_ndjson_chunk_step(s: Seq<u8>, c: Seq<u8>)
    ensures
        nd_out(stream_lines(s + c)) == nd_out(stream_lines(s)) + nd_out(
            stream_lines(stream_tail(s) + c),
        ),
        stream_tail(s + c) == stream_tail(stream_tail(s) + c),
{
    lemma_stream_append(s, c);
    lemma_nd_out_append(stream_lines(s), stream_lines(stream_tail(s) + c));
}

/// The concatenation of a list of chunks.
pub open spec fn cat_chunks(chunks: Seq<Seq<u8>>) -> Seq<u8>
    decreases chunks.len(),
{
    if chunks.len() == 0 {
        Seq::empty()
    } else {
        chunks[0] + cat_chunks(chunks.drop_first())
    }
}

/// The outputs of pushing each chunk in turn after a stream `prior`,
/// followed by the final flush.
pub open spec fn nd_run_outputs(prior: Seq<u8>, chunks: Seq<Seq<u8>>) -> Seq<u8>
    decreases chunks.len(),
{
    if chunks.len() == 0 {
        nd_line_out(stream_tail(prior))
    } else {
        nd_out(stream_lines(stream_tail(prior) + chunks[0])) + nd_run_outputs(
            prior + chunks[0],
            chunks.drop_first(),
        )
    }
}

proof fn lemma_nd_run_general(prior: Seq<u8>, chunks: Seq<Seq<u8>>)
    ensures
        nd_out(stream_lines(prior)) + nd_run_outputs(prior, chunks) == ndjson_total_output(
            prior + cat_chunks(chunks),
        ),
    decreases chunks.len(),
{
    if chunks.len() == 0 {
        assert(prior + cat_chunks(chunks) =~= prior);
    } else {
        lemma_ndjson_chunk_step(prior, chunks[0]);
        lemma_nd_run_general(prior + chunks[0], chunks.drop_first());
        assert(prior + chunks[0] + cat_chunks(chunks.drop_first()) =~= prior + cat_chunks(chunks));
        assert(nd_out(stream_lines(prior)) + (nd_out(stream_lines(stream_tail(prior) + chunks[0]))
            + nd_run_outputs(prior + chunks[0], chunks.drop_first())) =~= (nd_out(
            stream_lines(prior),
        ) + nd_out(stream_lines(stream_tail(prior) + chunks[0]))) + nd_run_outputs(
            prior + chunks[0],
            chunks.drop_first(),
        ));
    }
}

/// Chunk-boundary independence of the NDJSON pass: for any way of
/// cutting a byte stream into chunks, the concatenated outputs of the
/// pushes and the final flush equal the whole-stream output of the
/// concatenation. Two partitions of the same stream therefore produce
/// the same bytes.
pub proof fn lemma_ndjson_chunk_boundary_independence(chunks1: Seq<Seq<u8>>, chunks2: Seq<Seq<u8>>)
    requires
        cat_chunks(chunks1) == cat_chunks(chunks2),
    ensures
        nd_run_outputs(Seq::empty(), chunks1) == nd_run_outputs(Seq::empty(), chunks2),
        nd_run_outputs(Seq::empty(), chunks1) == ndjson_total_output(cat_chunks(chunks1)),
{
    lemma_nd_run_general(Seq::empty(), chunks1);
    lemma_nd_run_general(Seq::empty(), chunks2);
    assert(Seq::<u8>::empty() + cat_chunks(chunks1) =~= cat_chunks(chunks1));
    assert(Seq::<u8>::empty() + cat_chunks(chunks2) =~= cat_chunks(chunks2));
    assert(stream_lines(Seq::<u8>::empty()) =~= Seq::<Seq<u8>>::empty());
}

/// A line the JSON-array writer drops: empty or all whitespace.
pub open spec fn ja_skip(line: Seq<u8>) -> bool {
    line.len() == 0 || all_ws(line)
}

/// Fold the lines into a comma-separated item list. `any0` says whether
/// an item was already written before these lines; the result carries
/// the bytes written and whether any item has been written after them.
pub open spec fn ja_fold(lines: Seq<Seq<u8>>, any0: bool) -> (Seq<u8>, bool)
    decreases lines.len(),
{
    if lines.len() == 0 {
        (Seq::empty(), any0)
    } else {
        let p = ja_fold(lines.drop_last(), any0);
        if ja_skip(lines.last()) {
            p
        } else {
            (
                p.0 + (if p.1 {
                    seq![44u8]
                } else {
                    Seq::empty()
                }) + lines.last(),
                true,
            )
        }
    }
}

pub proof fn lemma_ja_fold_push(lines: Seq<Seq<u8>>, l: Seq<u8>, any0: bool)
    ensures
        ja_fold(lines.push(l), any0) == (if ja_skip(l) {
            ja_fold(lines, any0)
        } else {
            (
                ja_fold(lines, any0).0 + (if ja_fold(lines, any0).1 {
                    seq![44u8]
                } else {
                    Seq::<u8>::empty()
                }) + l,
                true,
            )
        }),
{
    assert(lines.push(l).drop_last() =~= lines);
    assert(lines.push(l).last() == l);
}

pub proof fn lemma_ja_fold_append(a: Seq<Seq<u8>>, b: Seq<Seq<u8>>, any0: bool)
    ensures
        ja_fold(a + b, any0).0 == ja_fold(a, any0).0 + ja_fold(b, ja_fold(a, any0).1).0,
        ja_fold(a + b, any0).1 == ja_fold(b, ja_fold(a, any0).1).1,
    decreases b.len(),
{
    if b.len() == 0 {
        assert(a + b =~= a);
        assert(ja_fold(a, any0).0 + ja_fold(b, ja_fold(a, any0).1).0 =~= ja_fold(a, any0).0);
    } else {
        assert((a + b).drop_last() =~= a + b.drop_last());
        assert((a + b).last() == b.last());
        lemma_ja_fold_append(a, b.drop_last(), any0);
        if !ja_skip(b.last()) {
            assert(ja_fold(a, any0).0 + (ja_fold(b.drop_last(), ja_fold(a, any0).1).0 + (if ja_fold(
                b.drop_last(),
                ja_fold(a, any0).1,
            ).1 {
                seq![44u8]
            } else {
                Seq::<u8>::empty()
            }) + b.last()) =~= (ja_fold(a, any0).0 + ja_fold(b.drop_last(), ja_fold(a, any0).1).0)
                + (if ja_fold(b.drop_last(), ja_fold(a, any0).1).1 {
                seq![44u8]
            } else {
                Seq::<u8>::empty()
            }) + b.last());
        }
    }
}

/// The records a stream contributes to a JSON array: its complete lines
/// and its unfinished tail, the skippable ones dropped.
pub open spec fn ja_kept(lines: Seq<Seq<u8>>) -> Seq<Seq<u8>>
    decreases lines.len(),
{
    if lines.len() == 0 {
        Seq::empty()
    } else {
        ja_kept(lines.drop_last()) + (if ja_skip(lines.last()) {
            Seq::empty()
        } else {
            seq![lines.last()]
        })
    }
}

/// Records joined by single commas: empty for none, and one comma
/// between each adjacent pair — `n` records carry exactly `n - 1`
/// commas between them.
pub open spec fn comma_join(ls: Seq<Seq<u8>>) -> Seq<u8>
    decreases ls.len(),
{
    if ls.len() == 0 {
        Seq::empty()
    } else if ls.len() == 1 {
        ls[0]
    } else {
        comma_join(ls.drop_last()) + seq![44u8] + ls.last()
    }
}

/// The fold equals the comma-join of the kept lines, with a leading
/// comma when items were already written.
pub proof fn lemma_ja_fold_join(lines: Seq<Seq<u8>>, any0: bool)
    ensures
        ja_fold(lines, any0).1 == (any0 || ja_kept(lines).len() > 0),
        ja_fold(lines, any0).0 == (if any0 && ja_kept(lines).len() > 0 {
            seq![44u8] + comma_join(ja_kept(lines))
        } else {
            comma_join(ja_kept(lines))
        }),
    decreases lines.len(),
{
    if lines.len() > 0 {
        lemma_ja_fold_join(lines.drop_last(), any0);
        if !ja_skip(lines.last()) {
            let k = ja_kept(lines.drop_last());
            assert(ja_kept(lines) =~= k.push(lines.last()));
            if k.len() > 0 {
                assert(ja_kept(lines).drop_last() =~= k);
                assert(ja_kept(lines).last() == lines.last());
                if any0 {
                    assert(seq![44u8] + comma_join(k) + seq![44u8] + lines.last() =~= seq![44u8]
                        + (comma_join(k) + seq![44u8] + lines.last()));
                }
            } else {
                assert(comma_join(ja_kept(lines)) == lines.last());
                if any0 {
                    assert(Seq::<u8>::empty() + seq![44u8] + lines.last() =~= seq![44u8]
                        + lines.last());
                } else {
                    assert(Seq::<u8>::empty() + Seq::<u8>::empty() + lines.last() =~= lines.last());
                }
            }
        } else {
            assert(ja_kept(lines) =~= ja_kept(lines.drop_last()));
        }
    }
}

/// The whole-stream JSON array document for a byte stream `s`: one `[`,
/// the records joined by commas, one `]`.
pub open spec fn json_array_doc(s: Seq<u8>) -> Seq<u8> {
    seq![91u8] + ja_fold(stream_lines(s) + seq![stream_tail(s)], false).0 + seq![93u8]
}

/// JSON framing: the document opens with `[`, closes with `]`, and its
/// body is exactly the records (non-blank lines of the stream) joined by
/// single commas — `n` records, `n - 1` separating commas, none when
/// the stream holds no record.
pub proof fn lemma_json_framing(s: Seq<u8>)
    ensures
        json_array_doc(s).len() >= 2,
        json_array_doc(s)[0] == 91u8,
        json_array_doc(s).last() == 93u8,
        json_array_doc(s) == seq![91u8] + comma_join(
            ja_kept(stream_lines(s) + seq![stream_tail(s)]),
        ) + seq![93u8],
        ja_kept(stream_lines(s) + seq![stream_tail(s)]).len() == 0 ==> json_array_doc(s) =~= seq![
            91u8,
            93u8,
        ],
{
    lemma_ja_fold_join(stream_lines(s) + seq![stream_tail(s)], false);
}

/// Streaming NDJSON validator and pass-through.
pub struct NdjsonParser {
    json_parser: JsonParser,
    partial_line: Vec<u8>,
    chunk_target_bytes: usize,
    items_written: usize,
}

impl NdjsonParser {
    /// The carried unfinished line.
    pub closed spec fn spec_partial(&self) -> Seq<u8> {
        self.partial_line@
    }

    /// How many items the JSON-array writer has emitted so far.
    pub closed spec fn spec_items(&self) -> nat {
        self.items_written as nat
    }

    pub fn new(chunk_target_bytes: usize) -> (r: NdjsonParser)
        ensures
            r.spec_partial() == Seq::<u8>::empty(),
            r.spec_items() == 0,
    {
        NdjsonParser {
            json_parser: JsonParser::new(),
            partial_line: Vec::new(),
            chunk_target_bytes,
            items_written: 0,
        }
    }

    /// Validate and pass through the complete lines that `chunk`
    /// completes; carry the unfinished tail. The output is what the
    /// whole-stream pass contributes for exactly these lines; a line
    /// that fails validation is skipped, never an error.
    #[verifier::rlimit(60)]
    pub fn push(&mut self, chunk: &[u8]) -> (r: Result<Vec<u8>, ConvertError>)
        ensures
            r is Ok,
            r->Ok_0@ == nd_out(stream_lines(old(self).spec_partial() + chunk@)),
            final(self).spec_partial() == stream_tail(old(self).spec_partial() + chunk@),
            final(self).spec_items() == old(self).spec_items(),
    {
        let ghost tail0 = old(self).partial_line@;
        let mut data: Vec<u8> = Vec::new();
        std::mem::swap(&mut data, &mut self.partial_line);
        append_slice(&mut data, chunk);
        let ghost full = data@;
        assert(full == tail0 + chunk@);

        let mut out: Vec<u8> = Vec::new();
        let mut start: usize = 0;
        let data_len = data.len();
        let ghost mut done: Seq<Seq<u8>> = Seq::empty();
        proof {
            assert(full.skip(0) =~= full);
            assert(nd_out(done) =~= Seq::<u8>::empty());
        }
        loop
            invariant
                data@ == full,
                full.len() == data_len,
                full == old(self).spec_partial() + chunk@,
                self.items_written == old(self).items_written,
                start <= full.len(),
                stream_lines(full) == done + stream_lines(full.skip(start as int)),
                stream_tail(full) == stream_tail(full.skip(start as int)),
                out@ == nd_out(done),
            decreases full.len() - start,
        {
            proof {
                lemma_find_skip(full, 10, start as int);
                crate::bytes::lemma_find_from(full, 10, start as int);
            }
            match find_byte(data.as_slice(), start, 10) {
                Some(p) => {
                    let ghost rest = full.skip(start as int);
                    proof {
                        lemma_stream_step(rest, p - start);
                        assert(rest.take(p - start) =~= full.subrange(start as int, p as int));
                        assert(rest.skip(p - start + 1) =~= full.skip(p + 1 as int));
                    }
                    let line = copy_range(data.as_slice(), start, p);
                    let keep: bool = if line.len() == 0 || all_whitespace(line.as_slice()) {
                        false
                    } else if !self.json_parser.quick_validate(line.as_slice()) {
                        false
                    } else {
                        match self.json_parser.parse_and_validate(line.as_slice()) {
                            Ok(_) => true,
                            Err(_) => false,
                        }
                    };
                    if keep {
                        append_slice(&mut out, line.as_slice());
                        out.push(10);
                        proof {
                            assert(out@ =~= nd_out(done) + (line@ + seq![10u8]));
                        }
                    }
                    proof {
                        lemma_nd_out_push(done, line@);
                        done = done.push(line@);
                        assert(stream_lines(full) =~= done + stream_lines(full.skip(p + 1 as int)));
                    }
                    start = p + 1;
                },
                None => {
                    proof {
                        lemma_stream_no_nl(full.skip(start as int));
                        assert(stream_lines(full) =~= done);
                    }
                    let tail = copy_range(data.as_slice(), start, data.len());
                    proof {
                        assert(tail@ =~= full.skip(start as int));
                    }
                    self.partial_line = tail;
                    return Ok(out);
                },
            }
        }
    }

    /// Flush the carried tail: validate it as a final line and emit it
    /// (with a newline) if kept; an invalid tail is skipped, never an
    /// error. The parser is left empty.
    pub fn finish(&mut self) -> (r: Result<Vec<u8>, ConvertError>)
        ensures
            r is Ok,
            r->Ok_0@ == nd_line_out(old(self).spec_partial()),
            final(self).spec_partial() == Seq::<u8>::empty(),
    {
        let mut line: Vec<u8> = Vec::new();
        std::mem::swap(&mut line, &mut self.partial_line);
        let mut out: Vec<u8> = Vec::new();
        if line.len() == 0 || all_whitespace(line.as_slice()) {
            return Ok(out);
        }
        if !self.json_parser.quick_validate(line.as_slice()) {
            return Ok(out);
        }
        match self.json_parser.parse_and_validate(line.as_slice()) {
            Ok(_) => {
                append_slice(&mut out, line.as_slice());
                out.push(10);
                proof {
                    assert(out@ =~= nd_line_out(line@));
                }
                Ok(out)
            },
            Err(_) => Ok(out),
        }
    }

    /// Wrap the stream into a single JSON array: `[` on the first call,
    /// a comma between successive records, the unfinished tail flushed
    /// and `]` appended on the last. Lines are copied unvalidated.
    #[verifier::rlimit(60)]
    pub fn to_json_array(&mut self, chunk: &[u8], is_first: bool, is_last: bool) -> (r: Result<
        Vec<u8>,
        ConvertError,
    >)
        ensures
            r is Ok,
            ({
                let lines = stream_lines(old(self).spec_partial() + chunk@);
                let t = stream_tail(old(self).spec_partial() + chunk@);
                let fa = ja_fold(lines, old(self).spec_items() > 0);
                let head: Seq<u8> = if is_first {
                    seq![91u8]
                } else {
                    Seq::empty()
                };
                if is_last {
                    let fb = ja_fold(seq![t], fa.1);
                    &&& r->Ok_0@ == head + fa.0 + fb.0 + seq![93u8]
                    &&& final(self).spec_partial() == Seq::<u8>::empty()
                    &&& (final(self).spec_items() > 0) == fb.1
                } else {
                    &&& r->Ok_0@ == head + fa.0
                    &&& final(self).spec_partial() == t
                    &&& (final(self).spec_items() > 0) == fa.1
                }
            }),
    {
        let ghost tail0 = old(self).partial_line@;
        let ghost any0 = old(self).spec_items() > 0;
        let mut data: Vec<u8> = Vec::new();
        std::mem::swap(&mut data, &mut self.partial_line);
        append_slice(&mut data, chunk);
        let ghost full = data@;
        assert(full == tail0 + chunk@);

        let mut out: Vec<u8> = Vec::new();
        if is_first {
            out.push(91);
        }
        let ghost head: Seq<u8> = if is_first {
            seq![91u8]
        } else {
            Seq::empty()
        };
        assert(out@ =~= head);
        let mut start: usize = 0;
        let data_len = data.len();
        let ghost mut done: Seq<Seq<u8>> = Seq::empty();
        proof {
            assert(full.skip(0) =~= full);
            assert(ja_fold(done, any0).0 =~= Seq::<u8>::empty());
        }
        loop
            invariant
                data@ == full,
                full.len() == data_len,
                full == old(self).spec_partial() + chunk@,
                any0 == (old(self).spec_items() > 0),
                start <= full.len(),
                head == (if is_first {
                    seq![91u8]
                } else {
                    Seq::<u8>::empty()
                }),
                stream_lines(full) == done + stream_lines(full.skip(start as int)),
                stream_tail(full) == stream_tail(full.skip(start as int)),
                out@ == head + ja_fold(done, any0).0,
                (self.items_written > 0) == ja_fold(done, any0).1,
            decreases full.len() - start,
        {
            proof {
                lemma_find_skip(full, 10, start as int);
                crate::bytes::lemma_find_from(full, 10, start as int);
            }
            match find_byte(data.as_slice(), start, 10) {
                Some(p) => {
                    let ghost rest = full.skip(start as int);
                    proof {
                        lemma_stream_step(rest, p - start);
                        assert(rest.take(p - start) =~= full.subrange(start as int, p as int));
                        assert(rest.skip(p - start + 1) =~= full.skip(p + 1 as int));
                        lemma_ja_fold_push(done, full.subrange(start as int, p as int), any0);
                    }
                    let line = copy_range(data.as_slice(), start, p);
                    if !(line.len() == 0 || all_whitespace(line.as_slice())) {
                        if self.items_written > 0 {
                            out.push(44);
                        }
                        append_slice(&mut out, line.as_slice());
                        self.items_written = if self.items_written < usize::MAX {
                            self.items_written + 1
                        } else {
                            self.items_written
                        };
                        proof {
                            if ja_fold(done, any0).1 {
                                assert(out@ =~= head + (ja_fold(done, any0).0 + seq![44u8]
                                    + line@));
                            } else {
                                assert(out@ =~= head + (ja_fold(done, any0).0 + line@));
                                assert(ja_fold(done, any0).0 + Seq::<u8>::empty() + line@ =~= ja_fold(
                                    done,
                                    any0,
                                ).0 + line@);
                            }
                        }
                    }
                    proof {
                        done = done.push(line@);
                        assert(stream_lines(full) =~= done + stream_lines(full.skip(p + 1 as int)));
                    }
                    start = p + 1;
                },
                None => {
                    proof {
                        lemma_stream_no_nl(full.skip(start as int));
                        assert(stream_lines(full) =~= done);
                    }
                    let tail = copy_range(data.as_slice(), start, data_len);
                    proof {
                        assert(tail@ =~= full.skip(start as int));
                        assert(stream_tail(full.skip(start as int)) == full.skip(start as int));
                        assert(tail@ == stream_tail(full));
                    }
                    if is_last {
                        let ghost fa = ja_fold(done, any0);
                        proof {
                            assert(seq![tail@].drop_last() =~= Seq::<Seq<u8>>::empty());
                            assert(seq![tail@].last() == tail@);
                            assert(ja_fold(Seq::<Seq<u8>>::empty(), fa.1) == (
                                Seq::<u8>::empty(),
                                fa.1,
                            ));
                        }
                        if !(tail.len() == 0 || all_whitespace(tail.as_slice())) {
                            if self.items_written > 0 {
                                out.push(44);
                            }
                            append_slice(&mut out, tail.as_slice());
                            self.items_written = if self.items_written < usize::MAX {
                                self.items_written + 1
                            } else {
                                self.items_written
                            };
                            proof {
                                if fa.1 {
                                    assert(out@ =~= head + fa.0 + (Seq::<u8>::empty() + seq![44u8]
                                        + tail@));
                                } else {
                                    assert(out@ =~= head + fa.0 + (Seq::<u8>::empty()
                                        + Seq::<u8>::empty() + tail@));
                                }
                            }
                        } else {
                            proof {
                                assert(out@ =~= head + fa.0 + ja_fold(seq![tail@], fa.1).0);
                            }
                        }
                        out.push(93);
                        self.partial_line = Vec::new();
                        proof {
                            assert(self.partial_line@ =~= Seq::<u8>::empty());
                            assert(out@ =~= head + fa.0 + ja_fold(seq![tail@], fa.1).0 + seq![
                                93u8,
                            ]);
                        }
                        return Ok(out);
                    } else {
                        self.partial_line = tail;
                        return Ok(out);
                    }
                },
            }
        }
    }

    /// How many records the JSON-array writer has emitted.
    pub fn items_count(&self) -> (r: usize)
        ensures
            r as nat == self.spec_items(),
    {
        self.items_written
    }

    /// Size of the carried partial line.
    pub fn partial_size(&self) -> (r: usize)
        ensures
            r as int == self.spec_partial().len(),
    {
        self.partial_line.len()
    }
}

} // verus!
