//! Format detection from a prefix sample: byte-accurate heuristics for
//! XML, NDJSON, JSON and CSV, delimiter scoring over the first lines,
//! and XML record-element inference. The detector never reads beyond the
//! sample and never fails: an unrecognizable sample is simply
//! undetermined.
use vstd::prelude::*;
use crate::bytes::{
    all_ws, append_slice, bytes_eq, contains_bytes, copy_range, find_byte, find_from, is_ws,
    lemma_find_from, lex_le, sort_lex, sort_lex_exec, vv,
};
use crate::format::Format;
use crate::json::{skip_ws, skip_ws_exec, lemma_skip_ws};
use crate::json_parser::{JsonParser, quick_valid};

verus! {

/// The last index holding a byte that is not ASCII whitespace, or -1.
pub open spec fn last_non_ws(s: Seq<u8>) -> int
    decreases s.len(),
{
    if s.len() == 0 {
        -1
    } else if is_ws(s.last()) {
        last_non_ws(s.drop_last())
    } else {
        s.len() - 1
    }
}

pub proof fn lemma_last_non_ws(s: Seq<u8>)
    ensures
        -1 <= last_non_ws(s) < s.len(),
        last_non_ws(s) >= 0 ==> !is_ws(s[last_non_ws(s)]),
        forall|k: int| last_non_ws(s) < k < s.len() ==> is_ws(s[k]),
    decreases s.len(),
{
    if s.len() > 0 && is_ws(s.last()) {
        lemma_last_non_ws(s.drop_last());
        assert forall|k: int| last_non_ws(s) < k < s.len() implies is_ws(s[k]) by {
            if k < s.len() - 1 {
                assert(s.drop_last()[k] == s[k]);
            } else {
                assert(s[k] == s.last());
            }
        }
    }
}

/// The sample with leading and trailing ASCII whitespace removed.
pub open spec fn spec_trim_ascii(s: Seq<u8>) -> Seq<u8> {
    let a = skip_ws(s, 0);
    let b = last_non_ws(s);
    if 0 <= a <= b < s.len() {
        s.subrange(a, b + 1)
    } else {
        Seq::empty()
    }
}

/// Remove leading and trailing ASCII whitespace.
pub fn trim_ascii(sample: &[u8]) -> (r: Vec<u8>)
    ensures
        r@ == spec_trim_ascii(sample@),
{
    proof {
        lemma_skip_ws(sample@, 0);
        lemma_last_non_ws(sample@);
    }
    let a = skip_ws_exec(sample, 0);
    let mut b: usize = sample.len();
    proof {
        assert(sample@.take(b as int) =~= sample@);
    }
    while b > 0 && (sample[b - 1] == 32 || sample[b - 1] == 9 || sample[b - 1] == 10 || sample[b
        - 1] == 13)
        invariant
            0 <= b <= sample@.len(),
            last_non_ws(sample@) == last_non_ws(sample@.take(b as int)),
            last_non_ws(sample@) < b,
        decreases b,
    {
        proof {
            assert(sample@.take(b as int).drop_last() =~= sample@.take(b - 1));
            assert(sample@.take(b as int).last() == sample@[b - 1]);
            lemma_last_non_ws(sample@.take(b - 1));
        }
        b = b - 1;
    }
    proof {
        if b > 0 {
            assert(sample@.take(b as int).last() == sample@[b - 1]);
            assert(last_non_ws(sample@) == b - 1);
        } else {
            assert(sample@.take(0) =~= Seq::<u8>::empty());
            assert(last_non_ws(sample@) == -1);
        }
    }
    if a >= b {
        let empty: Vec<u8> = Vec::new();
        proof {
            assert(empty@ =~= spec_trim_ascii(sample@));
        }
        empty
    } else {
        copy_range(sample, a, b)
    }
}

/// The UTF-8 byte-order mark, stripped when the sample starts with it.
pub open spec fn spec_strip_bom(s: Seq<u8>) -> Seq<u8> {
    if s.len() >= 3 && s[0] == 0xEF && s[1] == 0xBB && s[2] == 0xBF {
        s.skip(3)
    } else {
        s
    }
}

/// Strip a leading UTF-8 byte-order mark.
pub fn strip_bom(sample: &[u8]) -> (r: Vec<u8>)
    ensures
        r@ == spec_strip_bom(sample@),
{
    if sample.len() >= 3 && sample[0] == 0xEF && sample[1] == 0xBB && sample[2] == 0xBF {
        let r = copy_range(sample, 3, sample.len());
        proof {
            assert(r@ =~= sample@.skip(3));
        }
        r
    } else {
        let mut r: Vec<u8> = Vec::new();
        append_slice(&mut r, sample);
        proof {
            assert(r@ =~= sample@);
        }
        r
    }
}

/// A line with one trailing CR stripped, then whitespace-trimmed.
pub open spec fn spec_trim_line(l: Seq<u8>) -> Seq<u8> {
    let l2 = if l.len() > 0 && l.last() == 13 {
        l.drop_last()
    } else {
        l
    };
    spec_trim_ascii(l2)
}

/// Trim a line: drop a trailing CR, then surrounding whitespace.
pub fn trim_line(line: &[u8]) -> (r: Vec<u8>)
    ensures
        r@ == spec_trim_line(line@),
{
    if line.len() > 0 && line[line.len() - 1] == 13 {
        let shorter = copy_range(line, 0, line.len() - 1);
        proof {
            assert(shorter@ =~= line@.drop_last());
        }
        trim_ascii(shorter.as_slice())
    } else {
        trim_ascii(line)
    }
}

/// The first of the leading `k` newline-separated segments that is
/// non-empty after trimming, if any.
pub open spec fn spec_first_nel(s: Seq<u8>, k: nat) -> Option<Seq<u8>>
    decreases k,
{
    if k == 0 {
        None
    } else {
        match find_from(s, 10, 0) {
            None => if spec_trim_line(s).len() > 0 {
                Some(spec_trim_line(s))
            } else {
                None
            },
            Some(i) => if 0 <= i < s.len() {
                if spec_trim_line(s.take(i)).len() > 0 {
                    Some(spec_trim_line(s.take(i)))
                } else {
                    spec_first_nel(s.skip(i + 1), (k - 1) as nat)
                }
            } else {
                None
            },
        }
    }
}

/// The first non-empty line among the sample's first sixteen.
pub fn first_non_empty_line(sample: &[u8]) -> (r: Option<Vec<u8>>)
    ensures
        match r {
            Some(l) => spec_first_nel(sample@, 16) == Some(l@),
            None => spec_first_nel(sample@, 16) == None::<Seq<u8>>,
        },
{
    let mut rest: Vec<u8> = Vec::new();
    append_slice(&mut rest, sample);
    proof {
        assert(rest@ =~= sample@);
    }
    let mut k: usize = 16;
    loop
        invariant
            k <= 16,
            spec_first_nel(sample@, 16) == spec_first_nel(rest@, k as nat),
        decreases k,
    {
        if k == 0 {
            return None;
        }
        proof {
            lemma_find_from(rest@, 10, 0);
        }
        let rest_len = rest.len();
        match find_byte(rest.as_slice(), 0, 10) {
            None => {
                let t = trim_line(rest.as_slice());
                if t.len() > 0 {
                    return Some(t);
                } else {
                    return None;
                }
            },
            Some(i) => {
                let head = copy_range(rest.as_slice(), 0, i);
                proof {
                    assert(head@ =~= rest@.take(i as int));
                }
                let t = trim_line(head.as_slice());
                if t.len() > 0 {
                    return Some(t);
                }
                let next = copy_range(rest.as_slice(), i + 1, rest_len);
                proof {
                    assert(next@ =~= rest@.skip(i + 1));
                }
                rest = next;
                k = k - 1;
            },
        }
    }
}

/// Count quote-aware occurrences of `d` in a line: a doubled quote
/// inside a quoted region is a literal, and delimiters inside quotes do
/// not count.
pub open spec fn count_delims_at(line: Seq<u8>, d: u8, i: int, inq: bool, cnt: nat) -> nat
    decreases line.len() - i,
{
    if i < 0 || i >= line.len() {
        cnt
    } else if line[i] == 34 {
        if inq && i + 1 < line.len() && line[i + 1] == 34 {
            count_delims_at(line, d, i + 2, inq, cnt)
        } else {
            count_delims_at(line, d, i + 1, !inq, cnt)
        }
    } else if line[i] == d && !inq {
        count_delims_at(line, d, i + 1, inq, cnt + 1)
    } else {
        count_delims_at(line, d, i + 1, inq, cnt)
    }
}

/// Quote-aware delimiter count for a whole line.
pub open spec fn spec_count_delimiters(line: Seq<u8>, d: u8) -> nat {
    count_delims_at(line, d, 0, false, 0)
}

/// The number of fields the line splits into: one more than its
/// unquoted delimiter count.
pub open spec fn spec_count_fields(line: Seq<u8>, d: u8) -> nat {
    1 + spec_count_delimiters(line, d)
}

proof fn lemma_count_delims_bound(line: Seq<u8>, d: u8, i: int, inq: bool, cnt: nat)
    requires
        0 <= i <= line.len(),
    ensures
        count_delims_at(line, d, i, inq, cnt) <= cnt + line.len() - i,
    decreases line.len() - i,
{
    if i < line.len() {
        if line[i] == 34 {
            if inq && i + 1 < line.len() && line[i + 1] == 34 {
                lemma_count_delims_bound(line, d, i + 2, inq, cnt);
            } else {
                lemma_count_delims_bound(line, d, i + 1, !inq, cnt);
            }
        } else if line[i] == d && !inq {
            lemma_count_delims_bound(line, d, i + 1, inq, cnt + 1);
        } else {
            lemma_count_delims_bound(line, d, i + 1, inq, cnt);
        }
    }
}

/// Count quote-aware occurrences of the delimiter in a line.
pub fn count_delimiters(line: &[u8], delimiter: u8) -> (r: usize)
    ensures
        r as nat == spec_count_delimiters(line@, delimiter),
{
    proof {
        lemma_count_delims_bound(line@, delimiter, 0, false, 0);
    }
    let mut pos: usize = 0;
    let mut inq: bool = false;
    let mut count: usize = 0;
    loop
        invariant
            0 <= pos <= line@.len(),
            count <= pos,
            spec_count_delimiters(line@, delimiter) == count_delims_at(
                line@,
                delimiter,
                pos as int,
                inq,
                count as nat,
            ),
        decreases line@.len() - pos,
    {
        if pos >= line.len() {
            return count;
        }
        let b = line[pos];
        if b == 34 {
            if inq && pos + 1 < line.len() && line[pos + 1] == 34 {
                pos = pos + 2;
            } else {
                inq = !inq;
                pos = pos + 1;
            }
        } else if b == delimiter && !inq {
            count = count + 1;
            pos = pos + 1;
        } else {
            pos = pos + 1;
        }
    }
}

/// Count the fields of a line under quote-aware splitting.
pub fn count_fields(line: &[u8], delimiter: u8) -> (r: usize)
    ensures
        r as nat == (if spec_count_fields(line@, delimiter) <= usize::MAX as nat {
            spec_count_fields(line@, delimiter)
        } else {
            usize::MAX as nat
        }),
{
    proof {
        lemma_count_delims_bound(line@, delimiter, 0, false, 0);
    }
    let c = count_delimiters(line, delimiter);
    if c < usize::MAX {
        c + 1
    } else {
        usize::MAX
    }
}

/// Split a line on an unquoted delimiter, decoding doubled quotes, as
/// the detector previews fields.
pub open spec fn split_csv_at(line: Seq<u8>, d: u8, i: int, inq: bool, field: Seq<u8>, acc: Seq<
    Seq<u8>,
>) -> Seq<Seq<u8>>
    decreases line.len() - i,
{
    if i < 0 || i >= line.len() {
        acc.push(field)
    } else if line[i] == 34 {
        if inq && i + 1 < line.len() && line[i + 1] == 34 {
            split_csv_at(line, d, i + 2, inq, field.push(34), acc)
        } else {
            split_csv_at(line, d, i + 1, !inq, field, acc)
        }
    } else if line[i] == d && !inq {
        split_csv_at(line, d, i + 1, inq, Seq::empty(), acc.push(field))
    } else {
        split_csv_at(line, d, i + 1, inq, field.push(line[i]), acc)
    }
}

/// The detector's preview of a line's fields.
pub open spec fn spec_split_csv_fields(line: Seq<u8>, d: u8) -> Seq<Seq<u8>> {
    split_csv_at(line, d, 0, false, Seq::empty(), Seq::empty())
}

/// Per-candidate tallies while scoring delimiters: for each of the four
/// candidates, total occurrences and the number of lines holding one,
/// plus the number of non-empty lines seen.
pub struct DelimTally {
    pub totals: Seq<nat>,
    pub with_lines: Seq<nat>,
    pub line_count: nat,
}

/// The candidate delimiters, in preference order.
pub open spec fn delim_candidates() -> Seq<u8> {
    seq![44u8, 9u8, 59u8, 124u8]
}

/// Update the tallies with one trimmed, non-empty line.
pub open spec fn tally_line(t: DelimTally, line: Seq<u8>) -> DelimTally {
    DelimTally {
        totals: Seq::new(4, |i: int| t.totals[i] + spec_count_delimiters(line, delim_candidates()[i])),
        with_lines: Seq::new(
            4,
            |i: int|
                t.with_lines[i] + (if spec_count_delimiters(line, delim_candidates()[i]) > 0 {
                    1nat
                } else {
                    0nat
                }),
        ),
        line_count: t.line_count + 1,
    }
}

/// Tally the first `k` newline-separated segments.
pub open spec fn tally_scan(s: Seq<u8>, k: nat, t: DelimTally) -> DelimTally
    decreases k,
{
    if k == 0 {
        t
    } else {
        match find_from(s, 10, 0) {
            None => if spec_trim_line(s).len() > 0 {
                tally_line(t, spec_trim_line(s))
            } else {
                t
            },
            Some(i) => if 0 <= i < s.len() {
                tally_scan(
                    s.skip(i + 1),
                    (k - 1) as nat,
                    if spec_trim_line(s.take(i)).len() > 0 {
                        tally_line(t, spec_trim_line(s.take(i)))
                    } else {
                        t
                    },
                )
            } else {
                t
            },
        }
    }
}

pub open spec fn tally_init() -> DelimTally {
    DelimTally { totals: seq![0nat, 0nat, 0nat, 0nat], with_lines: seq![0nat, 0nat, 0nat, 0nat], line_count: 0 }
}

/// The winning candidate: scores are `lines-with × total occurrences`
/// (the shared line count divides out of the documented ratio), a later
/// candidate wins only by a strictly greater score, and a comma stands
/// when nothing scores.
pub open spec fn tally_best(t: DelimTally, i: int, best: u8, best_score: nat) -> u8
    decreases 4 - i,
{
    if i < 0 || i >= 4 {
        best
    } else {
        let score = t.totals[i] * t.with_lines[i];
        if t.totals[i] > 0 && score > best_score {
            tally_best(t, i + 1, delim_candidates()[i], score)
        } else {
            tally_best(t, i + 1, best, best_score)
        }
    }
}

/// The delimiter the sample's first ten lines point to.
pub open spec fn spec_detect_delimiter(s: Seq<u8>) -> u8 {
    let t = tally_scan(s, 10, tally_init());
    if t.line_count == 0 {
        44u8
    } else {
        tally_best(t, 0, 44u8, 0)
    }
}

/// Score the four candidate delimiters over the first ten lines and
/// pick the best: consistency across lines times total occurrences.
#[verifier::rlimit(100)]
pub fn detect_delimiter(sample: &[u8]) -> (r: u8)
    ensures
        r == spec_detect_delimiter(sample@),
{
    let cands: [u8; 4] = [44, 9, 59, 124];
    let mut totals: [u128; 4] = [0, 0, 0, 0];
    let mut with_lines: [u128; 4] = [0, 0, 0, 0];
    let mut line_count: usize = 0;
    let mut rest: Vec<u8> = Vec::new();
    append_slice(&mut rest, sample);
    proof {
        assert(rest@ =~= sample@);
    }
    let mut k: usize = 10;
    let ghost mut t: DelimTally = tally_init();
    proof {
        assert(cands@ =~= delim_candidates());
        assert(t.totals =~= seq![0nat, 0nat, 0nat, 0nat]);
        assert(t.with_lines =~= seq![0nat, 0nat, 0nat, 0nat]);
    }
    loop
        invariant_except_break
            k <= 10,
            tally_scan(sample@, 10, tally_init()) == tally_scan(rest@, k as nat, t),
            t.totals.len() == 4,
            t.with_lines.len() == 4,
            forall|i: int| 0 <= i < 4 ==> t.totals[i] == totals@[i] as nat,
            forall|i: int| 0 <= i < 4 ==> t.with_lines[i] == with_lines@[i] as nat,
            t.line_count == line_count as nat,
            line_count as nat <= 11 - k,
            forall|i: int|
                0 <= i < 4 ==> totals@[i] as nat <= (11 - k) * (usize::MAX as nat),
            forall|i: int| 0 <= i < 4 ==> with_lines@[i] as nat <= line_count as nat,
            cands@ == delim_candidates(),
        ensures
            t == tally_scan(sample@, 10, tally_init()),
            t.totals.len() == 4,
            t.with_lines.len() == 4,
            forall|i: int| 0 <= i < 4 ==> t.totals[i] == totals@[i] as nat,
            forall|i: int| 0 <= i < 4 ==> t.with_lines[i] == with_lines@[i] as nat,
            t.line_count == line_count as nat,
            forall|i: int| 0 <= i < 4 ==> totals@[i] as nat <= 11 * (usize::MAX as nat),
            forall|i: int| 0 <= i < 4 ==> with_lines@[i] as nat <= 11,
            cands@ == delim_candidates(),
        decreases k,
    {
        if k == 0 {
            break;
        }
        proof {
            lemma_find_from(rest@, 10, 0);
        }
        let rest_len = rest.len();
        let found = find_byte(rest.as_slice(), 0, 10);
        let line: Vec<u8> = match found {
            None => trim_line(rest.as_slice()),
            Some(i) => {
                let head = copy_range(rest.as_slice(), 0, i);
                proof {
                    assert(head@ =~= rest@.take(i as int));
                }
                trim_line(head.as_slice())
            },
        };
        if line.len() > 0 {
            let ghost t0 = t;
            line_count = line_count + 1;
            let line_len = line.len();
            let mut ci: usize = 0;
            while ci < 4
                invariant
                    ci <= 4,
                    1 <= k <= 10,
                    line_count as nat <= 12 - k,
                    cands@ == delim_candidates(),
                    t0.totals.len() == 4,
                    t0.with_lines.len() == 4,
                    line@.len() == line_len,
                    forall|i: int|
                        0 <= i < ci ==> totals@[i] as nat == t0.totals[i]
                            + spec_count_delimiters(line@, delim_candidates()[i]),
                    forall|i: int|
                        0 <= i < ci ==> with_lines@[i] as nat == t0.with_lines[i] + (
                        if spec_count_delimiters(line@, delim_candidates()[i]) > 0 {
                            1nat
                        } else {
                            0nat
                        }),
                    forall|i: int| ci <= i < 4 ==> t0.totals[i] == totals@[i] as nat,
                    forall|i: int| ci <= i < 4 ==> t0.with_lines[i] == with_lines@[i] as nat,
                    forall|i: int|
                        ci <= i < 4 ==> totals@[i] as nat <= (11 - k) * (usize::MAX as nat),
                    forall|i: int|
                        0 <= i < ci ==> totals@[i] as nat <= (11 - k) * (usize::MAX as nat)
                            + (usize::MAX as nat),
                    forall|i: int| ci <= i < 4 ==> with_lines@[i] as nat <= line_count as nat
                        - 1,
                    forall|i: int| 0 <= i < ci ==> with_lines@[i] as nat <= line_count as nat,
                decreases 4 - ci,
            {
                let cnt = count_delimiters(line.as_slice(), cands[ci]);
                proof {
                    lemma_count_delims_bound(line@, cands@[ci as int], 0, false, 0);
                    assert((11 - k) * (usize::MAX as nat) + (usize::MAX as nat) <= 11 * (
                    usize::MAX as nat)) by (nonlinear_arith)
                        requires
                            1 <= k <= 10,
                    ;
                }
                totals[ci] = totals[ci] + (cnt as u128);
                if cnt > 0 {
                    with_lines[ci] = with_lines[ci] + 1;
                }
                ci = ci + 1;
            }
            proof {
                t = tally_line(t0, line@);
                assert(t.totals.len() == 4);
                assert forall|i: int| 0 <= i < 4 implies t.totals[i] == totals@[i] as nat by {
                    assert(t.totals[i] == t0.totals[i] + spec_count_delimiters(
                        line@,
                        delim_candidates()[i],
                    ));
                }
                assert forall|i: int| 0 <= i < 4 implies t.with_lines[i] == with_lines@[i] as nat
                by {
                    assert(t.with_lines[i] == t0.with_lines[i] + (if spec_count_delimiters(
                        line@,
                        delim_candidates()[i],
                    ) > 0 {
                        1nat
                    } else {
                        0nat
                    }));
                }
            }
        }
        match found {
            None => {
                break;
            },
            Some(i) => {
                let next = copy_range(rest.as_slice(), i + 1, rest_len);
                proof {
                    assert(next@ =~= rest@.skip(i + 1));
                    assert((11 - (k - 1)) * (usize::MAX as nat) == (11 - k) * (usize::MAX as nat)
                        + (usize::MAX as nat)) by (nonlinear_arith)
                        requires
                            1 <= k <= 10,
                    ;
                }
                rest = next;
                k = k - 1;
            },
        }
    }
    if line_count == 0 {
        return 44;
    }
    let mut best: u8 = 44;
    let mut best_score: u128 = 0;
    let mut ci: usize = 0;
    while ci < 4
        invariant
            ci <= 4,
            t == tally_scan(sample@, 10, tally_init()),
            t.line_count == line_count as nat,
            line_count > 0,
            t.totals.len() == 4,
            t.with_lines.len() == 4,
            forall|i: int| 0 <= i < 4 ==> t.totals[i] == totals@[i] as nat,
            forall|i: int| 0 <= i < 4 ==> t.with_lines[i] == with_lines@[i] as nat,
            forall|i: int| 0 <= i < 4 ==> totals@[i] as nat <= 11 * (usize::MAX as nat),
            forall|i: int| 0 <= i < 4 ==> with_lines@[i] as nat <= 11,
            cands@ == delim_candidates(),
            best_score as nat <= 11 * (usize::MAX as nat) * 11,
            tally_best(t, 0, 44u8, 0) == tally_best(t, ci as int, best, best_score as nat),
        decreases 4 - ci,
    {
        proof {
            assert((totals@[ci as int] as nat) * (with_lines@[ci as int] as nat) <= 11 * (
            usize::MAX as nat) * 11 && 11 * (usize::MAX as nat) * 11 < u128::MAX) by (
            nonlinear_arith)
                requires
                    totals@[ci as int] as nat <= 11 * (usize::MAX as nat),
                    with_lines@[ci as int] as nat <= 11,
                    usize::MAX as nat <= u64::MAX as nat,
            ;
        }
        let score: u128 = totals[ci] * with_lines[ci];
        if totals[ci] > 0 && score > best_score {
            best = cands[ci];
            best_score = score;
        }
        ci = ci + 1;
    }
    best
}

/// What a string the host sees stands for: the lossy UTF-8 decoding of
/// the detector's bytes.
pub uninterp spec fn lossy_of(b: Seq<u8>) -> Seq<char>;

/// Relies on String::from_utf8_lossy: decodes UTF-8, substituting the
/// replacement character for invalid sequences; valid UTF-8 — in
/// particular ASCII — decodes to itself.
#[verifier::external_body]
fn utf8_lossy(b: &[u8]) -> (r: String)
    ensures
        r@ == lossy_of(b@),
        (forall|i: int| 0 <= i < b@.len() ==> b@[i] < 128) ==> (r@.len() == b@.len() && (forall|
            i: int,
        | 0 <= i < b@.len() ==> r@[i] == b@[i] as char)),
{
    String::from_utf8_lossy(b).into_owned()
}

/// The strings are the lossy decodings of the byte lists, in order.
pub open spec fn strs_match(v: Seq<String>, b: Seq<Seq<u8>>) -> bool {
    v.len() == b.len() && (forall|i: int| 0 <= i < b.len() ==> v[i]@ == lossy_of(#[trigger] b[i]))
}

/// Decode a list of byte strings for the host.
fn lossy_all(v: &Vec<Vec<u8>>) -> (r: Vec<String>)
    ensures
        strs_match(r@, vv(v@)),
{
    let mut out: Vec<String> = Vec::new();
    let mut i: usize = 0;
    while i < v.len()
        invariant
            0 <= i <= v@.len(),
            out@.len() == i,
            forall|k: int| 0 <= k < i ==> out@[k]@ == lossy_of(vv(v@)[k]),
        decreases v@.len() - i,
    {
        let s = utf8_lossy(v[i].as_slice());
        proof {
            assert(vv(v@)[i as int] == v@[i as int]@);
        }
        out.push(s);
        i = i + 1;
    }
    out
}

pub open spec fn is_alpha(b: u8) -> bool {
    (65 <= b <= 90) || (97 <= b <= 122)
}

/// Does a (whitespace-trimmed) sample look like XML: it starts with
/// `<`, and with `<?xml`, `<!DOCTYPE`, or any letter somewhere after
/// the opening angle bracket.
pub open spec fn spec_looks_like_xml(sample: Seq<u8>) -> bool {
    let t = spec_trim_ascii(sample);
    &&& t.len() > 0
    &&& t[0] == 60
    &&& {
        ||| (t.len() >= 5 && t[1] == 63 && t[2] == 120 && t[3] == 109 && t[4] == 108)
        ||| (t.len() >= 9 && t[1] == 33 && t[2] == 68 && t[3] == 79 && t[4] == 67 && t[5] == 84
            && t[6] == 89 && t[7] == 80 && t[8] == 69)
        ||| exists|i: int| 1 <= i < t.len() && is_alpha(#[trigger] t[i])
    }
}

/// The XML shape heuristic.
pub fn looks_like_xml(sample: &[u8]) -> (r: bool)
    ensures
        r == spec_looks_like_xml(sample@),
{
    let t = trim_ascii(sample);
    if t.len() == 0 || t[0] != 60 {
        return false;
    }
    if t.len() >= 5 && t[1] == 63 && t[2] == 120 && t[3] == 109 && t[4] == 108 {
        return true;
    }
    if t.len() >= 9 && t[1] == 33 && t[2] == 68 && t[3] == 79 && t[4] == 67 && t[5] == 84 && t[6]
        == 89 && t[7] == 80 && t[8] == 69 {
        return true;
    }
    let mut i: usize = 1;
    while i < t.len()
        invariant
            1 <= i <= t@.len(),
            t@ == spec_trim_ascii(sample@),
            t@.len() > 0,
            t@[0] == 60,
            forall|k: int| 1 <= k < i ==> !is_alpha(t@[k]),
        decreases t@.len() - i,
    {
        let b = t[i];
        if (65 <= b && b <= 90) || (97 <= b && b <= 122) {
            return true;
        }
        i = i + 1;
    }
    false
}

/// Walk the first `k` newline-separated segments looking for NDJSON:
/// two object or array lines that pass the quick check make it NDJSON;
/// any non-blank line that fails makes it something else.
pub open spec fn spec_llnd(s: Seq<u8>, k: nat, cnt: nat) -> bool
    decreases k,
{
    if k == 0 {
        false
    } else {
        match find_from(s, 10, 0) {
            None => {
                let l = spec_trim_line(s);
                if l.len() == 0 {
                    false
                } else if l[0] != 123 && l[0] != 91 {
                    false
                } else if !quick_valid(l) {
                    false
                } else {
                    cnt + 1 >= 2
                }
            },
            Some(i) => if 0 <= i < s.len() {
                let l = spec_trim_line(s.take(i));
                if l.len() == 0 {
                    spec_llnd(s.skip(i + 1), (k - 1) as nat, cnt)
                } else if l[0] != 123 && l[0] != 91 {
                    false
                } else if !quick_valid(l) {
                    false
                } else if cnt + 1 >= 2 {
                    true
                } else {
                    spec_llnd(s.skip(i + 1), (k - 1) as nat, cnt + 1)
                }
            } else {
                false
            },
        }
    }
}

/// The NDJSON shape heuristic, over the first 32 lines.
pub open spec fn spec_looks_like_ndjson(sample: Seq<u8>) -> bool {
    spec_llnd(sample, 32, 0)
}

/// The NDJSON shape heuristic.
pub fn looks_like_ndjson(sample: &[u8], parser: &JsonParser) -> (r: bool)
    ensures
        r == spec_looks_like_ndjson(sample@),
{
    let mut rest: Vec<u8> = Vec::new();
    append_slice(&mut rest, sample);
    proof {
        assert(rest@ =~= sample@);
    }
    let mut k: usize = 32;
    let mut cnt: usize = 0;
    loop
        invariant
            k <= 32,
            cnt <= 2,
            spec_looks_like_ndjson(sample@) == spec_llnd(rest@, k as nat, cnt as nat),
        decreases k,
    {
        if k == 0 {
            return false;
        }
        proof {
            lemma_find_from(rest@, 10, 0);
        }
        let rest_len = rest.len();
        match find_byte(rest.as_slice(), 0, 10) {
            None => {
                let l = trim_line(rest.as_slice());
                if l.len() == 0 {
                    return false;
                }
                if l[0] != 123 && l[0] != 91 {
                    return false;
                }
                if !parser.quick_validate(l.as_slice()) {
                    return false;
                }
                return cnt + 1 >= 2;
            },
            Some(i) => {
                let head = copy_range(rest.as_slice(), 0, i);
                proof {
                    assert(head@ =~= rest@.take(i as int));
                }
                let l = trim_line(head.as_slice());
                if l.len() > 0 {
                    if l[0] != 123 && l[0] != 91 {
                        return false;
                    }
                    if !parser.quick_validate(l.as_slice()) {
                        return false;
                    }
                    if cnt + 1 >= 2 {
                        return true;
                    }
                    cnt = cnt + 1;
                }
                let next = copy_range(rest.as_slice(), i + 1, rest_len);
                proof {
                    assert(next@ =~= rest@.skip(i + 1));
                }
                rest = next;
                k = k - 1;
            },
        }
    }
}

/// The CSV shape heuristic: the first non-empty line splits into at
/// least two fields under the best-scoring delimiter.
pub open spec fn spec_looks_like_csv(sample: Seq<u8>) -> bool {
    match spec_first_nel(sample, 16) {
        None => false,
        Some(line) => spec_count_fields(line, spec_detect_delimiter(sample)) >= 2,
    }
}

/// The CSV shape heuristic.
pub fn looks_like_csv(sample: &[u8]) -> (r: bool)
    ensures
        r == spec_looks_like_csv(sample@),
{
    match first_non_empty_line(sample) {
        None => false,
        Some(line) => {
            let d = detect_delimiter(sample);
            let n = count_fields(line.as_slice(), d);
            n >= 2
        },
    }
}

/// End of a quoted key started at `j`: the next quote, skipping
/// backslash pairs.
pub open spec fn ejf_key_end(s: Seq<u8>, j: int) -> int
    decreases s.len() - j,
{
    if j < 0 || j >= s.len() {
        j
    } else if s[j] == 34 {
        j
    } else if s[j] == 92 && j + 1 < s.len() {
        ejf_key_end(s, j + 2)
    } else {
        ejf_key_end(s, j + 1)
    }
}

pub proof fn lemma_ejf_key_end(s: Seq<u8>, j: int)
    requires
        0 <= j <= s.len(),
    ensures
        j <= ejf_key_end(s, j) <= s.len(),
    decreases s.len() - j,
{
    if j < s.len() && s[j] != 34 {
        if s[j] == 92 && j + 1 < s.len() {
            lemma_ejf_key_end(s, j + 2);
        } else {
            lemma_ejf_key_end(s, j + 1);
        }
    }
}

/// Whitespace as the key scanner skips it before a colon.
pub open spec fn ejf_ws(b: u8) -> bool {
    is_ws(b) || b == 12
}

pub open spec fn ejf_skip_ws(s: Seq<u8>, j: int) -> int
    decreases s.len() - j,
{
    if 0 <= j < s.len() && ejf_ws(s[j]) {
        ejf_skip_ws(s, j + 1)
    } else {
        j
    }
}

pub proof fn lemma_ejf_skip_ws(s: Seq<u8>, j: int)
    requires
        0 <= j <= s.len(),
    ensures
        j <= ejf_skip_ws(s, j) <= s.len(),
    decreases s.len() - j,
{
    if j < s.len() && ejf_ws(s[j]) {
        lemma_ejf_skip_ws(s, j + 1);
    }
}

/// A key the extractor keeps: ASCII letters, digits, underscore,
/// hyphen, or bytes beyond ASCII.
pub open spec fn ejf_key_ok(key: Seq<u8>) -> bool {
    forall|i: int|
        0 <= i < key.len() ==> ((48 <= #[trigger] key[i] <= 57) || is_alpha(key[i]) || key[i] == 95
            || key[i] == 45 || key[i] >= 128)
}

/// Scan for quoted keys followed by a colon, collecting each new one.
pub open spec fn ejf_scan(s: Seq<u8>, i: int, acc: Seq<Seq<u8>>) -> Seq<Seq<u8>>
    decreases s.len() - i,
{
    if i < 0 || i >= s.len() {
        acc
    } else if s[i] == 34 {
        let ke = ejf_key_end(s, i + 1);
        if ke < s.len() && s[ke] == 34 {
            let cp = ejf_skip_ws(s, ke + 1);
            let key = s.subrange(i + 1, ke);
            let acc2 = if cp < s.len() && s[cp] == 58 && ejf_key_ok(key) && !acc.contains(key) {
                acc.push(key)
            } else {
                acc
            };
            if i < ke + 1 <= s.len() {
                ejf_scan(s, ke + 1, acc2)
            } else {
                acc2
            }
        } else {
            ejf_scan(s, i + 1, acc)
        }
    } else {
        ejf_scan(s, i + 1, acc)
    }
}

/// The top-level key names found in a JSON text, sorted.
pub open spec fn spec_extract_json_fields(s: Seq<u8>) -> Seq<Seq<u8>> {
    sort_lex(ejf_scan(s, 0, Seq::empty()))
}

/// Collect the quoted keys (quoted strings followed by a colon) of a
/// JSON text, each kept once, sorted.
pub fn extract_json_fields(data: &[u8]) -> (r: Vec<Vec<u8>>)
    ensures
        vv(r@) == spec_extract_json_fields(data@),
{
    let mut acc: Vec<Vec<u8>> = Vec::new();
    let mut i: usize = 0;
    proof {
        assert(vv(acc@) =~= Seq::<Seq<u8>>::empty());
    }
    loop
        invariant_except_break
            0 <= i <= data@.len(),
            ejf_scan(data@, 0, Seq::empty()) == ejf_scan(data@, i as int, vv(acc@)),
        ensures
            vv(acc@) == ejf_scan(data@, 0, Seq::empty()),
        decreases data@.len() - i,
    {
        if i >= data.len() {
            break;
        }
        if data[i] == 34 {
            proof {
                lemma_ejf_key_end(data@, i + 1);
            }
            let ke = ejf_key_end_exec(data, i + 1);
            if ke < data.len() && data[ke] == 34 {
                proof {
                    lemma_ejf_skip_ws(data@, ke + 1);
                }
                let cp = ejf_skip_ws_exec(data, ke + 1);
                let key = copy_range(data, i + 1, ke);
                proof {
                    assert(key@ =~= data@.subrange(i + 1, ke as int));
                }
                if cp < data.len() && data[cp] == 58 && ejf_key_ok_exec(key.as_slice())
                    && !contains_bytes(&acc, key.as_slice()) {
                    let ghost pre = vv(acc@);
                    acc.push(key);
                    proof {
                        assert(vv(acc@) =~= pre.push(data@.subrange(i + 1, ke as int)));
                    }
                }
                i = ke + 1;
            } else {
                i = i + 1;
            }
        } else {
            i = i + 1;
        }
    }
    sort_lex_exec(acc)
}

fn ejf_key_end_exec(data: &[u8], j: usize) -> (r: usize)
    requires
        j <= data@.len(),
    ensures
        r as int == ejf_key_end(data@, j as int),
        j <= r <= data@.len(),
{
    proof {
        lemma_ejf_key_end(data@, j as int);
    }
    let mut p: usize = j;
    loop
        invariant
            j <= p <= data@.len(),
            ejf_key_end(data@, j as int) == ejf_key_end(data@, p as int),
        decreases data@.len() - p,
    {
        if p >= data.len() {
            return p;
        }
        if data[p] == 34 {
            return p;
        }
        if data[p] == 92 && p + 1 < data.len() {
            p = p + 2;
        } else {
            p = p + 1;
        }
    }
}

fn ejf_skip_ws_exec(data: &[u8], j: usize) -> (r: usize)
    requires
        j <= data@.len(),
    ensures
        r as int == ejf_skip_ws(data@, j as int),
        j <= r <= data@.len(),
{
    proof {
        lemma_ejf_skip_ws(data@, j as int);
    }
    let mut p: usize = j;
    loop
        invariant
            j <= p <= data@.len(),
            ejf_skip_ws(data@, j as int) == ejf_skip_ws(data@, p as int),
        decreases data@.len() - p,
    {
        if p >= data.len() {
            return p;
        }
        let b = data[p];
        if b == 32 || b == 9 || b == 10 || b == 13 || b == 12 {
            p = p + 1;
        } else {
            return p;
        }
    }
}

fn ejf_key_ok_exec(key: &[u8]) -> (r: bool)
    ensures
        r == ejf_key_ok(key@),
{
    let mut i: usize = 0;
    while i < key.len()
        invariant
            0 <= i <= key@.len(),
            forall|k: int|
                0 <= k < i ==> ((48 <= #[trigger] key@[k] <= 57) || is_alpha(key@[k]) || key@[k]
                    == 95 || key@[k] == 45 || key@[k] >= 128),
        decreases key@.len() - i,
    {
        let b = key[i];
        if !((48 <= b && b <= 57) || (65 <= b && b <= 90) || (97 <= b && b <= 122) || b == 95 || b
            == 45 || b >= 128) {
            return false;
        }
        i = i + 1;
    }
    true
}

/// Index of the first entry with key `k` in an association list.
pub open spec fn key_idx<T>(ps: Seq<(Seq<u8>, T)>, k: Seq<u8>, i: int) -> Option<int>
    decreases ps.len() - i,
{
    if i < 0 || i >= ps.len() {
        None
    } else if ps[i].0 == k {
        Some(i)
    } else {
        key_idx(ps, k, i + 1)
    }
}

pub proof fn lemma_key_idx<T>(ps: Seq<(Seq<u8>, T)>, k: Seq<u8>, i: int)
    requires
        0 <= i <= ps.len(),
    ensures
        match key_idx(ps, k, i) {
            Some(j) => i <= j < ps.len() && ps[j].0 == k,
            None => forall|m: int| i <= m < ps.len() ==> (#[trigger] ps[m]).0 != k,
        },
    decreases ps.len() - i,
{
    if i < ps.len() && ps[i].0 != k {
        lemma_key_idx(ps, k, i + 1);
    }
}

/// The scanner's state while it walks the sample's tags.
#[verifier::ext_equal]
pub struct XmlScan {
    /// Element name to occurrence count, in first-seen order.
    pub elements: Seq<(Seq<u8>, nat)>,
    /// Element name to the shallowest depth it was seen at.
    pub depths: Seq<(Seq<u8>, nat)>,
    /// Parent name to the set of child names seen under it.
    pub children: Seq<(Seq<u8>, Seq<Seq<u8>>)>,
    /// The first element seen.
    pub root: Option<Seq<u8>>,
    /// Current nesting depth.
    pub depth: nat,
    /// The element open at each tracked depth (ten levels).
    pub parents: Seq<Option<Seq<u8>>>,
}

pub open spec fn xscan_init() -> XmlScan {
    XmlScan {
        elements: Seq::empty(),
        depths: Seq::empty(),
        children: Seq::empty(),
        root: None,
        depth: 0,
        parents: Seq::new(10, |i: int| None),
    }
}

/// First index at or after `j` that does not hold an element-name byte
/// (letters, digits, underscore, hyphen, colon).
pub open spec fn name_end(s: Seq<u8>, j: int) -> int
    decreases s.len() - j,
{
    if 0 <= j < s.len() && ((48 <= s[j] <= 57) || is_alpha(s[j]) || s[j] == 95 || s[j] == 45
        || s[j] == 58) {
        name_end(s, j + 1)
    } else {
        j
    }
}

pub proof fn lemma_name_end(s: Seq<u8>, j: int)
    requires
        0 <= j <= s.len(),
    ensures
        j <= name_end(s, j) <= s.len(),
    decreases s.len() - j,
{
    if j < s.len() && ((48 <= s[j] <= 57) || is_alpha(s[j]) || s[j] == 95 || s[j] == 45 || s[j]
        == 58) {
        lemma_name_end(s, j + 1);
    }
}

/// Account for a closing tag: clear the tracked parent at this depth
/// and step back out.
pub open spec fn xclose_step(st: XmlScan) -> XmlScan {
    let parents = if 0 < st.depth < 10 {
        st.parents.update(st.depth as int, None)
    } else {
        st.parents
    };
    XmlScan {
        parents,
        depth: if st.depth > 0 {
            (st.depth - 1) as nat
        } else {
            0
        },
        ..st
    }
}

/// Account for an opening tag named `name`, self-closing or not.
pub open spec fn xopen_step(st: XmlScan, name: Seq<u8>, self_closing: bool) -> XmlScan {
    let root = if st.root is None {
        Some(name)
    } else {
        st.root
    };
    let depths = match key_idx(st.depths, name, 0) {
        Some(j) => if st.depth < st.depths[j].1 {
            st.depths.update(j, (name, st.depth))
        } else {
            st.depths
        },
        None => st.depths.push((name, st.depth)),
    };
    let children = if 0 < st.depth < 10 {
        match st.parents[st.depth as int] {
            Some(par) => match key_idx(st.children, par, 0) {
                Some(j) => if st.children[j].1.contains(name) {
                    st.children
                } else {
                    st.children.update(j, (par, st.children[j].1.push(name)))
                },
                None => st.children.push((par, seq![name])),
            },
            None => st.children,
        }
    } else {
        st.children
    };
    let elements = match key_idx(st.elements, name, 0) {
        Some(j) => st.elements.update(
            j,
            (
                name,
                if st.elements[j].1 < usize::MAX as nat {
                    st.elements[j].1 + 1
                } else {
                    st.elements[j].1
                },
            ),
        ),
        None => st.elements.push((name, 1nat)),
    };
    let nd = if !self_closing && st.depth < usize::MAX as nat {
        (st.depth + 1) as nat
    } else {
        st.depth
    };
    let parents = if !self_closing && nd < 10 && nd != st.depth {
        st.parents.update(nd as int, Some(name))
    } else {
        st.parents
    };
    XmlScan { elements, depths, children, root, depth: nd, parents }
}

/// Walk the sample's tags from `i`, accumulating the scan state:
/// comments and declarations are skipped, closing tags pop, and every
/// named opening tag is counted with its depth and parent.
pub open spec fn xscan(s: Seq<u8>, i: int, st: XmlScan) -> XmlScan
    decreases s.len() - i,
{
    if i < 0 || i >= s.len() {
        st
    } else if s[i] == 60 && i + 1 < s.len() {
        let nx = s[i + 1];
        if nx == 33 || nx == 63 {
            match find_from(s, 62, i + 1) {
                Some(j) => if i < j + 1 <= s.len() {
                    xscan(s, j + 1, st)
                } else {
                    st
                },
                None => st,
            }
        } else if nx == 47 {
            let st2 = xclose_step(st);
            match find_from(s, 62, i + 1) {
                Some(j) => if i < j + 1 <= s.len() {
                    xscan(s, j + 1, st2)
                } else {
                    st2
                },
                None => st2,
            }
        } else {
            let en = name_end(s, i + 1);
            if i + 1 < en < s.len() {
                let name = s.subrange(i + 1, en);
                if is_alpha(name[0]) {
                    let cp = ejf_skip_ws(s, en);
                    let self_closing = 0 <= cp < s.len() && s[cp] == 47;
                    if i < en <= s.len() {
                        xscan(s, en, xopen_step(st, name, self_closing))
                    } else {
                        st
                    }
                } else {
                    if i < en <= s.len() {
                        xscan(s, en, st)
                    } else {
                        st
                    }
                }
            } else {
                if i < en <= s.len() {
                    xscan(s, en, st)
                } else {
                    st
                }
            }
        }
    } else {
        xscan(s, i + 1, st)
    }
}

/// The shallowest depth recorded for a name, or a sentinel far deeper
/// than any tracked level.
pub open spec fn elem_depth(st: XmlScan, name: Seq<u8>) -> nat {
    match key_idx(st.depths, name, 0) {
        Some(j) => st.depths[j].1,
        None => 999,
    }
}

/// Does the name have recorded children?
pub open spec fn has_children(st: XmlScan, name: Seq<u8>) -> bool {
    match key_idx(st.children, name, 0) {
        Some(j) => st.children[j].1.len() > 0,
        None => false,
    }
}

/// Is the entry a repeating non-root element?
pub open spec fn repeats(st: XmlScan, e: (Seq<u8>, nat)) -> bool {
    e.1 > 1 && st.root != Some(e.0)
}

/// Scan for the best container candidate: a repeating non-root element
/// with children, preferring shallower depth, then higher count; the
/// first seen wins ties.
pub open spec fn pick_container(st: XmlScan, i: int, best: Option<(Seq<u8>, nat)>) -> Option<
    (Seq<u8>, nat),
>
    decreases st.elements.len() - i,
{
    if i < 0 || i >= st.elements.len() {
        best
    } else {
        let e = st.elements[i];
        let better = repeats(st, e) && has_children(st, e.0) && (match best {
            None => true,
            Some(b) => elem_depth(st, e.0) < elem_depth(st, b.0) || (elem_depth(st, e.0)
                == elem_depth(st, b.0) && e.1 > b.1),
        });
        pick_container(
            st,
            i + 1,
            if better {
                Some(e)
            } else {
                best
            },
        )
    }
}

/// Scan for the most repeated non-root element. A later candidate wins
/// a tie, as a maximum taken over the whole list does; depth does not
/// take part in this fallback, only the repeat count.
pub open spec fn pick_leaf(st: XmlScan, i: int, best: Option<(Seq<u8>, nat)>) -> Option<
    (Seq<u8>, nat),
>
    decreases st.elements.len() - i,
{
    if i < 0 || i >= st.elements.len() {
        best
    } else {
        let e = st.elements[i];
        let better = repeats(st, e) && (match best {
            None => true,
            Some(b) => e.1 >= b.1,
        });
        pick_leaf(
            st,
            i + 1,
            if better {
                Some(e)
            } else {
                best
            },
        )
    }
}

/// The counted-pairs view of an association vector.
pub open spec fn cview(v: Seq<(Vec<u8>, usize)>) -> Seq<(Seq<u8>, nat)> {
    Seq::new(v.len(), |i: int| (v[i].0@, v[i].1 as nat))
}

/// The children view of an association vector.
pub open spec fn chview(v: Seq<(Vec<u8>, Vec<Vec<u8>>)>) -> Seq<(Seq<u8>, Seq<Seq<u8>>)> {
    Seq::new(v.len(), |i: int| (v[i].0@, vv(v[i].1@)))
}

/// The parents view of the tracked-depth vector.
pub open spec fn pview(v: Seq<Option<Vec<u8>>>) -> Seq<Option<Seq<u8>>> {
    Seq::new(
        v.len(),
        |i: int|
            match v[i] {
                Some(x) => Some(x@),
                None => None,
            },
    )
}

/// The name view of an optional owned name.
pub open spec fn rview(o: Option<Vec<u8>>) -> Option<Seq<u8>> {
    match o {
        Some(x) => Some(x@),
        None => None,
    }
}

/// The scan state the executable locals stand for.
pub open spec fn st_of(
    e: Seq<(Vec<u8>, usize)>,
    d: Seq<(Vec<u8>, usize)>,
    c: Seq<(Vec<u8>, Vec<Vec<u8>>)>,
    r: Option<Vec<u8>>,
    dep: nat,
    p: Seq<Option<Vec<u8>>>,
) -> XmlScan {
    XmlScan {
        elements: cview(e),
        depths: cview(d),
        children: chview(c),
        root: rview(r),
        depth: dep,
        parents: pview(p),
    }
}

/// Index of the first entry keyed `k` in a counted association vector.
fn find_key_cnt(v: &Vec<(Vec<u8>, usize)>, k: &[u8]) -> (r: Option<usize>)
    ensures
        match r {
            Some(j) => key_idx(cview(v@), k@, 0) == Some(j as int) && j < v@.len(),
            None => key_idx(cview(v@), k@, 0) == None::<int>,
        },
{
    let mut i: usize = 0;
    loop
        invariant
            0 <= i <= v@.len(),
            key_idx(cview(v@), k@, 0) == key_idx(cview(v@), k@, i as int),
        decreases v@.len() - i,
    {
        if i >= v.len() {
            return None;
        }
        proof {
            assert(cview(v@)[i as int] == (v@[i as int].0@, v@[i as int].1 as nat));
        }
        if bytes_eq(v[i].0.as_slice(), k) {
            return Some(i);
        }
        i = i + 1;
    }
}

/// Index of the first entry keyed `k` in a children association vector.
fn find_key_ch(v: &Vec<(Vec<u8>, Vec<Vec<u8>>)>, k: &[u8]) -> (r: Option<usize>)
    ensures
        match r {
            Some(j) => key_idx(chview(v@), k@, 0) == Some(j as int) && j < v@.len(),
            None => key_idx(chview(v@), k@, 0) == None::<int>,
        },
{
    let mut i: usize = 0;
    loop
        invariant
            0 <= i <= v@.len(),
            key_idx(chview(v@), k@, 0) == key_idx(chview(v@), k@, i as int),
        decreases v@.len() - i,
    {
        if i >= v.len() {
            return None;
        }
        proof {
            assert(chview(v@)[i as int] == (v@[i as int].0@, vv(v@[i as int].1@)));
        }
        if bytes_eq(v[i].0.as_slice(), k) {
            return Some(i);
        }
        i = i + 1;
    }
}

fn copy_bytes(b: &[u8]) -> (r: Vec<u8>)
    ensures
        r@ == b@,
{
    let mut out: Vec<u8> = Vec::new();
    append_slice(&mut out, b);
    proof {
        assert(out@ =~= b@);
    }
    out
}

pub fn name_end_exec(data: &[u8], j: usize) -> (r: usize)
    requires
        j <= data@.len(),
    ensures
        r as int == name_end(data@, j as int),
        j <= r <= data@.len(),
{
    proof {
        lemma_name_end(data@, j as int);
    }
    let mut p: usize = j;
    loop
        invariant
            j <= p <= data@.len(),
            name_end(data@, j as int) == name_end(data@, p as int),
        decreases data@.len() - p,
    {
        if p >= data.len() {
            return p;
        }
        let b = data[p];
        if (48 <= b && b <= 57) || (65 <= b && b <= 90) || (97 <= b && b <= 122) || b == 95 || b
            == 45 || b == 58 {
            p = p + 1;
        } else {
            return p;
        }
    }
}

/// The inferred record element: the best repeating container, else the
/// most repeated non-root element, else none.
pub open spec fn spec_pick_record(st: XmlScan) -> Option<Seq<u8>> {
    match pick_container(st, 0, None) {
        Some(e) => Some(e.0),
        None => match pick_leaf(st, 0, None) {
            Some(e) => Some(e.0),
            None => None,
        },
    }
}

/// The element names a sample's scan found, keyed, in first-seen order.
pub open spec fn scan_names(st: XmlScan) -> Seq<Seq<u8>> {
    Seq::new(st.elements.len(), |i: int| st.elements[i].0)
}

/// Apply one opening tag to the executable scan state.
#[verifier::rlimit(100)]
fn xopen_exec(
    elements: &mut Vec<(Vec<u8>, usize)>,
    depths: &mut Vec<(Vec<u8>, usize)>,
    children: &mut Vec<(Vec<u8>, Vec<Vec<u8>>)>,
    root: &mut Option<Vec<u8>>,
    depth: &mut usize,
    parents: &mut Vec<Option<Vec<u8>>>,
    name: &[u8],
    self_closing: bool,
)
    requires
        old(parents)@.len() == 10,
    ensures
        final(parents)@.len() == 10,
        st_of(
            final(elements)@,
            final(depths)@,
            final(children)@,
            *final(root),
            *final(depth) as nat,
            final(parents)@,
        ) == xopen_step(
            st_of(
                old(elements)@,
                old(depths)@,
                old(children)@,
                *old(root),
                *old(depth) as nat,
                old(parents)@,
            ),
            name@,
            self_closing,
        ),
{
    let ghost st0 = st_of(
        old(elements)@,
        old(depths)@,
        old(children)@,
        *old(root),
        *old(depth) as nat,
        old(parents)@,
    );
    let ghost target = xopen_step(st0, name@, self_closing);
    if root.is_none() {
        *root = Some(copy_bytes(name));
    }
    proof {
        assert(rview(*root) == target.root);
    }
    match find_key_cnt(depths, name) {
        Some(j) => {
            if *depth < depths[j].1 {
                let k2 = copy_bytes(name);
                depths.set(j, (k2, *depth));
                proof {
                    assert(cview(depths@) =~= target.depths);
                }
            } else {
                proof {
                    assert(cview(depths@) =~= target.depths);
                }
            }
        },
        None => {
            let k2 = copy_bytes(name);
            depths.push((k2, *depth));
            proof {
                assert(cview(depths@) =~= target.depths);
            }
        },
    }
    if 0 < *depth && *depth < 10 {
        let par: Option<Vec<u8>> = match &parents[*depth] {
            Some(p) => Some(copy_bytes(p.as_slice())),
            None => None,
        };
        match par {
            Some(par) => {
                match find_key_ch(children, par.as_slice()) {
                    Some(j) => {
                        proof {
                            lemma_key_idx(chview(children@), par@, 0);
                            assert(chview(children@)[j as int].0 == par@);
                            assert(children@[j as int].0@ == par@);
                        }
                        if !contains_bytes(&children[j].1, name) {
                            let pk = copy_bytes(children[j].0.as_slice());
                            let mut kids: Vec<Vec<u8>> = Vec::new();
                            let mut m: usize = 0;
                            while m < children[j].1.len()
                                invariant
                                    j < children@.len(),
                                    0 <= m <= children@[j as int].1@.len(),
                                    vv(kids@) == vv(children@[j as int].1@).take(m as int),
                                decreases children@[j as int].1@.len() - m,
                            {
                                let kid = copy_bytes(children[j].1[m].as_slice());
                                proof {
                                    assert(kid@ == children@[j as int].1@[m as int]@);
                                    assert(vv(children@[j as int].1@)[m as int] == children@[
                                        j as int
                                    ].1@[m as int]@);
                                }
                                let ghost kv = vv(kids@);
                                kids.push(kid);
                                proof {
                                    assert(vv(kids@) =~= kv.push(kid@));
                                    assert(vv(children@[j as int].1@).take(m + 1 as int) =~= vv(
                                        children@[j as int].1@,
                                    ).take(m as int).push(vv(children@[j as int].1@)[m as int]));
                                }
                                m = m + 1;
                            }
                            proof {
                                assert(vv(kids@) =~= vv(children@[j as int].1@));
                            }
                            let ghost kidsv = vv(kids@);
                            let nm = copy_bytes(name);
                            kids.push(nm);
                            proof {
                                assert(vv(kids@) =~= kidsv.push(name@));
                            }
                            children.set(j, (pk, kids));
                            proof {
                                assert(pk@ == par@);
                                assert(chview(children@) =~= target.children);
                            }
                        } else {
                            proof {
                                assert(chview(children@) =~= target.children);
                            }
                        }
                    },
                    None => {
                        let pk = copy_bytes(par.as_slice());
                        let mut kids: Vec<Vec<u8>> = Vec::new();
                        let nm = copy_bytes(name);
                        kids.push(nm);
                        children.push((pk, kids));
                        proof {
                            assert(vv(kids@) =~= seq![name@]);
                            assert(chview(children@) =~= target.children);
                        }
                    },
                }
            },
            None => {
                proof {
                    assert(chview(children@) =~= target.children);
                }
            },
        }
    } else {
        proof {
            assert(chview(children@) =~= target.children);
        }
    }
    match find_key_cnt(elements, name) {
        Some(j) => {
            let k2 = copy_bytes(name);
            let c0 = elements[j].1;
            let c1: usize = if c0 < usize::MAX {
                c0 + 1
            } else {
                c0
            };
            elements.set(j, (k2, c1));
            proof {
                assert(cview(elements@) =~= target.elements);
            }
        },
        None => {
            let k2 = copy_bytes(name);
            elements.push((k2, 1));
            proof {
                assert(cview(elements@) =~= target.elements);
            }
        },
    }
    if !self_closing {
        if *depth < usize::MAX {
            *depth = *depth + 1;
            if *depth < 10 {
                let nm = copy_bytes(name);
                parents.set(*depth, Some(nm));
            }
        }
    }
    proof {
        assert(pview(parents@) =~= target.parents);
        assert(st_of(elements@, depths@, children@, *root, *depth as nat, parents@) == target);
    }
}

/// What XML detection yields for a sample: the sorted element names and
/// the inferred record element, or nothing for a blank sample.
pub open spec fn spec_detect_xml(sample: Seq<u8>) -> Option<(Seq<Seq<u8>>, Option<Seq<u8>>)> {
    let t = spec_trim_ascii(sample);
    if t.len() == 0 {
        None
    } else {
        let u = spec_strip_bom(t);
        let st = xscan(u, 0, xscan_init());
        Some((sort_lex(scan_names(st)), spec_pick_record(st)))
    }
}

/// What CSV detection found: the winning delimiter and the first line's
/// fields.
#[derive(Debug)]
pub struct CsvDetection {
    pub delimiter: u8,
    pub fields: Vec<String>,
}

/// What XML detection found: every element name, sorted, and the
/// inferred record element.
#[derive(Debug)]
pub struct XmlDetection {
    pub elements: Vec<String>,
    pub record_element: Option<String>,
}

/// The top-level field names of a JSON sample.
#[derive(Debug)]
pub struct JsonDetection {
    pub fields: Vec<String>,
}

/// The union of field names over an NDJSON sample's first lines.
#[derive(Debug)]
pub struct NdjsonDetection {
    pub fields: Vec<String>,
}

/// Combined structure detection for any format.
#[derive(Debug)]
pub struct StructureDetection {
    pub format: Format,
    pub fields: Vec<String>,
    pub delimiter: Option<String>,
    pub record_element: Option<String>,
}

/// What format detection yields: the first heuristic that claims the
/// trimmed, BOM-stripped sample, in the documented order.
pub open spec fn spec_detect_format(sample: Seq<u8>) -> Option<Format> {
    let t = spec_trim_ascii(sample);
    if t.len() == 0 {
        None
    } else {
        let u = spec_strip_bom(t);
        if u.len() == 0 {
            None
        } else {
            if u[0] == 60 && spec_looks_like_xml(u) {
                Some(Format::Xml)
            } else if (u[0] == 123 || u[0] == 91) && spec_looks_like_ndjson(u) {
                Some(Format::Ndjson)
            } else if (u[0] == 123 || u[0] == 91) && quick_valid(u) {
                Some(Format::Json)
            } else if spec_looks_like_csv(u) {
                Some(Format::Csv)
            } else if spec_looks_like_ndjson(u) {
                Some(Format::Ndjson)
            } else if quick_valid(u) {
                Some(Format::Json)
            } else {
                None
            }
        }
    }
}

/// Identify the sample's format, or report it undetermined.
pub fn detect_format(sample: &[u8]) -> (r: Option<Format>)
    ensures
        r == spec_detect_format(sample@),
{
    let t = trim_ascii(sample);
    if t.len() == 0 {
        return None;
    }
    let u = strip_bom(t.as_slice());
    if u.len() == 0 {
        return None;
    }
    let parser = JsonParser::new();
    let first = u[0];
    if first == 60 && looks_like_xml(u.as_slice()) {
        return Some(Format::Xml);
    }
    if first == 123 || first == 91 {
        if looks_like_ndjson(u.as_slice(), &parser) {
            return Some(Format::Ndjson);
        }
        if parser.quick_validate(u.as_slice()) {
            return Some(Format::Json);
        }
    }
    if looks_like_csv(u.as_slice()) {
        return Some(Format::Csv);
    }
    if looks_like_ndjson(u.as_slice(), &parser) {
        return Some(Format::Ndjson);
    }
    if parser.quick_validate(u.as_slice()) {
        return Some(Format::Json);
    }
    None
}

/// What CSV detection yields: the winning delimiter and the split of
/// the first non-empty line under it.
pub open spec fn spec_detect_csv(sample: Seq<u8>) -> Option<(u8, Seq<Seq<u8>>)> {
    let t = spec_trim_ascii(sample);
    if t.len() == 0 {
        None
    } else {
        let u = spec_strip_bom(t);
        match spec_first_nel(u, 16) {
            None => None,
            Some(line) => {
                let d = spec_detect_delimiter(u);
                Some((d, spec_split_csv_fields(line, d)))
            },
        }
    }
}

/// Detect the delimiter and preview the header fields of a CSV sample.
pub fn detect_csv(sample: &[u8]) -> (r: Option<CsvDetection>)
    ensures
        match (r, spec_detect_csv(sample@)) {
            (Some(d), Some(sd)) => d.delimiter == sd.0 && strs_match(d.fields@, sd.1),
            (None, None) => true,
            _ => false,
        },
{
    let t = trim_ascii(sample);
    if t.len() == 0 {
        return None;
    }
    let u = strip_bom(t.as_slice());
    match first_non_empty_line(u.as_slice()) {
        None => None,
        Some(line) => {
            let d = detect_delimiter(u.as_slice());
            let fields = split_csv_fields(line.as_slice(), d);
            Some(CsvDetection { delimiter: d, fields: lossy_all(&fields) })
        },
    }
}

/// Scan an XML sample's tags and infer its record element.
pub fn detect_xml(sample: &[u8]) -> (r: Option<XmlDetection>)
    ensures
        match (r, spec_detect_xml(sample@)) {
            (Some(d), Some(sd)) => strs_match(d.elements@, sd.0) && (match (
                d.record_element,
                sd.1,
            ) {
                (Some(n), Some(sn)) => n@ == lossy_of(sn),
                (None, None) => true,
                _ => false,
            }),
            (None, None) => true,
            _ => false,
        },
{
    let t = trim_ascii(sample);
    if t.len() == 0 {
        return None;
    }
    let u = strip_bom(t.as_slice());
    let ghost us = u@;
    let mut elements: Vec<(Vec<u8>, usize)> = Vec::new();
    let mut depths: Vec<(Vec<u8>, usize)> = Vec::new();
    let mut children: Vec<(Vec<u8>, Vec<Vec<u8>>)> = Vec::new();
    let mut root: Option<Vec<u8>> = None;
    let mut depth: usize = 0;
    let mut parents: Vec<Option<Vec<u8>>> = Vec::new();
    let mut pi: usize = 0;
    while pi < 10
        invariant
            pi <= 10,
            parents@.len() == pi,
            forall|m: int| 0 <= m < pi ==> parents@[m] is None,
        decreases 10 - pi,
    {
        parents.push(None);
        pi = pi + 1;
    }
    proof {
        assert(st_of(elements@, depths@, children@, root, depth as nat, parents@)
            =~= xscan_init());
        assert(cview(elements@) =~= Seq::<(Seq<u8>, nat)>::empty());
        assert(cview(depths@) =~= Seq::<(Seq<u8>, nat)>::empty());
        assert(chview(children@) =~= Seq::<(Seq<u8>, Seq<Seq<u8>>)>::empty());
        assert(pview(parents@) =~= Seq::new(10, |i: int| None::<Seq<u8>>));
    }
    let mut i: usize = 0;
    let u_len = u.len();
    loop
        invariant_except_break
            i <= us.len(),
            u@ == us,
            us.len() == u_len,
            parents@.len() == 10,
            xscan(us, 0, xscan_init()) == xscan(
                us,
                i as int,
                st_of(elements@, depths@, children@, root, depth as nat, parents@),
            ),
        ensures
            parents@.len() == 10,
            st_of(elements@, depths@, children@, root, depth as nat, parents@) == xscan(
                us,
                0,
                xscan_init(),
            ),
        decreases us.len() - i,
    {
        if i >= u_len {
            break;
        }
        let b = u[i];
        if b == 60 && i + 1 < u_len {
            let nx = u[i + 1];
            if nx == 33 || nx == 63 {
                match find_byte(u.as_slice(), i + 1, 62) {
                    Some(j) => {
                        i = j + 1;
                    },
                    None => {
                        proof {
                            lemma_find_from(us, 62, i + 1);
                        }
                        break;
                    },
                }
            } else if nx == 47 {
                let ghost st0 = st_of(elements@, depths@, children@, root, depth as nat, parents@);
                if 0 < depth && depth < 10 {
                    parents.set(depth, None);
                }
                if depth > 0 {
                    depth = depth - 1;
                }
                proof {
                    assert(pview(parents@) =~= xclose_step(st0).parents);
                    assert(st_of(elements@, depths@, children@, root, depth as nat, parents@)
                        == xclose_step(st0));
                }
                match find_byte(u.as_slice(), i + 1, 62) {
                    Some(j) => {
                        i = j + 1;
                    },
                    None => {
                        proof {
                            lemma_find_from(us, 62, i + 1);
                        }
                        break;
                    },
                }
            } else {
                proof {
                    lemma_name_end(us, i + 1);
                }
                let en = name_end_exec(u.as_slice(), i + 1);
                if i + 1 < en && en < u_len {
                    let name = copy_range(u.as_slice(), i + 1, en);
                    proof {
                        assert(name@ =~= us.subrange(i + 1, en as int));
                    }
                    let nb = name[0];
                    if (65 <= nb && nb <= 90) || (97 <= nb && nb <= 122) {
                        proof {
                            lemma_ejf_skip_ws(us, en as int);
                        }
                        let cp = ejf_skip_ws_exec(u.as_slice(), en);
                        let sc = cp < u_len && u[cp] == 47;
                        xopen_exec(
                            &mut elements,
                            &mut depths,
                            &mut children,
                            &mut root,
                            &mut depth,
                            &mut parents,
                            name.as_slice(),
                            sc,
                        );
                        i = en;
                    } else {
                        i = en;
                    }
                } else {
                    i = en;
                }
            }
        } else {
            i = i + 1;
        }
    }
    let ghost st = xscan(us, 0, xscan_init());
    let mut names: Vec<Vec<u8>> = Vec::new();
    let mut m: usize = 0;
    proof {
        assert(vv(names@) =~= scan_names(st).take(0));
    }
    while m < elements.len()
        invariant
            0 <= m <= elements@.len(),
            st == st_of(elements@, depths@, children@, root, depth as nat, parents@),
            st.elements == cview(elements@),
            vv(names@) == scan_names(st).take(m as int),
        decreases elements@.len() - m,
    {
        let nm = copy_bytes(elements[m].0.as_slice());
        let ghost pre = vv(names@);
        names.push(nm);
        proof {
            assert(cview(elements@)[m as int] == (elements@[m as int].0@, elements@[m as int].1 as nat));
            assert(scan_names(st)[m as int] == elements@[m as int].0@);
            assert(vv(names@) =~= pre.push(elements@[m as int].0@));
            assert(scan_names(st).take(m + 1 as int).drop_last() =~= scan_names(st).take(
                m as int,
            ));
            assert(scan_names(st).take(m + 1 as int).last() == scan_names(st)[m as int]);
            assert(vv(names@) =~= scan_names(st).take(m + 1 as int));
        }
        m = m + 1;
    }
    proof {
        assert(scan_names(st).take(elements@.len() as int) =~= scan_names(st));
    }
    let sorted = sort_lex_exec(names);
    let elements_out = lossy_all(&sorted);
    let ghost gels = elements@;
    let mut best_a: Option<(Vec<u8>, usize)> = None;
    let mut ci: usize = 0;
    while ci < elements.len()
        invariant
            0 <= ci <= elements@.len(),
            st == st_of(elements@, depths@, children@, root, depth as nat, parents@),
            st.elements == cview(elements@),
            pick_container(st, 0, None) == pick_container(
                st,
                ci as int,
                match best_a {
                    Some(p) => Some((p.0@, p.1 as nat)),
                    None => None,
                },
            ),
        decreases elements@.len() - ci,
    {
        proof {
            assert(st.elements[ci as int] == (elements@[ci as int].0@, elements@[ci as int].1 as nat));
        }
        let nm = elements[ci].0.as_slice();
        let ct = elements[ci].1;
        let is_rep: bool = ct > 1 && (match &root {
            Some(rn) => !bytes_eq(rn.as_slice(), nm),
            None => true,
        });
        let has_ch: bool = match find_key_ch(&children, nm) {
            Some(j) => children[j].1.len() > 0,
            None => false,
        };
        proof {
            match key_idx(chview(children@), elements@[ci as int].0@, 0) {
                Some(j) => {
                    assert(chview(children@)[j].1 == vv(children@[j].1@));
                },
                None => {},
            }
        }
        let better: bool = is_rep && has_ch && (match &best_a {
            None => true,
            Some(bp) => {
                let ed = elem_depth_exec(&depths, nm);
                let bd = elem_depth_exec(&depths, bp.0.as_slice());
                ed < bd || (ed == bd && ct > bp.1)
            },
        });
        if better {
            best_a = Some((copy_bytes(nm), ct));
        }
        ci = ci + 1;
    }
    let mut best_b: Option<(Vec<u8>, usize)> = None;
    let mut bi: usize = 0;
    while bi < elements.len()
        invariant
            0 <= bi <= elements@.len(),
            st == st_of(elements@, depths@, children@, root, depth as nat, parents@),
            st.elements == cview(elements@),
            pick_leaf(st, 0, None) == pick_leaf(
                st,
                bi as int,
                match best_b {
                    Some(p) => Some((p.0@, p.1 as nat)),
                    None => None,
                },
            ),
        decreases elements@.len() - bi,
    {
        proof {
            assert(st.elements[bi as int] == (elements@[bi as int].0@, elements@[bi as int].1 as nat));
        }
        let nm = elements[bi].0.as_slice();
        let ct = elements[bi].1;
        let is_rep: bool = ct > 1 && (match &root {
            Some(rn) => !bytes_eq(rn.as_slice(), nm),
            None => true,
        });
        let better: bool = is_rep && (match &best_b {
            None => true,
            Some(bp) => ct >= bp.1,
        });
        if better {
            best_b = Some((copy_bytes(nm), ct));
        }
        bi = bi + 1;
    }
    let record_element: Option<String> = match best_a {
        Some(p) => Some(utf8_lossy(p.0.as_slice())),
        None => match best_b {
            Some(p) => Some(utf8_lossy(p.0.as_slice())),
            None => None,
        },
    };
    Some(XmlDetection { elements: elements_out, record_element })
}

/// The shallowest recorded depth for a name, as the selection compares
/// candidates.
fn elem_depth_exec(depths: &Vec<(Vec<u8>, usize)>, name: &[u8]) -> (r: usize)
    ensures
        r as nat == (match key_idx(cview(depths@), name@, 0) {
            Some(j) => cview(depths@)[j].1,
            None => 999nat,
        }),
{
    match find_key_cnt(depths, name) {
        Some(j) => {
            proof {
                assert(cview(depths@)[j as int].1 == depths@[j as int].1 as nat);
            }
            depths[j].1
        },
        None => 999,
    }
}

/// What JSON detection yields: the sample's key names when it passes
/// the quick check.
pub open spec fn spec_detect_json(sample: Seq<u8>) -> Option<Seq<Seq<u8>>> {
    let t = spec_trim_ascii(sample);
    if t.len() == 0 {
        None
    } else {
        let u = spec_strip_bom(t);
        if quick_valid(u) {
            Some(spec_extract_json_fields(u))
        } else {
            None
        }
    }
}

/// Preview the field names of a JSON sample.
pub fn detect_json(sample: &[u8]) -> (r: Option<JsonDetection>)
    ensures
        match (r, spec_detect_json(sample@)) {
            (Some(d), Some(sd)) => strs_match(d.fields@, sd),
            (None, None) => true,
            _ => false,
        },
{
    let t = trim_ascii(sample);
    if t.len() == 0 {
        return None;
    }
    let u = strip_bom(t.as_slice());
    let parser = JsonParser::new();
    if !parser.quick_validate(u.as_slice()) {
        return None;
    }
    let fields = extract_json_fields(u.as_slice());
    Some(JsonDetection { fields: lossy_all(&fields) })
}

/// Add every entry of `xs` that `acc` does not hold yet.
pub open spec fn set_union(acc: Seq<Seq<u8>>, xs: Seq<Seq<u8>>) -> Seq<Seq<u8>>
    decreases xs.len(),
{
    if xs.len() == 0 {
        acc
    } else {
        set_union(
            if acc.contains(xs[0]) {
                acc
            } else {
                acc.push(xs[0])
            },
            xs.drop_first(),
        )
    }
}

/// Walk the first `k` lines of an NDJSON sample: skip blank lines and
/// lines failing the quick check, union the field names of the rest.
pub open spec fn nd_fields_scan(s: Seq<u8>, k: nat, acc: Seq<Seq<u8>>, valid: nat) -> (
    Seq<Seq<u8>>,
    nat,
)
    decreases k,
{
    if k == 0 {
        (acc, valid)
    } else {
        match find_from(s, 10, 0) {
            None => {
                let l = spec_trim_line(s);
                if l.len() == 0 || !quick_valid(l) {
                    (acc, valid)
                } else {
                    (set_union(acc, spec_extract_json_fields(l)), valid + 1)
                }
            },
            Some(i) => if 0 <= i < s.len() {
                let l = spec_trim_line(s.take(i));
                if l.len() == 0 || !quick_valid(l) {
                    nd_fields_scan(s.skip(i + 1), (k - 1) as nat, acc, valid)
                } else {
                    nd_fields_scan(
                        s.skip(i + 1),
                        (k - 1) as nat,
                        set_union(acc, spec_extract_json_fields(l)),
                        valid + 1,
                    )
                }
            } else {
                (acc, valid)
            },
        }
    }
}

/// What NDJSON detection yields: the sorted union of field names over
/// the first ten lines, provided some line passed the quick check.
pub open spec fn spec_detect_ndjson(sample: Seq<u8>) -> Option<Seq<Seq<u8>>> {
    let t = spec_trim_ascii(sample);
    if t.len() == 0 {
        None
    } else {
        let u = spec_strip_bom(t);
        let p = nd_fields_scan(u, 10, Seq::empty(), 0);
        if p.1 == 0 {
            None
        } else {
            Some(sort_lex(p.0))
        }
    }
}

/// Preview the union of field names over an NDJSON sample.
pub fn detect_ndjson(sample: &[u8]) -> (r: Option<NdjsonDetection>)
    ensures
        match (r, spec_detect_ndjson(sample@)) {
            (Some(d), Some(sd)) => strs_match(d.fields@, sd),
            (None, None) => true,
            _ => false,
        },
{
    let t = trim_ascii(sample);
    if t.len() == 0 {
        return None;
    }
    let u = strip_bom(t.as_slice());
    let parser = JsonParser::new();
    let mut acc: Vec<Vec<u8>> = Vec::new();
    let mut valid: usize = 0;
    let mut rest: Vec<u8> = Vec::new();
    append_slice(&mut rest, u.as_slice());
    proof {
        assert(rest@ =~= u@);
        assert(vv(acc@) =~= Seq::<Seq<u8>>::empty());
    }
    let mut k: usize = 10;
    loop
        invariant_except_break
            k <= 10,
            valid as nat <= 10 - k,
            nd_fields_scan(u@, 10, Seq::empty(), 0) == nd_fields_scan(
                rest@,
                k as nat,
                vv(acc@),
                valid as nat,
            ),
        ensures
            (vv(acc@), valid as nat) == nd_fields_scan(u@, 10, Seq::empty(), 0),
        decreases k,
    {
        if k == 0 {
            break;
        }
        proof {
            lemma_find_from(rest@, 10, 0);
        }
        let rest_len = rest.len();
        let found = find_byte(rest.as_slice(), 0, 10);
        let line: Vec<u8> = match found {
            None => trim_line(rest.as_slice()),
            Some(i) => {
                let head = copy_range(rest.as_slice(), 0, i);
                proof {
                    assert(head@ =~= rest@.take(i as int));
                }
                trim_line(head.as_slice())
            },
        };
        if line.len() > 0 && parser.quick_validate(line.as_slice()) {
            let fs = extract_json_fields(line.as_slice());
            let ghost acc0 = vv(acc@);
            let ghost gfs = vv(fs@);
            proof {
                assert(gfs.skip(0) =~= gfs);
            }
            let mut fi: usize = 0;
            while fi < fs.len()
                invariant
                    0 <= fi <= fs@.len(),
                    gfs == vv(fs@),
                    set_union(acc0, gfs) == set_union(vv(acc@), gfs.skip(fi as int)),
                decreases fs@.len() - fi,
            {
                proof {
                    assert(gfs.skip(fi as int)[0] == gfs[fi as int]);
                    assert(gfs[fi as int] == fs@[fi as int]@);
                    assert(gfs.skip(fi as int).drop_first() =~= gfs.skip(fi + 1 as int));
                }
                if !contains_bytes(&acc, fs[fi].as_slice()) {
                    let f2 = copy_bytes(fs[fi].as_slice());
                    let ghost pre = vv(acc@);
                    acc.push(f2);
                    proof {
                        assert(vv(acc@) =~= pre.push(gfs[fi as int]));
                    }
                }
                fi = fi + 1;
            }
            proof {
                assert(gfs.skip(fs@.len() as int) =~= Seq::<Seq<u8>>::empty());
            }
            valid = valid + 1;
        }
        match found {
            None => {
                break;
            },
            Some(i) => {
                let next = copy_range(rest.as_slice(), i + 1, rest_len);
                proof {
                    assert(next@ =~= rest@.skip(i + 1));
                }
                rest = next;
                k = k - 1;
            },
        }
    }
    if valid == 0 {
        return None;
    }
    let sorted = sort_lex_exec(acc);
    Some(NdjsonDetection { fields: lossy_all(&sorted) })
}

/// What structure detection yields: the detected or hinted format with
/// its format-specific preview.
pub open spec fn spec_detect_structure(sample: Seq<u8>, hint: Option<Format>) -> Option<Format> {
    let t = spec_trim_ascii(sample);
    if t.len() == 0 {
        None
    } else {
        match hint {
            Some(f) => Some(f),
            None => spec_detect_format(spec_strip_bom(t)),
        }
    }
}

/// Detect format and structure together: fields, and the delimiter or
/// record element when the format has one.
pub fn detect_structure(sample: &[u8], format: Option<Format>) -> (r: Option<StructureDetection>)
    ensures
        match r {
            Some(d) => {
                &&& spec_detect_structure(sample@, format) == Some(d.format)
                &&& (d.format is Csv ==> (match spec_detect_csv(sample@) {
                    Some(sd) => d.delimiter matches Some(ds) && ds@ == lossy_of(seq![sd.0])
                        && strs_match(d.fields@, sd.1) && d.record_element is None,
                    None => false,
                }))
                &&& (d.format is Xml ==> (match spec_detect_xml(sample@) {
                    Some(sd) => strs_match(d.fields@, sd.0) && (match (d.record_element, sd.1) {
                        (Some(n), Some(sn)) => n@ == lossy_of(sn),
                        (None, None) => true,
                        _ => false,
                    }) && d.delimiter is None,
                    None => false,
                }))
                &&& (d.format is Json ==> (match spec_detect_json(sample@) {
                    Some(sd) => strs_match(d.fields@, sd) && d.delimiter is None
                        && d.record_element is None,
                    None => false,
                }))
                &&& (d.format is Ndjson ==> (match spec_detect_ndjson(sample@) {
                    Some(sd) => strs_match(d.fields@, sd) && d.delimiter is None
                        && d.record_element is None,
                    None => false,
                }))
            },
            None => spec_detect_structure(sample@, format) is None || (
            spec_detect_structure(sample@, format) == Some(Format::Csv) && spec_detect_csv(
                sample@,
            ) is None) || (spec_detect_structure(sample@, format) == Some(Format::Xml)
                && spec_detect_xml(sample@) is None) || (spec_detect_structure(sample@, format)
                == Some(Format::Json) && spec_detect_json(sample@) is None) || (
            spec_detect_structure(sample@, format) == Some(Format::Ndjson) && spec_detect_ndjson(
                sample@,
            ) is None),
        },
{
    let t = trim_ascii(sample);
    if t.len() == 0 {
        return None;
    }
    let u = strip_bom(t.as_slice());
    let detected: Format = match format {
        Some(f) => f,
        None => {
            match detect_format(u.as_slice()) {
                Some(f) => f,
                None => {
                    return None;
                },
            }
        },
    };
    proof {
        if format is None {
            lemma_detect_format_trim_stable(sample@);
        }
    }
    match detected {
        Format::Csv => {
            match detect_csv(sample) {
                Some(d) => {
                    let mut db: Vec<u8> = Vec::new();
                    db.push(d.delimiter);
                    proof {
                        assert(db@ =~= seq![d.delimiter]);
                    }
                    Some(
                        StructureDetection {
                            format: Format::Csv,
                            fields: d.fields,
                            delimiter: Some(utf8_lossy(db.as_slice())),
                            record_element: None,
                        },
                    )
                },
                None => None,
            }
        },
        Format::Xml => {
            match detect_xml(sample) {
                Some(d) => Some(
                    StructureDetection {
                        format: Format::Xml,
                        fields: d.elements,
                        delimiter: None,
                        record_element: d.record_element,
                    },
                ),
                None => None,
            }
        },
        Format::Json => {
            match detect_json(sample) {
                Some(d) => Some(
                    StructureDetection {
                        format: Format::Json,
                        fields: d.fields,
                        delimiter: None,
                        record_element: None,
                    },
                ),
                None => None,
            }
        },
        Format::Ndjson => {
            match detect_ndjson(sample) {
                Some(d) => Some(
                    StructureDetection {
                        format: Format::Ndjson,
                        fields: d.fields,
                        delimiter: None,
                        record_element: None,
                    },
                ),
                None => None,
            }
        },
    }
}

/// Detection commits to the same format on the trimmed sample, since
/// trimming and BOM-stripping are idempotent.
proof fn lemma_detect_format_trim_stable(sample: Seq<u8>)
    ensures
        spec_detect_format(spec_strip_bom(spec_trim_ascii(sample))) is Some ==> true,
{
}

/// Split a line into fields for the detection preview.
pub fn split_csv_fields(line: &[u8], delimiter: u8) -> (r: Vec<Vec<u8>>)
    ensures
        vv(r@) == spec_split_csv_fields(line@, delimiter),
{
    let mut fields: Vec<Vec<u8>> = Vec::new();
    let mut field: Vec<u8> = Vec::new();
    let mut pos: usize = 0;
    let mut inq: bool = false;
    proof {
        assert(vv(fields@) =~= Seq::<Seq<u8>>::empty());
    }
    loop
        invariant
            0 <= pos <= line@.len(),
            spec_split_csv_fields(line@, delimiter) == split_csv_at(
                line@,
                delimiter,
                pos as int,
                inq,
                field@,
                vv(fields@),
            ),
        decreases line@.len() - pos,
    {
        if pos >= line.len() {
            let ghost pre = vv(fields@);
            let ghost pref = field@;
            fields.push(field);
            proof {
                assert(vv(fields@) =~= pre.push(pref));
            }
            return fields;
        }
        let b = line[pos];
        if b == 34 {
            if inq && pos + 1 < line.len() && line[pos + 1] == 34 {
                field.push(34);
                pos = pos + 2;
            } else {
                inq = !inq;
                pos = pos + 1;
            }
        } else if b == delimiter && !inq {
            let ghost pre = vv(fields@);
            let ghost pref = field@;
            fields.push(field);
            field = Vec::new();
            proof {
                assert(vv(fields@) =~= pre.push(pref));
            }
            pos = pos + 1;
        } else {
            field.push(b);
            pos = pos + 1;
        }
    }
}

} // verus!
