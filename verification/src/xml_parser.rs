//! The XML side of the engine: configuration, the record-element
//! extractor that turns XML into NDJSON, and the writer that wraps
//! NDJSON records back into a `<root>`/`<record>` document.
use vstd::prelude::*;
use vstd::string::StringExecFns;
use vstd::string::StringSliceAdditionalSpecFns;
use crate::bytes::{append_slice, vv};
use crate::error::ConvertError;
use crate::json::{JsonV, JsonValue, jv, jv_pairs, spec_parse, parse_json, lemma_jv_pairs_len};
use crate::json_canon::{canon_obj, canon_pairs};
use crate::json_out::ser;
use vstd::utf8::encode_utf8;

verus! {

/// XML parser configuration.
#[derive(Debug, Clone)]
pub struct XmlConfig {
    /// The element whose occurrences mark record boundaries.
    pub record_element: String,
    /// Whether to trim text content.
    pub trim_text: bool,
    /// Whether attributes appear in output, keyed with an `@` prefix.
    pub include_attributes: bool,
    /// Whether to expand entities beyond the predefined five.
    pub expand_entities: bool,
}

impl XmlConfig {
    /// Defaults: `row` records, trimmed text, attributes included.
    pub fn new_default() -> (r: XmlConfig)
        ensures
            r.record_element@ == "row"@,
            r.trim_text == true,
            r.include_attributes == true,
            r.expand_entities == false,
    {
        XmlConfig {
            record_element: String::from_str("row"),
            trim_text: true,
            include_attributes: true,
            expand_entities: false,
        }
    }
}

/// How one byte of element text or name is escaped in XML output.
pub open spec fn xml_esc_byte(b: u8) -> Seq<u8> {
    if b == 38 {
        seq![38u8, 97u8, 109u8, 112u8, 59u8]
    } else if b == 60 {
        seq![38u8, 108u8, 116u8, 59u8]
    } else if b == 62 {
        seq![38u8, 103u8, 116u8, 59u8]
    } else if b == 34 {
        seq![38u8, 113u8, 117u8, 111u8, 116u8, 59u8]
    } else {
        seq![b]
    }
}

/// A byte string escaped for XML output.
pub open spec fn xml_esc(s: Seq<u8>) -> Seq<u8>
    decreases s.len(),
{
    if s.len() == 0 {
        Seq::empty()
    } else {
        xml_esc(s.drop_last()) + xml_esc_byte(s.last())
    }
}

pub proof fn lemma_xml_esc_take(s: Seq<u8>, i: int)
    requires
        0 <= i < s.len(),
    ensures
        xml_esc(s.take(i + 1)) == xml_esc(s.take(i)) + xml_esc_byte(s[i]),
{
    assert(s.take(i + 1).drop_last() =~= s.take(i));
    assert(s.take(i + 1).last() == s[i]);
}

/// Append the XML-escaped form of `s` to `out`.
pub fn write_xml_escaped(out: &mut Vec<u8>, s: &[u8])
    ensures
        final(out)@ == old(out)@ + xml_esc(s@),
{
    let mut i: usize = 0;
    proof {
        assert(s@.take(0) =~= Seq::<u8>::empty());
    }
    while i < s.len()
        invariant
            0 <= i <= s@.len(),
            out@ == old(out)@ + xml_esc(s@.take(i as int)),
        decreases s@.len() - i,
    {
        let b = s[i];
        proof {
            lemma_xml_esc_take(s@, i as int);
        }
        if b == 38 {
            out.push(38);
            out.push(97);
            out.push(109);
            out.push(112);
            out.push(59);
        } else if b == 60 {
            out.push(38);
            out.push(108);
            out.push(116);
            out.push(59);
        } else if b == 62 {
            out.push(38);
            out.push(103);
            out.push(116);
            out.push(59);
        } else if b == 34 {
            out.push(38);
            out.push(113);
            out.push(117);
            out.push(111);
            out.push(116);
            out.push(59);
        } else {
            out.push(b);
        }
        assert(out@ =~= old(out)@ + xml_esc(s@.take(i + 1 as int)));
        i = i + 1;
    }
    proof {
        assert(s@.take(s@.len() as int) =~= s@);
    }
}

/// The text a field value contributes to its element: strings as their
/// bytes, numbers as their lexemes, booleans spelled out, null empty,
/// and nested shapes as their JSON text.
pub open spec fn xml_value_text(v: JsonV) -> Seq<u8> {
    match v {
        JsonV::Str(s) => s,
        JsonV::Num(n) => n,
        JsonV::Bool(t) => if t {
            seq![116u8, 114u8, 117u8, 101u8]
        } else {
            seq![102u8, 97u8, 108u8, 115u8, 101u8]
        },
        JsonV::Null => Seq::empty(),
        JsonV::Arr(_) => ser(v),
        JsonV::Obj(_) => ser(v),
    }
}

/// One field element line: four spaces, the escaped key as the element
/// name, the escaped value text, the closing tag and a newline.
pub open spec fn xml_field_line(k: Seq<u8>, v: JsonV) -> Seq<u8> {
    seq![32u8, 32u8, 32u8, 32u8, 60u8] + xml_esc(k) + seq![62u8] + xml_esc(xml_value_text(v))
        + seq![60u8, 47u8] + xml_esc(k) + seq![62u8, 10u8]
}

/// The field lines of a record, in member order.
pub open spec fn xml_field_lines(ps: Seq<(Seq<u8>, JsonV)>) -> Seq<u8>
    decreases ps.len(),
{
    if ps.len() == 0 {
        Seq::empty()
    } else {
        xml_field_lines(ps.drop_last()) + xml_field_line(ps.last().0, ps.last().1)
    }
}

/// A whole record element, members in canonical (key-sorted) order.
pub open spec fn xml_record(record_name: Seq<u8>, ps: Seq<(Seq<u8>, JsonV)>) -> Seq<u8> {
    seq![32u8, 32u8, 60u8] + record_name + seq![62u8, 10u8] + xml_field_lines(canon_obj(ps))
        + seq![32u8, 32u8, 60u8, 47u8] + record_name + seq![62u8, 10u8]
}

/// The opening line of the document.
pub open spec fn xml_header(root_name: Seq<u8>) -> Seq<u8> {
    seq![60u8] + root_name + seq![62u8, 10u8]
}

/// The closing line of the document.
pub open spec fn xml_footer(root_name: Seq<u8>) -> Seq<u8> {
    seq![60u8, 47u8] + root_name + seq![62u8, 10u8]
}

/// What one NDJSON line contributes: a record element for an object,
/// nothing for anything that does not parse to one.
pub open spec fn xml_line_out(record_name: Seq<u8>, line: Seq<u8>) -> Seq<u8> {
    match spec_parse(line) {
        Some(v) => match v {
            JsonV::Obj(ps) => xml_record(record_name, ps),
            _ => Seq::empty(),
        },
        None => Seq::empty(),
    }
}

/// First occurrence of `pat` as a substring at or after `i`.
pub open spec fn find_sub(s: Seq<u8>, pat: Seq<u8>, i: int) -> Option<int>
    decreases s.len() - i,
{
    if i < 0 || pat.len() <= 0 || i + pat.len() > s.len() {
        None
    } else if s.subrange(i, i + pat.len()) == pat {
        Some(i)
    } else {
        find_sub(s, pat, i + 1)
    }
}

pub proof fn lemma_find_sub(s: Seq<u8>, pat: Seq<u8>, i: int)
    requires
        0 <= i,
    ensures
        match find_sub(s, pat, i) {
            Some(j) => i <= j && j + pat.len() <= s.len() && s.subrange(j, j + pat.len()) == pat,
            None => true,
        },
    decreases s.len() - i,
{
    if pat.len() > 0 && i + pat.len() <= s.len() && s.subrange(i, i + pat.len()) != pat {
        lemma_find_sub(s, pat, i + 1);
    }
}

/// Search for `pat` as a substring at or after `start`.
pub fn find_sub_exec(data: &[u8], pat: &[u8], start: usize) -> (r: Option<usize>)
    requires
        pat@.len() >= 1,
    ensures
        match r {
            Some(j) => find_sub(data@, pat@, start as int) == Some(j as int) && start <= j && j
                + pat@.len() <= data@.len(),
            None => find_sub(data@, pat@, start as int) == None::<int>,
        },
{
    proof {
        lemma_find_sub(data@, pat@, start as int);
    }
    if data.len() < pat.len() {
        return None;
    }
    let data_len = data.len();
    let pat_len = pat.len();
    let mut i: usize = start;
    loop
        invariant
            start <= i,
            pat@.len() >= 1,
            pat@.len() == pat_len,
            data@.len() == data_len,
            pat@.len() <= data@.len(),
            find_sub(data@, pat@, start as int) == find_sub(data@, pat@, i as int),
        decreases data@.len() - i,
    {
        if i > data_len - pat_len {
            return None;
        }
        let mut m: usize = 0;
        let mut same: bool = true;
        while m < pat_len
            invariant
                0 <= m <= pat@.len(),
                pat@.len() == pat_len,
                data@.len() == data_len,
                i + pat@.len() <= data@.len(),
                same == (forall|t: int|
                    0 <= t < m ==> data@[i + t] == pat@[t]),
            decreases pat@.len() - m,
        {
            if data[i + m] != pat[m] {
                same = false;
                proof {
                    assert(data@[i + m] != pat@[m as int]);
                }
                m = pat_len;
            } else {
                m = m + 1;
            }
        }
        if same {
            proof {
                assert(data@.subrange(i as int, i + pat@.len()) =~= pat@);
            }
            return Some(i);
        }
        proof {
            assert(data@.subrange(i as int, i + pat@.len()) != pat@) by {
                let t = choose|t: int| 0 <= t < pat@.len() && data@[i + t] != pat@[t];
                assert(data@.subrange(i as int, i + pat@.len())[t] != pat@[t]);
            }
        }
        i = i + 1;
    }
}

/// Insert a child value under a key: a repeated key is promoted to an
/// array, later occurrences appended.
pub open spec fn xv_insert(ps: Seq<(Seq<u8>, JsonV)>, k: Seq<u8>, v: JsonV) -> Seq<
    (Seq<u8>, JsonV),
> {
    match crate::json_canon::assoc_idx(ps, k, 0) {
        Some(i) => if 0 <= i < ps.len() {
            match ps[i].1 {
                JsonV::Arr(xs) => ps.update(i, (k, JsonV::Arr(xs.push(v)))),
                _ => ps.update(i, (k, JsonV::Arr(seq![ps[i].1, v]))),
            }
        } else {
            ps
        },
        None => ps.push((k, v)),
    }
}

/// Insert a child value into the executable pair list.
fn xv_insert_exec(ps: &mut Vec<(Vec<u8>, JsonValue)>, k: Vec<u8>, v: JsonValue)
    ensures
        jv_pairs(final(ps)@) == xv_insert(jv_pairs(old(ps)@), k@, jv(v)),
{
    proof {
        lemma_jv_pairs_len(ps@);
    }
    let mut i: usize = 0;
    while i < ps.len()
        invariant
            0 <= i <= ps@.len(),
            ps@ == old(ps)@,
            jv_pairs(ps@).len() == ps@.len(),
            forall|m: int|
                0 <= m < ps@.len() ==> jv_pairs(ps@)[m] == (ps@[m].0@, jv(ps@[m].1)),
            crate::json_canon::assoc_idx(jv_pairs(ps@), k@, 0)
                == crate::json_canon::assoc_idx(jv_pairs(ps@), k@, i as int),
        decreases ps@.len() - i,
    {
        if crate::bytes::bytes_eq(ps[i].0.as_slice(), k.as_slice()) {
            proof {
                assert(jv_pairs(ps@)[i as int].0 == k@);
                assert(crate::json_canon::assoc_idx(jv_pairs(ps@), k@, 0) == Some(i as int));
            }
            let ghost gold = jv_pairs(ps@);
            let ghost goldv = jv(ps@[i as int].1);
            let mut old_pair = (Vec::new(), JsonValue::Null);
            std::mem::swap(&mut old_pair, &mut ps[i]);
            proof {
                assert(jv(old_pair.1) == goldv);
            }
            let merged: JsonValue = match old_pair.1 {
                JsonValue::Arr(mut xs) => {
                    let ghost gxs = xs@;
                    proof {
                        crate::json::lemma_jv_list_push(gxs, v);
                        assert(goldv == JsonV::Arr(crate::json::jv_list(gxs)));
                    }
                    xs.push(v);
                    JsonValue::Arr(xs)
                },
                other => {
                    let mut two: Vec<JsonValue> = Vec::new();
                    proof {
                        crate::json::lemma_jv_list_push(Seq::<JsonValue>::empty(), other);
                    }
                    let ghost gother = jv(other);
                    two.push(other);
                    proof {
                        crate::json::lemma_jv_list_push(two@, v);
                    }
                    two.push(v);
                    proof {
                        assert(crate::json::jv_list(two@) =~= seq![gother, jv(v)]);
                    }
                    JsonValue::Arr(two)
                },
            };
            let ghost gmerged = jv(merged);
            let ghost gk = k@;
            ps.set(i, (k, merged));
            proof {
                crate::json::lemma_jv_pairs_len(ps@);
                crate::json::lemma_jv_pairs_len(old(ps)@);
                assert(jv_pairs(ps@) =~= gold.update(i as int, (gk, gmerged)));
                assert(jv_pairs(ps@) =~= xv_insert(gold, gk, jv(v)));
            }
            return ;
        }
        i = i + 1;
    }
    proof {
        crate::json::lemma_jv_pairs_push(ps@, k, v);
    }
    ps.push((k, v));
    proof {
        assert(jv_pairs(ps@) =~= xv_insert(jv_pairs(old(ps)@), k@, jv(v)));
    }
}

/// Decode XML entities in a text run: the five predefined names and
/// numeric references; anything else is an error.
pub open spec fn xdec(s: Seq<u8>, i: int, acc: Seq<u8>) -> Option<Seq<u8>>
    decreases s.len() - i,
{
    if i < 0 || i >= s.len() {
        Some(acc)
    } else if s[i] == 38 {
        if i + 5 <= s.len() && s.subrange(i + 1, i + 5) == seq![97u8, 109u8, 112u8, 59u8] {
            xdec(s, i + 5, acc.push(38))
        } else if i + 4 <= s.len() && s.subrange(i + 1, i + 4) == seq![108u8, 116u8, 59u8] {
            xdec(s, i + 4, acc.push(60))
        } else if i + 4 <= s.len() && s.subrange(i + 1, i + 4) == seq![103u8, 116u8, 59u8] {
            xdec(s, i + 4, acc.push(62))
        } else if i + 6 <= s.len() && s.subrange(i + 1, i + 6) == seq![
            113u8,
            117u8,
            111u8,
            116u8,
            59u8,
        ] {
            xdec(s, i + 6, acc.push(34))
        } else if i + 6 <= s.len() && s.subrange(i + 1, i + 6) == seq![
            97u8,
            112u8,
            111u8,
            115u8,
            59u8,
        ] {
            xdec(s, i + 6, acc.push(39))
        } else {
            match numeric_entity(s, i) {
                Some((cp, e)) => if i < e <= s.len() {
                    xdec(s, e, acc + crate::json::utf8_enc(cp))
                } else {
                    None
                },
                None => None,
            }
        }
    } else {
        xdec(s, i + 1, acc.push(s[i]))
    }
}

/// A numeric character reference at `i`: its code point and the index
/// just past the semicolon.
pub open spec fn numeric_entity(s: Seq<u8>, i: int) -> Option<(int, int)> {
    if i + 2 < s.len() && s[i + 1] == 35 {
        if s[i + 2] == 120 {
            let e = hex_digits_end(s, i + 3);
            if e > i + 3 && e < s.len() && s[e] == 59 {
                let cp = hex_value(s, i + 3, e);
                if 0 <= cp < 0x110000 && !(0xD800 <= cp <= 0xDFFF) {
                    Some((cp, e + 1))
                } else {
                    None
                }
            } else {
                None
            }
        } else {
            let e = crate::json::scan_digits(s, i + 2);
            if e > i + 2 && e < s.len() && s[e] == 59 {
                let cp = dec_value(s, i + 2, e);
                if 0 <= cp < 0x110000 && !(0xD800 <= cp <= 0xDFFF) {
                    Some((cp, e + 1))
                } else {
                    None
                }
            } else {
                None
            }
        }
    } else {
        None
    }
}

pub open spec fn hex_digits_end(s: Seq<u8>, i: int) -> int
    decreases s.len() - i,
{
    if 0 <= i < s.len() && crate::json::hex_val(s[i]) >= 0 {
        hex_digits_end(s, i + 1)
    } else {
        i
    }
}

/// Value of the hex digits in `[a, e)`, capped so it stays bounded.
pub open spec fn hex_value(s: Seq<u8>, a: int, e: int) -> int
    decreases e - a,
{
    if a >= e {
        0
    } else {
        let prev = hex_value(s, a, e - 1);
        if prev >= 0x110000 {
            0x110000
        } else {
            prev * 16 + (if 0 <= e - 1 < s.len() {
                crate::json::hex_val(s[e - 1])
            } else {
                0
            })
        }
    }
}

/// Value of the decimal digits in `[a, e)`, capped so it stays bounded.
pub open spec fn dec_value(s: Seq<u8>, a: int, e: int) -> int
    decreases e - a,
{
    if a >= e {
        0
    } else {
        let prev = dec_value(s, a, e - 1);
        if prev >= 0x110000 {
            0x110000
        } else {
            prev * 10 + (if 0 <= e - 1 < s.len() {
                s[e - 1] - 48
            } else {
                0
            })
        }
    }
}

/// The closing `>` of a tag, from `i`, skipping quoted attribute
/// values; `q` is the open quote byte, zero outside quotes.
pub open spec fn tag_end(s: Seq<u8>, i: int, q: u8) -> Option<int>
    decreases s.len() - i,
{
    if i < 0 || i >= s.len() {
        None
    } else if q == 0 {
        if s[i] == 62 {
            Some(i)
        } else if s[i] == 34 || s[i] == 39 {
            tag_end(s, i + 1, s[i])
        } else {
            tag_end(s, i + 1, 0)
        }
    } else {
        if s[i] == q {
            tag_end(s, i + 1, 0)
        } else {
            tag_end(s, i + 1, q)
        }
    }
}

pub proof fn lemma_tag_end(s: Seq<u8>, i: int, q: u8)
    requires
        0 <= i <= s.len(),
    ensures
        match tag_end(s, i, q) {
            Some(j) => i <= j < s.len() && s[j] == 62,
            None => true,
        },
    decreases s.len() - i,
{
    if i < s.len() {
        if q == 0 {
            if s[i] != 62 {
                if s[i] == 34 || s[i] == 39 {
                    lemma_tag_end(s, i + 1, s[i]);
                } else {
                    lemma_tag_end(s, i + 1, 0);
                }
            }
        } else {
            if s[i] == q {
                lemma_tag_end(s, i + 1, 0);
            } else {
                lemma_tag_end(s, i + 1, q);
            }
        }
    }
}

/// The attributes between a tag name and its closing bracket: skip
/// whitespace, read `name="value"` pairs (values raw), prefix keys with
/// `@`; a malformed rest is ignored.
pub open spec fn xattrs(s: Seq<u8>, i: int, end: int, acc: Seq<(Seq<u8>, JsonV)>) -> Seq<
    (Seq<u8>, JsonV),
>
    decreases end - i,
{
    let j = crate::json::skip_ws(s, i);
    if j < i || j >= end || end > s.len() {
        acc
    } else if s[j] == 47 {
        acc
    } else {
        let ne = crate::detect::name_end(s, j);
        if ne <= j || ne >= end {
            acc
        } else if s[ne] != 61 {
            acc
        } else if ne + 1 < end && (s[ne + 1] == 34 || s[ne + 1] == 39) {
            match crate::bytes::find_from(s, s[ne + 1], ne + 2) {
                Some(ve) => if ve < end && i < ve + 1 {
                    xattrs(
                        s,
                        ve + 1,
                        end,
                        upsert_attr(
                            acc,
                            seq![64u8] + s.subrange(j, ne),
                            JsonV::Str(s.subrange(ne + 2, ve)),
                        ),
                    )
                } else {
                    acc
                },
                None => acc,
            }
        } else {
            acc
        }
    }
}

/// Replace-style insert for attributes: the last write wins.
pub open spec fn upsert_attr(ps: Seq<(Seq<u8>, JsonV)>, k: Seq<u8>, v: JsonV) -> Seq<
    (Seq<u8>, JsonV),
> {
    match crate::json_canon::assoc_idx(ps, k, 0) {
        Some(i) => if 0 <= i < ps.len() {
            ps.update(i, (k, v))
        } else {
            ps
        },
        None => ps.push((k, v)),
    }
}

/// Parse element content until the matching close tag. Yields the
/// element's classification (object for children, string for trailing
/// text, nothing when empty), the member list, the shared text state
/// after the close, and the index past it.
pub open spec fn xcontent(
    s: Seq<u8>,
    i: int,
    depth: nat,
    trim: bool,
    close: Seq<u8>,
    pairs: Seq<(Seq<u8>, JsonV)>,
    text: Option<Seq<u8>>,
) -> Option<(Option<JsonV>, Seq<(Seq<u8>, JsonV)>, Option<Seq<u8>>, int)>
    decreases depth, s.len() - i, 0int,
{
    if i < 0 || i >= s.len() {
        None
    } else if s[i] == 60 {
        if i + 1 < s.len() && s[i + 1] == 47 {
            let en = crate::detect::name_end(s, i + 2);
            if s.subrange(i + 2, if en <= s.len() && en >= i + 2 {
                en
            } else {
                i + 2
            }) == close {
                let e2 = crate::json::skip_ws(s, en);
                if en >= i + 2 && e2 < s.len() && s[e2] == 62 {
                    if pairs.len() > 0 {
                        Some((Some(JsonV::Obj(pairs)), pairs, text, e2 + 1))
                    } else {
                        match text {
                            Some(t) => Some((Some(JsonV::Str(t)), pairs, None, e2 + 1)),
                            None => Some((None, pairs, None, e2 + 1)),
                        }
                    }
                } else {
                    None
                }
            } else {
                None
            }
        } else if i + 3 < s.len() && s[i + 1] == 33 && s[i + 2] == 45 && s[i + 3] == 45 {
            match find_sub(s, seq![45u8, 45u8, 62u8], i + 4) {
                Some(j) => if i < j + 3 <= s.len() {
                    xcontent(s, j + 3, depth, trim, close, pairs, text)
                } else {
                    None
                },
                None => None,
            }
        } else if i + 1 < s.len() && (s[i + 1] == 33 || s[i + 1] == 63) {
            match crate::bytes::find_from(s, 62, i + 1) {
                Some(j) => if i < j + 1 <= s.len() {
                    xcontent(s, j + 1, depth, trim, close, pairs, text)
                } else {
                    None
                },
                None => None,
            }
        } else {
            let en = crate::detect::name_end(s, i + 1);
            if en <= i + 1 {
                None
            } else {
                let cname = s.subrange(i + 1, en);
                match tag_end(s, en, 0) {
                    None => None,
                    Some(te) => {
                        let selfc = te >= 1 && s[te - 1] == 47;
                        if selfc {
                            if i < te + 1 <= s.len() {
                                xcontent(s, te + 1, depth, trim, close, pairs, None)
                            } else {
                                None
                            }
                        } else if depth == 0 {
                            None
                        } else {
                            match xcontent(
                                s,
                                te + 1,
                                (depth - 1) as nat,
                                trim,
                                cname,
                                Seq::empty(),
                                None,
                            ) {
                                None => None,
                                Some((cval, _cp, ctext, cend)) => {
                                    let pairs2 = match cval {
                                        Some(v) => xv_insert(pairs, cname, v),
                                        None => pairs,
                                    };
                                    if i < cend <= s.len() {
                                        xcontent(s, cend, depth, trim, close, pairs2, ctext)
                                    } else {
                                        None
                                    }
                                },
                            }
                        }
                    },
                }
            }
        }
    } else {
        match crate::bytes::find_from(s, 60, i) {
            None => None,
            Some(j) => {
                let raw = s.subrange(i, if i <= j <= s.len() {
                    j
                } else {
                    i
                });
                let t2 = if trim {
                    crate::detect::spec_trim_ascii(raw)
                } else {
                    raw
                };
                match xdec(t2, 0, Seq::empty()) {
                    None => None,
                    Some(dec) => {
                        let newtext = if crate::detect::spec_trim_ascii(dec).len() > 0 {
                            Some(dec)
                        } else {
                            text
                        };
                        if i < j <= s.len() {
                            xcontent(s, j, depth, trim, close, pairs, newtext)
                        } else {
                            None
                        }
                    },
                }
            },
        }
    }
}

/// Sort every object's members by key, recursively.
pub open spec fn deep_sort(v: JsonV) -> JsonV
    decreases v, 0nat,
{
    match v {
        JsonV::Obj(ps) => JsonV::Obj(crate::json_canon::sort_pairs(ds_pairs(ps))),
        JsonV::Arr(xs) => JsonV::Arr(ds_list(xs)),
        other => other,
    }
}

pub open spec fn ds_pairs(ps: Seq<(Seq<u8>, JsonV)>) -> Seq<(Seq<u8>, JsonV)>
    decreases ps, 1nat,
{
    if ps.len() == 0 {
        Seq::empty()
    } else {
        seq![(ps[0].0, deep_sort(ps[0].1))] + ds_pairs(ps.drop_first())
    }
}

pub open spec fn ds_list(xs: Seq<JsonV>) -> Seq<JsonV>
    decreases xs, 1nat,
{
    if xs.len() == 0 {
        Seq::empty()
    } else {
        seq![deep_sort(xs[0])] + ds_list(xs.drop_first())
    }
}

/// The NDJSON line for one complete record element: its object form,
/// keys sorted at every level, serialized.
pub open spec fn xrec_line(rec: Seq<u8>, trim: bool, attrs_on: bool) -> Option<Seq<u8>> {
    if rec.len() < 1 || rec[0] != 60 {
        None
    } else {
        let ne = crate::detect::name_end(rec, 1);
        if ne <= 1 {
            None
        } else {
            let rname = rec.subrange(1, ne);
            match tag_end(rec, ne, 0) {
                None => None,
                Some(te) => {
                    let attrs = if attrs_on {
                        xattrs(
                            rec,
                            ne,
                            if te >= 1 && rec[te - 1] == 47 {
                                te - 1
                            } else {
                                te
                            },
                            Seq::empty(),
                        )
                    } else {
                        Seq::empty()
                    };
                    if te >= 1 && rec[te - 1] == 47 {
                        Some(ser(deep_sort(JsonV::Obj(attrs))))
                    } else {
                        match xcontent(rec, te + 1, 64, trim, rname, attrs, None) {
                            None => None,
                            Some((_val, ps, _t, _end)) => Some(ser(deep_sort(JsonV::Obj(ps)))),
                        }
                    }
                },
            }
        }
    }
}

/// A byte that can continue an element name.
pub open spec fn is_name_byte(b: u8) -> bool {
    (48 <= b <= 57) || (65 <= b <= 90) || (97 <= b <= 122) || b == 95 || b == 45 || b == 58
}

/// The first occurrence of `<name` at or after `i` that is not a
/// prefix of a longer element name.
pub open spec fn find_rec_start(b: Seq<u8>, name: Seq<u8>, i: int) -> Option<int>
    decreases b.len() - i,
{
    match find_sub(b, seq![60u8] + name, i) {
        None => None,
        Some(rs) => {
            let after = rs + 1 + name.len();
            if after < b.len() && is_name_byte(b[after]) {
                if i < rs + 1 <= b.len() {
                    find_rec_start(b, name, rs + 1)
                } else {
                    None
                }
            } else {
                Some(rs)
            }
        },
    }
}

pub proof fn lemma_find_rec_start(b: Seq<u8>, name: Seq<u8>, i: int)
    requires
        0 <= i,
    ensures
        match find_rec_start(b, name, i) {
            Some(rs) => i <= rs && rs + 1 + name.len() <= b.len(),
            None => true,
        },
    decreases b.len() - i,
{
    lemma_find_sub(b, seq![60u8] + name, i);
    match find_sub(b, seq![60u8] + name, i) {
        None => {},
        Some(rs) => {
            let after = rs + 1 + name.len();
            if after < b.len() && is_name_byte(b[after]) {
                if i < rs + 1 <= b.len() {
                    lemma_find_rec_start(b, name, rs + 1);
                }
            }
        },
    }
}

/// Search for a record start with a proper name boundary.
fn find_rec_start_exec(data: &[u8], pat: &[u8], name_len: usize, start: usize) -> (r: Option<
    usize,
>)
    requires
        pat@.len() >= 1,
        pat@.len() == name_len + 1,
        pat@[0] == 60u8,
    ensures
        match r {
            Some(j) => find_rec_start(data@, pat@.skip(1), start as int) == Some(j as int)
                && start <= j && j + pat@.len() <= data@.len(),
            None => find_rec_start(data@, pat@.skip(1), start as int) == None::<int>,
        },
{
    let dlen = data.len();
    let plen = pat.len();
    let mut i: usize = start;
    loop
        invariant
            start <= i,
            pat@.len() >= 1,
            pat@.len() == name_len + 1,
            pat@[0] == 60u8,
            data@.len() == dlen,
            pat@.len() == plen,
            find_rec_start(data@, pat@.skip(1), start as int) == find_rec_start(
                data@,
                pat@.skip(1),
                i as int,
            ),
        decreases data@.len() - i,
    {
        proof {
            lemma_find_sub(data@, pat@, i as int);
            assert(seq![60u8] + pat@.skip(1) =~= pat@);
        }
        match find_sub_exec(data, pat, i) {
            None => {
                return None;
            },
            Some(rs) => {
                let after = rs + plen;
                if after < dlen {
                    let c = data[after];
                    if (48 <= c && c <= 57) || (65 <= c && c <= 90) || (97 <= c && c <= 122) || c
                        == 95 || c == 45 || c == 58 {
                        i = rs + 1;
                        continue ;
                    }
                }
                return Some(rs);
            },
        }
    }
}

/// Scan a buffer for complete record elements: each one becomes an
/// NDJSON line and is dropped from the buffer; everything from the
/// first incomplete record on is kept.
pub open spec fn xp_scan(b: Seq<u8>, name: Seq<u8>, trim: bool, attrs_on: bool) -> Option<
    (Seq<u8>, nat, Seq<u8>),
>
    decreases b.len(),
{
    match find_rec_start(b, name, 0) {
        None => Some((Seq::empty(), 0, b)),
        Some(rs) => {
            let sf = rs + 1 + name.len();
            match find_sub(b, seq![60u8, 47u8] + name + seq![62u8], sf) {
                None => Some((Seq::empty(), 0, b)),
                Some(re) => {
                    let rend = re + name.len() + 3;
                    if 0 < rend <= b.len() && rs < rend {
                        let rec = b.subrange(rs, rend);
                        match xrec_line(rec, trim, attrs_on) {
                            None => None,
                            Some(line) => match xp_scan(b.skip(rend), name, trim, attrs_on) {
                                None => None,
                                Some((o, c, rest)) => Some((line + seq![10u8] + o, c + 1, rest)),
                            },
                        }
                    } else {
                        Some((Seq::empty(), 0, b))
                    }
                },
            }
        },
    }
}

/// Decode the XML entities of a text run.
fn xdec_exec(s: &[u8]) -> (r: Option<Vec<u8>>)
    ensures
        match r {
            Some(d) => xdec(s@, 0, Seq::empty()) == Some(d@),
            None => xdec(s@, 0, Seq::empty()) == None::<Seq<u8>>,
        },
{
    let mut acc: Vec<u8> = Vec::new();
    let mut i: usize = 0;
    let s_len = s.len();
    proof {
        assert(acc@ =~= Seq::<u8>::empty());
    }
    loop
        invariant
            0 <= i <= s@.len(),
            s@.len() == s_len,
            xdec(s@, 0, Seq::empty()) == xdec(s@, i as int, acc@),
        decreases s@.len() - i,
    {
        if i >= s_len {
            return Some(acc);
        }
        let b = s[i];
        if b == 38 {
            if s_len - i >= 5 && s[i + 1] == 97 && s[i + 2] == 109 && s[i + 3] == 112 && s[i + 4]
                == 59 {
                proof {
                    assert(s@.subrange(i + 1, i + 5) =~= seq![97u8, 109u8, 112u8, 59u8]);
                }
                acc.push(38);
                i = i + 5;
            } else if s_len - i >= 4 && s[i + 1] == 108 && s[i + 2] == 116 && s[i + 3] == 59 {
                proof {
                    assert(s@.subrange(i + 1, i + 4) =~= seq![108u8, 116u8, 59u8]);
                    if i + 5 <= s@.len() {
                        assert(s@.subrange(i + 1, i + 5)[0] == 108);
                    }
                }
                acc.push(60);
                i = i + 4;
            } else if s_len - i >= 4 && s[i + 1] == 103 && s[i + 2] == 116 && s[i + 3] == 59 {
                proof {
                    assert(s@.subrange(i + 1, i + 4) =~= seq![103u8, 116u8, 59u8]);
                    if i + 5 <= s@.len() {
                        assert(s@.subrange(i + 1, i + 5)[0] == 103);
                    }
                }
                acc.push(62);
                i = i + 4;
            } else if s_len - i >= 6 && s[i + 1] == 113 && s[i + 2] == 117 && s[i + 3] == 111
                && s[i + 4] == 116 && s[i + 5] == 59 {
                proof {
                    assert(s@.subrange(i + 1, i + 6) =~= seq![113u8, 117u8, 111u8, 116u8, 59u8]);
                    assert(s@.subrange(i + 1, i + 5)[0] == 113);
                    assert(s@.subrange(i + 1, i + 4)[0] == 113);
                }
                acc.push(34);
                i = i + 6;
            } else if s_len - i >= 6 && s[i + 1] == 97 && s[i + 2] == 112 && s[i + 3] == 111
                && s[i + 4] == 115 && s[i + 5] == 59 {
                proof {
                    assert(s@.subrange(i + 1, i + 6) =~= seq![97u8, 112u8, 111u8, 115u8, 59u8]);
                    assert(s@.subrange(i + 1, i + 5)[1] == 112);
                    assert(s@.subrange(i + 1, i + 4)[1] == 112);
                }
                acc.push(39);
                i = i + 6;
            } else {
                proof {
                    if i + 5 <= s@.len() && s@.subrange(i + 1, i + 5) == seq![
                        97u8,
                        109u8,
                        112u8,
                        59u8,
                    ] {
                        assert(s@[i + 1] == 97 && s@[i + 2] == 109 && s@[i + 3] == 112 && s@[i + 4]
                            == 59);
                    }
                    if i + 4 <= s@.len() && s@.subrange(i + 1, i + 4) == seq![108u8, 116u8, 59u8] {
                        assert(s@[i + 1] == 108 && s@[i + 2] == 116 && s@[i + 3] == 59);
                    }
                    if i + 4 <= s@.len() && s@.subrange(i + 1, i + 4) == seq![103u8, 116u8, 59u8] {
                        assert(s@[i + 1] == 103 && s@[i + 2] == 116 && s@[i + 3] == 59);
                    }
                    if i + 6 <= s@.len() && s@.subrange(i + 1, i + 6) == seq![
                        113u8,
                        117u8,
                        111u8,
                        116u8,
                        59u8,
                    ] {
                        assert(s@[i + 1] == 113);
                    }
                    if i + 6 <= s@.len() && s@.subrange(i + 1, i + 6) == seq![
                        97u8,
                        112u8,
                        111u8,
                        115u8,
                        59u8,
                    ] {
                        assert(s@[i + 1] == 97 && s@[i + 2] == 112);
                    }
                }
                match numeric_entity_exec(s, i) {
                    Some(p) => {
                        crate::json::push_utf8(&mut acc, p.0);
                        i = p.1;
                    },
                    None => {
                        return None;
                    },
                }
            }
        } else {
            acc.push(b);
            i = i + 1;
        }
    }
}

/// Read a numeric character reference at `i`.
fn numeric_entity_exec(s: &[u8], i: usize) -> (r: Option<(u32, usize)>)
    requires
        i < s@.len(),
    ensures
        match r {
            Some(p) => numeric_entity(s@, i as int) == Some((p.0 as int, p.1 as int)) && p.0
                < 0x110000 && i < p.1 <= s@.len(),
            None => numeric_entity(s@, i as int) == None::<(int, int)>,
        },
{
    let s_len = s.len();
    if !(s_len - i > 2 && s[i + 1] == 35) {
        return None;
    }
    if s[i + 2] == 120 {
        proof {
            lemma_hex_digits_end(s@, i + 3);
        }
        let e = hex_digits_end_exec(s, i + 3);
        if e > i + 3 && e < s_len && s[e] == 59 {
            let mut cp: u32 = 0;
            let mut a: usize = i + 3;
            proof {
                assert(hex_value(s@, i + 3, i + 3) == 0);
            }
            while a < e
                invariant
                    i + 3 <= a <= e <= s@.len(),
                    e as int == hex_digits_end(s@, i + 3),
                    forall|k: int|
                        i + 3 <= k < e ==> crate::json::hex_val(#[trigger] s@[k]) >= 0,
                    cp as int == hex_value(s@, i + 3, a as int),
                    cp <= 0x1100000,
                decreases e - a,
            {
                let hv = crate::json::hex_val_exec(s[a]);
                if cp >= 0x110000 {
                    cp = 0x110000;
                } else {
                    cp = cp * 16 + (hv as u32);
                }
                a = a + 1;
            }
            if cp < 0x110000 && !(0xD800 <= cp && cp <= 0xDFFF) {
                return Some((cp, e + 1));
            }
            return None;
        }
        return None;
    } else {
        proof {
            crate::json::lemma_scan_digits(s@, i + 2);
        }
        let e = crate::json::scan_digits_exec(s, i + 2);
        if e > i + 2 && e < s_len && s[e] == 59 {
            let mut cp: u32 = 0;
            let mut a: usize = i + 2;
            proof {
                assert(dec_value(s@, i + 2, i + 2) == 0);
            }
            while a < e
                invariant
                    i + 2 <= a <= e <= s@.len(),
                    e as int == crate::json::scan_digits(s@, i + 2),
                    forall|k: int|
                        i + 2 <= k < e ==> crate::json::is_digit(#[trigger] s@[k]),
                    cp as int == dec_value(s@, i + 2, a as int),
                    cp <= 0x1100000,
                decreases e - a,
            {
                let d = s[a];
                if cp >= 0x110000 {
                    cp = 0x110000;
                } else {
                    cp = cp * 10 + ((d - 48) as u32);
                }
                a = a + 1;
            }
            if cp < 0x110000 && !(0xD800 <= cp && cp <= 0xDFFF) {
                return Some((cp, e + 1));
            }
            return None;
        }
        return None;
    }
}

proof fn lemma_hex_digits_end(s: Seq<u8>, i: int)
    requires
        0 <= i <= s.len(),
    ensures
        i <= hex_digits_end(s, i) <= s.len(),
        forall|k: int| i <= k < hex_digits_end(s, i) ==> crate::json::hex_val(#[trigger] s[k]) >= 0,
    decreases s.len() - i,
{
    if i < s.len() && crate::json::hex_val(s[i]) >= 0 {
        lemma_hex_digits_end(s, i + 1);
    }
}

fn hex_digits_end_exec(s: &[u8], i: usize) -> (r: usize)
    requires
        i <= s@.len(),
    ensures
        r as int == hex_digits_end(s@, i as int),
        i <= r <= s@.len(),
{
    proof {
        lemma_hex_digits_end(s@, i as int);
    }
    let mut p: usize = i;
    loop
        invariant
            i <= p <= s@.len(),
            hex_digits_end(s@, i as int) == hex_digits_end(s@, p as int),
        decreases s@.len() - p,
    {
        if p >= s.len() {
            return p;
        }
        let hv = crate::json::hex_val_exec(s[p]);
        if hv >= 0 {
            p = p + 1;
        } else {
            return p;
        }
    }
}

/// The closing bracket of a tag, skipping quoted attribute values.
fn tag_end_exec(s: &[u8], i: usize) -> (r: Option<usize>)
    requires
        i <= s@.len(),
    ensures
        match r {
            Some(j) => tag_end(s@, i as int, 0) == Some(j as int) && i <= j < s@.len(),
            None => tag_end(s@, i as int, 0) == None::<int>,
        },
{
    proof {
        lemma_tag_end(s@, i as int, 0);
    }
    let mut p: usize = i;
    let mut q: u8 = 0;
    loop
        invariant
            i <= p <= s@.len(),
            tag_end(s@, i as int, 0) == tag_end(s@, p as int, q),
        decreases s@.len() - p,
    {
        if p >= s.len() {
            return None;
        }
        let b = s[p];
        if q == 0 {
            if b == 62 {
                proof {
                    lemma_tag_end(s@, i as int, 0);
                }
                return Some(p);
            } else if b == 34 || b == 39 {
                q = b;
                p = p + 1;
            } else {
                p = p + 1;
            }
        } else {
            if b == q {
                q = 0;
            }
            p = p + 1;
        }
    }
}

/// Parse the attributes of a start tag into `@`-prefixed members.
fn xattrs_exec(s: &[u8], i: usize, end: usize) -> (r: Vec<(Vec<u8>, JsonValue)>)
    requires
        i <= s@.len(),
        end <= s@.len(),
    ensures
        jv_pairs(r@) == xattrs(s@, i as int, end as int, Seq::empty()),
{
    let mut acc: Vec<(Vec<u8>, JsonValue)> = Vec::new();
    let mut pos: usize = i;
    proof {
        assert(jv_pairs(acc@) =~= Seq::<(Seq<u8>, JsonV)>::empty());
    }
    loop
        invariant
            i <= s@.len(),
            pos <= s@.len(),
            end <= s@.len(),
            xattrs(s@, i as int, end as int, Seq::empty()) == xattrs(
                s@,
                pos as int,
                end as int,
                jv_pairs(acc@),
            ),
        decreases s@.len() - pos,
    {
        proof {
            crate::json::lemma_skip_ws(s@, pos as int);
        }
        let j = crate::json::skip_ws_exec(s, pos);
        if j >= end || end > s.len() {
            return acc;
        }
        if s[j] == 47 {
            return acc;
        }
        proof {
            crate::detect::lemma_name_end(s@, j as int);
        }
        let ne = crate::detect::name_end_exec(s, j);
        if ne <= j || ne >= end {
            return acc;
        }
        if s[ne] != 61 {
            return acc;
        }
        if ne + 1 < end && (s[ne + 1] == 34 || s[ne + 1] == 39) {
            proof {
                crate::bytes::lemma_find_from(s@, s@[ne + 1], ne + 2);
            }
            match crate::bytes::find_byte(s, ne + 2, s[ne + 1]) {
                Some(ve) => {
                    if ve < end && pos < ve + 1 {
                        let mut key: Vec<u8> = Vec::new();
                        key.push(64);
                        append_slice(&mut key, crate::bytes::copy_range(s, j, ne).as_slice());
                        proof {
                            assert(key@ =~= seq![64u8] + s@.subrange(j as int, ne as int));
                        }
                        let val = crate::bytes::copy_range(s, ne + 2, ve);
                        proof {
                            assert(val@ =~= s@.subrange(ne + 2, ve as int));
                        }
                        upsert_attr_exec(&mut acc, key, JsonValue::Str(val));
                        pos = ve + 1;
                    } else {
                        return acc;
                    }
                },
                None => {
                    return acc;
                },
            }
        } else {
            return acc;
        }
    }
}

/// Replace-style insert for attribute members.
pub fn upsert_attr_exec(ps: &mut Vec<(Vec<u8>, JsonValue)>, k: Vec<u8>, v: JsonValue)
    ensures
        jv_pairs(final(ps)@) == upsert_attr(jv_pairs(old(ps)@), k@, jv(v)),
{
    proof {
        lemma_jv_pairs_len(ps@);
    }
    let mut i: usize = 0;
    while i < ps.len()
        invariant
            0 <= i <= ps@.len(),
            ps@ == old(ps)@,
            jv_pairs(ps@).len() == ps@.len(),
            forall|m: int|
                0 <= m < ps@.len() ==> jv_pairs(ps@)[m] == (ps@[m].0@, jv(ps@[m].1)),
            crate::json_canon::assoc_idx(jv_pairs(ps@), k@, 0)
                == crate::json_canon::assoc_idx(jv_pairs(ps@), k@, i as int),
        decreases ps@.len() - i,
    {
        if crate::bytes::bytes_eq(ps[i].0.as_slice(), k.as_slice()) {
            proof {
                crate::json_canon::lemma_jv_pairs_update(ps@, i as int, k, v);
            }
            ps.set(i, (k, v));
            proof {
                assert(jv_pairs(ps@) =~= upsert_attr(jv_pairs(old(ps)@), ps@[i as int].0@, jv(
                    ps@[i as int].1,
                )));
            }
            return ;
        }
        i = i + 1;
    }
    proof {
        crate::json::lemma_jv_pairs_push(ps@, k, v);
    }
    ps.push((k, v));
    proof {
        assert(jv_pairs(ps@) =~= upsert_attr(jv_pairs(old(ps)@), k@, jv(v)));
    }
}

/// Parse element content up to the matching close tag.
#[verifier::rlimit(100)]
fn xcontent_exec(
    s: &[u8],
    i: usize,
    depth: u32,
    trim: bool,
    close: &[u8],
    pairs: Vec<(Vec<u8>, JsonValue)>,
    text: Option<Vec<u8>>,
) -> (r: Option<(Option<JsonValue>, Vec<(Vec<u8>, JsonValue)>, Option<Vec<u8>>, usize)>)
    requires
        i <= s@.len(),
    ensures
        match r {
            Some(p) => xcontent(
                s@,
                i as int,
                depth as nat,
                trim,
                close@,
                jv_pairs(pairs@),
                match text {
                    Some(t) => Some(t@),
                    None => None,
                },
            ) == Some(
                (
                    match p.0 {
                        Some(v) => Some(jv(v)),
                        None => None::<JsonV>,
                    },
                    jv_pairs(p.1@),
                    match p.2 {
                        Some(t) => Some(t@),
                        None => None::<Seq<u8>>,
                    },
                    p.3 as int,
                ),
            ) && p.3 <= s@.len(),
            None => xcontent(
                s@,
                i as int,
                depth as nat,
                trim,
                close@,
                jv_pairs(pairs@),
                match text {
                    Some(t) => Some(t@),
                    None => None,
                },
            ) == None::<(Option<JsonV>, Seq<(Seq<u8>, JsonV)>, Option<Seq<u8>>, int)>,
        },
    decreases depth, s@.len() - i,
{
    let s_len = s.len();
    let mut pos: usize = i;
    let mut cur_pairs = pairs;
    let mut cur_text = text;
    loop
        invariant
            i <= pos <= s@.len(),
            s@.len() == s_len,
            xcontent(
                s@,
                i as int,
                depth as nat,
                trim,
                close@,
                jv_pairs(pairs@),
                match text {
                    Some(t) => Some(t@),
                    None => None::<Seq<u8>>,
                },
            ) == xcontent(
                s@,
                pos as int,
                depth as nat,
                trim,
                close@,
                jv_pairs(cur_pairs@),
                match cur_text {
                    Some(t) => Some(t@),
                    None => None::<Seq<u8>>,
                },
            ),
        decreases s@.len() - pos,
    {
        if pos >= s_len {
            return None;
        }
        let b = s[pos];
        if b == 60 {
            if pos + 1 < s_len && s[pos + 1] == 47 {
                proof {
                    crate::detect::lemma_name_end(s@, pos + 2);
                }
                if pos + 2 > s_len {
                    return None;
                }
                let en = crate::detect::name_end_exec(s, pos + 2);
                let nm = crate::bytes::copy_range(s, pos + 2, en);
                proof {
                    assert(nm@ =~= s@.subrange(pos + 2, en as int));
                }
                if !crate::bytes::bytes_eq(nm.as_slice(), close) {
                    return None;
                }
                proof {
                    crate::json::lemma_skip_ws(s@, en as int);
                }
                let e2 = crate::json::skip_ws_exec(s, en);
                if e2 < s_len && s[e2] == 62 {
                    if cur_pairs.len() > 0 {
                        
                        let mut out_pairs: Vec<(Vec<u8>, JsonValue)> = Vec::new();
                        std::mem::swap(&mut out_pairs, &mut cur_pairs);
                        let cloned = clone_pairs_pub(&out_pairs);
                        return Some((Some(JsonValue::Obj(cloned)), out_pairs, cur_text, e2 + 1));
                    } else {
                        match cur_text {
                            Some(t) => {
                                return Some((Some(JsonValue::Str(t)), cur_pairs, None, e2 + 1));
                            },
                            None => {
                                return Some((None, cur_pairs, None, e2 + 1));
                            },
                        }
                    }
                } else {
                    return None;
                }
            } else if s_len - pos > 3 && s[pos + 1] == 33 && s[pos + 2] == 45 && s[pos + 3] == 45 {
                let pat: [u8; 3] = [45, 45, 62];
                match find_sub_exec(s, &pat, pos + 4) {
                    Some(j) => {
                        proof {
                            assert(pat@ =~= seq![45u8, 45u8, 62u8]);
                        }
                        pos = j + 3;
                    },
                    None => {
                        proof {
                            assert(pat@ =~= seq![45u8, 45u8, 62u8]);
                        }
                        return None;
                    },
                }
            } else if pos + 1 < s_len && (s[pos + 1] == 33 || s[pos + 1] == 63) {
                match crate::bytes::find_byte(s, pos + 1, 62) {
                    Some(j) => {
                        pos = j + 1;
                    },
                    None => {
                        return None;
                    },
                }
            } else {
                proof {
                    crate::detect::lemma_name_end(s@, pos + 1);
                }
                let en = crate::detect::name_end_exec(s, pos + 1);
                if en <= pos + 1 {
                    return None;
                }
                let cname = crate::bytes::copy_range(s, pos + 1, en);
                proof {
                    assert(cname@ =~= s@.subrange(pos + 1, en as int));
                }
                match tag_end_exec(s, en) {
                    None => {
                        return None;
                    },
                    Some(te) => {
                        let selfc = te >= 1 && s[te - 1] == 47;
                        if selfc {
                            cur_text = None;
                            pos = te + 1;
                        } else if depth == 0 {
                            return None;
                        } else {
                            let empty_pairs: Vec<(Vec<u8>, JsonValue)> = Vec::new();
                            proof {
                                assert(jv_pairs(empty_pairs@) =~= Seq::<(Seq<u8>, JsonV)>::empty());
                            }
                            match xcontent_exec(
                                s,
                                te + 1,
                                depth - 1,
                                trim,
                                cname.as_slice(),
                                empty_pairs,
                                None,
                            ) {
                                None => {
                                    return None;
                                },
                                Some(cres) => {
                                    let (cval, _cp, ctext, cend) = cres;
                                    match cval {
                                        Some(v) => {
                                            xv_insert_exec(&mut cur_pairs, cname, v);
                                        },
                                        None => {},
                                    }
                                    cur_text = ctext;
                                    if !(pos < cend && cend <= s_len) {
                                        return None;
                                    }
                                    pos = cend;
                                },
                            }
                        }
                    },
                }
            }
        } else {
            match crate::bytes::find_byte(s, pos, 60) {
                None => {
                    return None;
                },
                Some(j) => {
                    let raw = crate::bytes::copy_range(s, pos, j);
                    proof {
                        assert(raw@ =~= s@.subrange(pos as int, j as int));
                    }
                    let t2: Vec<u8> = if trim {
                        crate::detect::trim_ascii(raw.as_slice())
                    } else {
                        raw
                    };
                    match xdec_exec(t2.as_slice()) {
                        None => {
                            return None;
                        },
                        Some(dec) => {
                            let trimmed_check = crate::detect::trim_ascii(dec.as_slice());
                            if trimmed_check.len() > 0 {
                                cur_text = Some(dec);
                            }
                            pos = j;
                        },
                    }
                },
            }
        }
    }
}

/// A deep copy of a member list.
pub fn clone_pairs_pub(ps: &Vec<(Vec<u8>, JsonValue)>) -> (r: Vec<(Vec<u8>, JsonValue)>)
    ensures
        jv_pairs(r@) == jv_pairs(ps@),
{
    let mut out: Vec<(Vec<u8>, JsonValue)> = Vec::new();
    let mut i: usize = 0;
    proof {
        lemma_jv_pairs_len(ps@);
        assert(jv_pairs(out@) =~= jv_pairs(ps@).take(0));
    }
    while i < ps.len()
        invariant
            0 <= i <= ps@.len(),
            jv_pairs(ps@).len() == ps@.len(),
            forall|m: int|
                0 <= m < ps@.len() ==> jv_pairs(ps@)[m] == (ps@[m].0@, jv(ps@[m].1)),
            jv_pairs(out@) == jv_pairs(ps@).take(i as int),
        decreases ps@.len() - i,
    {
        let mut key: Vec<u8> = Vec::new();
        append_slice(&mut key, ps[i].0.as_slice());
        proof {
            assert(key@ =~= ps@[i as int].0@);
        }
        let v = crate::json_canon::clone_json(&ps[i].1);
        proof {
            crate::json::lemma_jv_pairs_push(out@, key, v);
        }
        out.push((key, v));
        proof {
            assert(jv_pairs(ps@).take(i + 1 as int) =~= jv_pairs(ps@).take(i as int).push(
                jv_pairs(ps@)[i as int],
            ));
        }
        i = i + 1;
    }
    proof {
        assert(jv_pairs(ps@).take(ps@.len() as int) =~= jv_pairs(ps@));
    }
    out
}

/// Sort every object's members by key, recursively.
pub fn deep_sort_exec(v: &JsonValue) -> (r: JsonValue)
    ensures
        jv(r) == deep_sort(jv(*v)),
    decreases v, 0nat,
{
    match v {
        JsonValue::Obj(ps) => {
            let mut out: Vec<(Vec<u8>, JsonValue)> = Vec::new();
            let ghost gds = ds_pairs(jv_pairs(ps@));
            proof {
                lemma_jv_pairs_len(ps@);
                lemma_ds_pairs_len(jv_pairs(ps@));
                assert(jv_pairs(out@) =~= crate::json_canon::sort_pairs(gds.take(0)));
            }
            let mut i: usize = 0;
            while i < ps.len()
                invariant
                    0 <= i <= ps@.len(),
                    *v == JsonValue::Obj(*ps),
                    gds == ds_pairs(jv_pairs(ps@)),
                    gds.len() == ps@.len(),
                    jv_pairs(ps@).len() == ps@.len(),
                    forall|m: int|
                        0 <= m < ps@.len() ==> jv_pairs(ps@)[m] == (ps@[m].0@, jv(ps@[m].1)),
                    forall|m: int|
                        0 <= m < ps@.len() ==> gds[m] == (
                            jv_pairs(ps@)[m].0,
                            deep_sort(jv_pairs(ps@)[m].1),
                        ),
                    jv_pairs(out@) == crate::json_canon::sort_pairs(gds.take(i as int)),
                decreases ps@.len() - i,
            {
                let mut key: Vec<u8> = Vec::new();
                append_slice(&mut key, ps[i].0.as_slice());
                proof {
                    assert(key@ =~= ps@[i as int].0@);
                    assert(decreases_to!(*v => (*v)->Obj_0));
                    assert((*v)->Obj_0 == *ps);
                    assert(decreases_to!(*ps => ps@));
                    assert(decreases_to!(ps@ => ps@[i as int]));
                    assert(decreases_to!(ps@[i as int] => ps@[i as int].1));
                }
                let sv = deep_sort_exec(&ps[i].1);
                proof {
                    assert(gds.take(i + 1 as int).drop_last() =~= gds.take(i as int));
                    assert(gds.take(i + 1 as int).last() == gds[i as int]);
                }
                crate::json_canon::insert_pair_sorted_exec(&mut out, key, sv);
                i = i + 1;
            }
            proof {
                assert(gds.take(gds.len() as int) =~= gds);
            }
            JsonValue::Obj(out)
        },
        JsonValue::Arr(xs) => {
            let mut out: Vec<JsonValue> = Vec::new();
            let ghost gds = ds_list(crate::json::jv_list(xs@));
            proof {
                crate::json::lemma_jv_list_len(xs@);
                lemma_ds_list_len(crate::json::jv_list(xs@));
                assert(crate::json::jv_list(out@) =~= gds.take(0));
            }
            let mut i: usize = 0;
            while i < xs.len()
                invariant
                    0 <= i <= xs@.len(),
                    *v == JsonValue::Arr(*xs),
                    gds == ds_list(crate::json::jv_list(xs@)),
                    gds.len() == xs@.len(),
                    crate::json::jv_list(xs@).len() == xs@.len(),
                    forall|m: int|
                        0 <= m < xs@.len() ==> crate::json::jv_list(xs@)[m] == jv(xs@[m]),
                    forall|m: int|
                        0 <= m < xs@.len() ==> gds[m] == deep_sort(
                            crate::json::jv_list(xs@)[m],
                        ),
                    crate::json::jv_list(out@) == gds.take(i as int),
                decreases xs@.len() - i,
            {
                proof {
                    assert(decreases_to!(*v => (*v)->Arr_0));
                    assert((*v)->Arr_0 == *xs);
                    assert(decreases_to!(*xs => xs@));
                    assert(decreases_to!(xs@ => xs@[i as int]));
                }
                let sv = deep_sort_exec(&xs[i]);
                proof {
                    crate::json::lemma_jv_list_push(out@, sv);
                }
                out.push(sv);
                proof {
                    assert(gds.take(i + 1 as int) =~= gds.take(i as int).push(gds[i as int]));
                }
                i = i + 1;
            }
            proof {
                assert(gds.take(gds.len() as int) =~= gds);
            }
            JsonValue::Arr(out)
        },
        other => crate::json_canon::clone_json(other),
    }
}

proof fn lemma_ds_pairs_len(ps: Seq<(Seq<u8>, JsonV)>)
    ensures
        ds_pairs(ps).len() == ps.len(),
        forall|m: int|
            0 <= m < ps.len() ==> ds_pairs(ps)[m] == (ps[m].0, deep_sort(#[trigger] ps[m].1)),
    decreases ps.len(),
{
    if ps.len() > 0 {
        lemma_ds_pairs_len(ps.drop_first());
        assert forall|m: int|
            0 <= m < ps.len() implies ds_pairs(ps)[m] == (ps[m].0, deep_sort(#[trigger] ps[m].1)) by {
            if m > 0 {
                assert(ps.drop_first()[m - 1] == ps[m]);
            }
        }
    }
}

proof fn lemma_ds_list_len(xs: Seq<JsonV>)
    ensures
        ds_list(xs).len() == xs.len(),
        forall|m: int| 0 <= m < xs.len() ==> ds_list(xs)[m] == deep_sort(#[trigger] xs[m]),
    decreases xs.len(),
{
    if xs.len() > 0 {
        lemma_ds_list_len(xs.drop_first());
        assert forall|m: int| 0 <= m < xs.len() implies ds_list(xs)[m] == deep_sort(
            #[trigger] xs[m],
        ) by {
            if m > 0 {
                assert(xs.drop_first()[m - 1] == xs[m]);
            }
        }
    }
}

/// The NDJSON line for one complete record element.
fn xrec_line_exec(rec: &[u8], trim: bool, attrs_on: bool) -> (r: Option<Vec<u8>>)
    ensures
        match r {
            Some(line) => xrec_line(rec@, trim, attrs_on) == Some(line@),
            None => xrec_line(rec@, trim, attrs_on) == None::<Seq<u8>>,
        },
{
    if rec.len() < 1 || rec[0] != 60 {
        return None;
    }
    proof {
        crate::detect::lemma_name_end(rec@, 1);
    }
    let ne = crate::detect::name_end_exec(rec, 1);
    if ne <= 1 {
        return None;
    }
    let rname = crate::bytes::copy_range(rec, 1, ne);
    proof {
        assert(rname@ =~= rec@.subrange(1, ne as int));
    }
    match tag_end_exec(rec, ne) {
        None => None,
        Some(te) => {
            let selfc = te >= 1 && rec[te - 1] == 47;
            let attrs: Vec<(Vec<u8>, JsonValue)> = if attrs_on {
                xattrs_exec(rec, ne, if selfc {
                    te - 1
                } else {
                    te
                })
            } else {
                let e: Vec<(Vec<u8>, JsonValue)> = Vec::new();
                proof {
                    assert(jv_pairs(e@) =~= Seq::<(Seq<u8>, JsonV)>::empty());
                }
                e
            };
            if selfc {
                let sorted = deep_sort_exec(&JsonValue::Obj(attrs));
                Some(crate::json_out::ser_to_vec(&sorted))
            } else {
                match xcontent_exec(rec, te + 1, 64, trim, rname.as_slice(), attrs, None) {
                    None => None,
                    Some(res) => {
                        let sorted = deep_sort_exec(&JsonValue::Obj(res.1));
                        Some(crate::json_out::ser_to_vec(&sorted))
                    },
                }
            }
        },
    }
}

/// Streaming XML record extractor: finds complete record elements in
/// the buffered bytes, turns each into one NDJSON line, and drains what
/// it consumed; an incomplete record waits for more input.
pub struct XmlParser {
    config: XmlConfig,
    record_name: Vec<u8>,
    partial_buffer: Vec<u8>,
    chunk_target_bytes: usize,
    record_count: usize,
    records_exact: Ghost<nat>,
}

impl XmlParser {
    /// The record element name, as bytes.
    pub closed spec fn spec_name(&self) -> Seq<u8> {
        self.record_name@
    }

    /// Whether text is trimmed.
    pub closed spec fn spec_trim(&self) -> bool {
        self.config.trim_text
    }

    /// Whether attributes are included.
    pub closed spec fn spec_attrs(&self) -> bool {
        self.config.include_attributes
    }

    /// The bytes buffered and not yet consumed by a complete record.
    pub closed spec fn spec_partial(&self) -> Seq<u8> {
        self.partial_buffer@
    }

    /// Exact number of records emitted so far.
    pub closed spec fn spec_records(&self) -> nat {
        self.records_exact@
    }

    pub fn new(config: XmlConfig, chunk_target_bytes: usize) -> (r: XmlParser)
        ensures
            r.spec_name() == encode_utf8(config.record_element@),
            r.spec_trim() == config.trim_text,
            r.spec_attrs() == config.include_attributes,
            r.spec_partial() == Seq::<u8>::empty(),
            r.spec_records() == 0,
    {
        let mut name: Vec<u8> = Vec::new();
        append_slice(&mut name, config.record_element.as_str().as_bytes());
        proof {
            assert(name@ =~= encode_utf8(config.record_element@));
        }
        XmlParser {
            config,
            record_name: name,
            partial_buffer: Vec::new(),
            chunk_target_bytes,
            record_count: 0,
            records_exact: Ghost(0nat),
        }
    }

    /// Buffer the chunk and emit one NDJSON line per record element
    /// completed so far; a malformed completed record raises an error.
    pub fn push_to_ndjson(&mut self, chunk: &[u8]) -> (r: Result<Vec<u8>, ConvertError>)
        ensures
            final(self).spec_name() == old(self).spec_name(),
            final(self).spec_trim() == old(self).spec_trim(),
            final(self).spec_attrs() == old(self).spec_attrs(),
            ({
                let scan = xp_scan(
                    old(self).spec_partial() + chunk@,
                    old(self).spec_name(),
                    old(self).spec_trim(),
                    old(self).spec_attrs(),
                );
                match r {
                    Ok(out) => {
                        &&& scan is Some
                        &&& out@ == scan->Some_0.0
                        &&& final(self).spec_records() == old(self).spec_records()
                            + scan->Some_0.1
                        &&& final(self).spec_partial() == scan->Some_0.2
                    },
                    Err(e) => scan is None && e is XmlParse,
                }
            }),
    {
        let mut data: Vec<u8> = Vec::new();
        std::mem::swap(&mut data, &mut self.partial_buffer);
        append_slice(&mut data, chunk);
        self.extract_records(data)
    }

    /// Extract what the buffered bytes complete.
    #[verifier::rlimit(100)]
    fn extract_records(&mut self, data: Vec<u8>) -> (r: Result<Vec<u8>, ConvertError>)
        requires
            old(self).spec_partial() == Seq::<u8>::empty(),
        ensures
            final(self).spec_name() == old(self).spec_name(),
            final(self).spec_trim() == old(self).spec_trim(),
            final(self).spec_attrs() == old(self).spec_attrs(),
            ({
                let scan = xp_scan(
                    data@,
                    old(self).spec_name(),
                    old(self).spec_trim(),
                    old(self).spec_attrs(),
                );
                match r {
                    Ok(out) => {
                        &&& scan is Some
                        &&& out@ == scan->Some_0.0
                        &&& final(self).spec_records() == old(self).spec_records()
                            + scan->Some_0.1
                        &&& final(self).spec_partial() == scan->Some_0.2
                    },
                    Err(e) => scan is None && e is XmlParse,
                }
            }),
    {
        let ghost name = self.record_name@;
        let ghost trim = self.config.trim_text;
        let ghost attrs_on = self.config.include_attributes;
        let mut rest: Vec<u8> = data;
        let mut out: Vec<u8> = Vec::new();
        let mut start_pat: Vec<u8> = Vec::new();
        start_pat.push(60);
        append_slice(&mut start_pat, self.record_name.as_slice());
        let mut end_pat: Vec<u8> = Vec::new();
        end_pat.push(60);
        end_pat.push(47);
        append_slice(&mut end_pat, self.record_name.as_slice());
        end_pat.push(62);
        proof {
            assert(start_pat@ =~= seq![60u8] + name);
            assert(end_pat@ =~= seq![60u8, 47u8] + name + seq![62u8]);
        }
        loop
            invariant_except_break
                start_pat@ == seq![60u8] + name,
                end_pat@ == seq![60u8, 47u8] + name + seq![62u8],
                name == self.record_name@,
                trim == self.config.trim_text,
                attrs_on == self.config.include_attributes,
                self.config == old(self).config,
                self.record_name@ == old(self).record_name@,
                self.partial_buffer@ == Seq::<u8>::empty(),
                xp_scan(data@, name, trim, attrs_on) == (match xp_scan(
                    rest@,
                    name,
                    trim,
                    attrs_on,
                ) {
                    Some((o, c, rem)) => Some(
                        (
                            out@ + o,
                            (self.records_exact@ - old(self).records_exact@ + c) as nat,
                            rem,
                        ),
                    ),
                    None => None::<(Seq<u8>, nat, Seq<u8>)>,
                }),
                self.records_exact@ >= old(self).records_exact@,
            ensures
                self.config == old(self).config,
                self.record_name@ == old(self).record_name@,
                self.records_exact@ >= old(self).records_exact@,
                xp_scan(data@, name, trim, attrs_on) == Some(
                    (
                        out@,
                        (self.records_exact@ - old(self).records_exact@) as nat,
                        rest@,
                    ),
                ),
            decreases rest@.len(),
        {
            let rest_len = rest.len();
            proof {
                assert(start_pat@.skip(1) =~= name);
            }
            let found_start = find_rec_start_exec(
                rest.as_slice(),
                start_pat.as_slice(),
                self.record_name.len(),
                0,
            );
            match found_start {
                None => {
                    proof {
                        assert(xp_scan(rest@, name, trim, attrs_on) == Some(
                            (Seq::<u8>::empty(), 0nat, rest@),
                        ));
                        assert(out@ + Seq::<u8>::empty() =~= out@);
                    }
                    break;
                },
                Some(rs) => {
                    let sf = rs + start_pat.len();
                    match find_sub_exec(rest.as_slice(), end_pat.as_slice(), sf) {
                        None => {
                            proof {
                                assert(xp_scan(rest@, name, trim, attrs_on) == Some(
                                    (Seq::<u8>::empty(), 0nat, rest@),
                                ));
                                assert(out@ + Seq::<u8>::empty() =~= out@);
                            }
                            break;
                        },
                        Some(re) => {
                            let rend = re + end_pat.len();
                            let rec = crate::bytes::copy_range(rest.as_slice(), rs, rend);
                            proof {
                                assert(rec@ =~= rest@.subrange(rs as int, rend as int));
                            }
                            match xrec_line_exec(
                                rec.as_slice(),
                                self.config.trim_text,
                                self.config.include_attributes,
                            ) {
                                None => {
                                    return Err(
                                        ConvertError::XmlParse(
                                            String::from_str("malformed record element"),
                                        ),
                                    );
                                },
                                Some(line) => {
                                    append_slice(&mut out, line.as_slice());
                                    out.push(10);
                                    self.record_count = if self.record_count < usize::MAX {
                                        self.record_count + 1
                                    } else {
                                        self.record_count
                                    };
                                    proof {
                                        self.records_exact@ = self.records_exact@ + 1;
                                    }
                                    let next = crate::bytes::copy_range(
                                        rest.as_slice(),
                                        rend,
                                        rest_len,
                                    );
                                    proof {
                                        assert(next@ =~= rest@.skip(rend as int));
                                    }
                                    rest = next;
                                },
                            }
                        },
                    }
                },
            }
        }
        self.partial_buffer = rest;
        Ok(out)
    }

    /// Flush: extract any records the buffered bytes complete, then
    /// silently discard the remainder — the stream ended mid-record.
    pub fn finish(&mut self) -> (r: Result<Vec<u8>, ConvertError>)
        ensures
            final(self).spec_partial() == Seq::<u8>::empty(),
            ({
                let scan = xp_scan(
                    old(self).spec_partial(),
                    old(self).spec_name(),
                    old(self).spec_trim(),
                    old(self).spec_attrs(),
                );
                match r {
                    Ok(out) => {
                        &&& scan is Some
                        &&& out@ == scan->Some_0.0
                        &&& final(self).spec_records() == old(self).spec_records()
                            + scan->Some_0.1
                    },
                    Err(e) => scan is None && e is XmlParse,
                }
            }),
    {
        let mut data: Vec<u8> = Vec::new();
        std::mem::swap(&mut data, &mut self.partial_buffer);
        let r = self.extract_records(data);
        self.partial_buffer = Vec::new();
        proof {
            assert(self.partial_buffer@ =~= Seq::<u8>::empty());
        }
        r
    }

    /// Size of the buffered, unconsumed bytes.
    pub fn partial_size(&self) -> (r: usize)
        ensures
            r as int == self.spec_partial().len(),
    {
        self.partial_buffer.len()
    }

    /// Number of records emitted so far, saturating at the machine
    /// limit; the exact count is `spec_records`.
    pub fn record_count(&self) -> usize {
        self.record_count
    }
}

/// XML writer that wraps NDJSON records into one `<root>` document.
pub struct XmlWriter {
    root_element: Vec<u8>,
    record_element: Vec<u8>,
    header_written: bool,
}

impl XmlWriter {
    /// The configured root element name.
    pub closed spec fn spec_root(&self) -> Seq<u8> {
        self.root_element@
    }

    /// The configured record element name.
    pub closed spec fn spec_record(&self) -> Seq<u8> {
        self.record_element@
    }

    /// Whether the opening `<root>` line has been written.
    pub closed spec fn spec_header_written(&self) -> bool {
        self.header_written
    }

    /// A writer for `<root>` and `<record>` elements.
    pub fn new() -> (r: XmlWriter)
        ensures
            r.spec_root() == "root"@.map_values(|c: char| c as u8),
            r.spec_record() == "record"@.map_values(|c: char| c as u8),
            !r.spec_header_written(),
    {
        let mut root: Vec<u8> = Vec::new();
        root.push(114);
        root.push(111);
        root.push(111);
        root.push(116);
        let mut record: Vec<u8> = Vec::new();
        record.push(114);
        record.push(101);
        record.push(99);
        record.push(111);
        record.push(114);
        record.push(100);
        let r = XmlWriter { root_element: root, record_element: record, header_written: false };
        proof {
            reveal_strlit("root");
            reveal_strlit("record");
            assert(r.root_element@ =~= "root"@.map_values(|c: char| c as u8));
            assert(r.record_element@ =~= "record"@.map_values(|c: char| c as u8));
        }
        r
    }

    /// The same writer with the element names replaced.
    pub fn with_elements(self, root: String, record: String) -> (r: XmlWriter)
        ensures
            r.spec_root() == encode_utf8(root@),
            r.spec_record() == encode_utf8(record@),
            r.spec_header_written() == self.spec_header_written(),
    {
        let root_bytes = root.as_str().as_bytes();
        let mut rv: Vec<u8> = Vec::new();
        append_slice(&mut rv, root_bytes);
        proof {
            assert(rv@ =~= encode_utf8(root@));
        }
        let record_bytes = record.as_str().as_bytes();
        let mut cv: Vec<u8> = Vec::new();
        append_slice(&mut cv, record_bytes);
        proof {
            assert(cv@ =~= encode_utf8(record@));
        }
        XmlWriter { root_element: rv, record_element: cv, header_written: self.header_written }
    }

    /// Consume one NDJSON line: write the header on the first call, and
    /// one record element when the line parses to a JSON object.
    #[verifier::rlimit(100)]
    pub fn process_json_line(&mut self, json_line: &str) -> (r: Result<Vec<u8>, ConvertError>)
        ensures
            r is Ok,
            r->Ok_0@ == (if old(self).spec_header_written() {
                Seq::<u8>::empty()
            } else {
                xml_header(old(self).spec_root())
            }) + xml_line_out(old(self).spec_record(), json_line.spec_bytes()),
            final(self).spec_header_written(),
            final(self).spec_root() == old(self).spec_root(),
            final(self).spec_record() == old(self).spec_record(),
    {
        let mut out: Vec<u8> = Vec::new();
        if !self.header_written {
            out.push(60);
            append_slice(&mut out, self.root_element.as_slice());
            out.push(62);
            out.push(10);
            self.header_written = true;
            proof {
                assert(out@ =~= xml_header(self.root_element@));
            }
        }
        let ghost head = out@;
        let data = json_line.as_bytes();
        match parse_json(data) {
            Some(v) => {
                match v {
                    JsonValue::Obj(ps) => {
                        let cps = canon_pairs(&ps);
                        out.push(32);
                        out.push(32);
                        out.push(60);
                        append_slice(&mut out, self.record_element.as_slice());
                        out.push(62);
                        out.push(10);
                        proof {
                            assert(out@ =~= head + (seq![32u8, 32u8, 60u8] + self.record_element@
                                + seq![62u8, 10u8]));
                        }
                        let ghost mid0 = out@;
                        let ghost gps = jv_pairs(cps@);
                        proof {
                            lemma_jv_pairs_len(cps@);
                            assert(gps.take(0) =~= Seq::<(Seq<u8>, JsonV)>::empty());
                        }
                        let mut i: usize = 0;
                        while i < cps.len()
                            invariant
                                0 <= i <= cps@.len(),
                                gps == jv_pairs(cps@),
                                gps.len() == cps@.len(),
                                forall|m: int|
                                    0 <= m < cps@.len() ==> gps[m] == (
                                        cps@[m].0@,
                                        jv(cps@[m].1),
                                    ),
                                out@ == mid0 + xml_field_lines(gps.take(i as int)),
                            decreases cps@.len() - i,
                        {
                            out.push(32);
                            out.push(32);
                            out.push(32);
                            out.push(32);
                            out.push(60);
                            write_xml_escaped(&mut out, cps[i].0.as_slice());
                            out.push(62);
                            let text = xml_text_of(&cps[i].1);
                            write_xml_escaped(&mut out, text.as_slice());
                            out.push(60);
                            out.push(47);
                            write_xml_escaped(&mut out, cps[i].0.as_slice());
                            out.push(62);
                            out.push(10);
                            proof {
                                assert(gps.take(i + 1 as int).drop_last() =~= gps.take(i as int));
                                assert(gps.take(i + 1 as int).last() == gps[i as int]);
                                assert(out@ =~= mid0 + (xml_field_lines(gps.take(i as int))
                                    + xml_field_line(gps[i as int].0, gps[i as int].1)));
                            }
                            i = i + 1;
                        }
                        out.push(32);
                        out.push(32);
                        out.push(60);
                        out.push(47);
                        append_slice(&mut out, self.record_element.as_slice());
                        out.push(62);
                        out.push(10);
                        proof {
                            assert(gps.take(gps.len() as int) =~= gps);
                            assert(out@ =~= head + xml_record(self.record_element@, jv_pairs(ps@)));
                        }
                        Ok(out)
                    },
                    _ => {
                        proof {
                            assert(out@ =~= head + Seq::<u8>::empty());
                        }
                        Ok(out)
                    },
                }
            },
            None => {
                proof {
                    assert(out@ =~= head + Seq::<u8>::empty());
                }
                Ok(out)
            },
        }
    }

    /// Close the root element, if it was ever opened.
    pub fn finish(&self) -> (r: Result<Vec<u8>, ConvertError>)
        ensures
            r is Ok,
            r->Ok_0@ == (if self.spec_header_written() {
                xml_footer(self.spec_root())
            } else {
                Seq::<u8>::empty()
            }),
    {
        let mut out: Vec<u8> = Vec::new();
        if self.header_written {
            out.push(60);
            out.push(47);
            append_slice(&mut out, self.root_element.as_slice());
            out.push(62);
            out.push(10);
            proof {
                assert(out@ =~= xml_footer(self.root_element@));
            }
        }
        Ok(out)
    }
}

/// The element text for one field value.
fn xml_text_of(v: &JsonValue) -> (r: Vec<u8>)
    ensures
        r@ == xml_value_text(jv(*v)),
{
    match v {
        JsonValue::Str(s) => {
            let mut c: Vec<u8> = Vec::new();
            append_slice(&mut c, s.as_slice());
            proof {
                assert(c@ =~= s@);
            }
            c
        },
        JsonValue::Num(n) => {
            let mut c: Vec<u8> = Vec::new();
            append_slice(&mut c, n.as_slice());
            proof {
                assert(c@ =~= n@);
            }
            c
        },
        JsonValue::Bool(t) => {
            let mut c: Vec<u8> = Vec::new();
            if *t {
                c.push(116);
                c.push(114);
                c.push(117);
                c.push(101);
            } else {
                c.push(102);
                c.push(97);
                c.push(108);
                c.push(115);
                c.push(101);
            }
            proof {
                assert(c@ =~= xml_value_text(jv(*v)));
            }
            c
        },
        JsonValue::Null => {
            let c: Vec<u8> = Vec::new();
            proof {
                assert(c@ =~= xml_value_text(jv(*v)));
            }
            c
        },
        JsonValue::Arr(_) => crate::json_out::ser_to_vec(v),
        JsonValue::Obj(_) => crate::json_out::ser_to_vec(v),
    }
}

} // verus!
