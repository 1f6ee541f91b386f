//! The JSON value model of the engine and its grammar, stated as spec
//! functions over byte sequences: a recursive-descent reading of RFC 8259
//! with the same nesting bound the executable parser enforces. Strings
//! decode escape sequences; numbers keep their source lexeme, so the
//! library never manipulates floating point.
use vstd::prelude::*;
use crate::bytes::is_ws;

verus! {

/// Mathematical JSON values: the ghost mirror of `JsonValue`.
pub enum JsonV {
    Null,
    Bool(bool),
    /// A number, kept as its source lexeme.
    Num(Seq<u8>),
    /// A string, with escape sequences already decoded, as UTF-8 bytes.
    Str(Seq<u8>),
    Arr(Seq<JsonV>),
    /// Key-value pairs in insertion order; keys are decoded string bytes.
    Obj(Seq<(Seq<u8>, JsonV)>),
}

/// Executable JSON values.
#[derive(Debug)]
pub enum JsonValue {
    Null,
    Bool(bool),
    /// A number, kept as its source lexeme.
    Num(Vec<u8>),
    /// A string, with escape sequences already decoded, as UTF-8 bytes.
    Str(Vec<u8>),
    Arr(Vec<JsonValue>),
    /// Key-value pairs in insertion order.
    Obj(Vec<(Vec<u8>, JsonValue)>),
}

/// The ghost value an executable value stands for.
pub open spec fn jv(v: JsonValue) -> JsonV
    decreases v,
{
    match v {
        JsonValue::Null => JsonV::Null,
        JsonValue::Bool(b) => JsonV::Bool(b),
        JsonValue::Num(n) => JsonV::Num(n@),
        JsonValue::Str(s) => JsonV::Str(s@),
        JsonValue::Arr(xs) => JsonV::Arr(jv_list(xs@)),
        JsonValue::Obj(ps) => JsonV::Obj(jv_pairs(ps@)),
    }
}

pub open spec fn jv_list(s: Seq<JsonValue>) -> Seq<JsonV>
    decreases s,
{
    if s.len() == 0 {
        Seq::empty()
    } else {
        seq![jv(s[0])] + jv_list(s.drop_first())
    }
}

pub open spec fn jv_pairs(s: Seq<(Vec<u8>, JsonValue)>) -> Seq<(Seq<u8>, JsonV)>
    decreases s,
{
    if s.len() == 0 {
        Seq::empty()
    } else {
        seq![(s[0].0@, jv(s[0].1))] + jv_pairs(s.drop_first())
    }
}

pub proof fn lemma_jv_list_len(s: Seq<JsonValue>)
    ensures
        jv_list(s).len() == s.len(),
        forall|i: int| 0 <= i < s.len() ==> jv_list(s)[i] == jv(s[i]),
    decreases s,
{
    if s.len() > 0 {
        lemma_jv_list_len(s.drop_first());
    }
}

pub proof fn lemma_jv_pairs_len(s: Seq<(Vec<u8>, JsonValue)>)
    ensures
        jv_pairs(s).len() == s.len(),
        forall|i: int|
            0 <= i < s.len() ==> jv_pairs(s)[i] == (s[i].0@, jv(s[i].1)),
    decreases s,
{
    if s.len() > 0 {
        lemma_jv_pairs_len(s.drop_first());
    }
}

pub proof fn lemma_jv_list_push(s: Seq<JsonValue>, v: JsonValue)
    ensures
        jv_list(s.push(v)) == jv_list(s).push(jv(v)),
    decreases s,
{
    if s.len() == 0 {
        assert(s.push(v).drop_first() =~= Seq::<JsonValue>::empty());
        assert(s.push(v)[0] == v);
        assert(jv_list(s.push(v)) == seq![jv(v)] + jv_list(Seq::<JsonValue>::empty()));
        assert(seq![jv(v)] + Seq::<JsonV>::empty() =~= Seq::<JsonV>::empty().push(jv(v)));
        assert(jv_list(s) =~= Seq::<JsonV>::empty());
    } else {
        assert(s.push(v).drop_first() =~= s.drop_first().push(v));
        assert(s.push(v)[0] == s[0]);
        lemma_jv_list_push(s.drop_first(), v);
        assert(jv_list(s.push(v)) == seq![jv(s[0])] + jv_list(s.drop_first()).push(jv(v)));
        assert(seq![jv(s[0])] + jv_list(s.drop_first()).push(jv(v)) =~= (seq![jv(s[0])] + jv_list(
            s.drop_first(),
        )).push(jv(v)));
    }
}

pub proof fn lemma_jv_pairs_push(s: Seq<(Vec<u8>, JsonValue)>, k: Vec<u8>, v: JsonValue)
    ensures
        jv_pairs(s.push((k, v))) == jv_pairs(s).push((k@, jv(v))),
    decreases s,
{
    if s.len() == 0 {
        assert(s.push((k, v)).drop_first() =~= Seq::<(Vec<u8>, JsonValue)>::empty());
        assert(s.push((k, v))[0] == (k, v));
        assert(jv_pairs(s.push((k, v))) == seq![(k@, jv(v))] + jv_pairs(
            Seq::<(Vec<u8>, JsonValue)>::empty(),
        ));
        assert(seq![(k@, jv(v))] + Seq::<(Seq<u8>, JsonV)>::empty() =~= Seq::<(
            Seq<u8>,
            JsonV,
        )>::empty().push((k@, jv(v))));
        assert(jv_pairs(s) =~= Seq::<(Seq<u8>, JsonV)>::empty());
    } else {
        assert(s.push((k, v)).drop_first() =~= s.drop_first().push((k, v)));
        assert(s.push((k, v))[0] == s[0]);
        lemma_jv_pairs_push(s.drop_first(), k, v);
        assert(jv_pairs(s.push((k, v))) == seq![(s[0].0@, jv(s[0].1))] + jv_pairs(
            s.drop_first(),
        ).push((k@, jv(v))));
        assert(seq![(s[0].0@, jv(s[0].1))] + jv_pairs(s.drop_first()).push((k@, jv(v))) =~= (seq![
            (s[0].0@, jv(s[0].1)),
        ] + jv_pairs(s.drop_first())).push((k@, jv(v))));
    }
}

/// The nesting bound the parser enforces against unbounded recursion.
pub open spec fn max_depth() -> nat {
    128
}

/// First index at or after `i` holding a byte that is not JSON whitespace.
pub open spec fn skip_ws(s: Seq<u8>, i: int) -> int
    decreases s.len() - i,
{
    if 0 <= i < s.len() && is_ws(s[i]) {
        skip_ws(s, i + 1)
    } else {
        i
    }
}

pub proof fn lemma_skip_ws(s: Seq<u8>, i: int)
    requires
        0 <= i <= s.len(),
    ensures
        i <= skip_ws(s, i) <= s.len(),
        skip_ws(s, i) < s.len() ==> !is_ws(s[skip_ws(s, i)]),
        forall|k: int| i <= k < skip_ws(s, i) ==> is_ws(s[k]),
    decreases s.len() - i,
{
    if i < s.len() && is_ws(s[i]) {
        lemma_skip_ws(s, i + 1);
    }
}

pub open spec fn is_digit(b: u8) -> bool {
    48 <= b <= 57
}

/// First index at or after `i` holding a non-digit.
pub open spec fn scan_digits(s: Seq<u8>, i: int) -> int
    decreases s.len() - i,
{
    if 0 <= i < s.len() && is_digit(s[i]) {
        scan_digits(s, i + 1)
    } else {
        i
    }
}

pub proof fn lemma_scan_digits(s: Seq<u8>, i: int)
    requires
        0 <= i <= s.len(),
    ensures
        i <= scan_digits(s, i) <= s.len(),
        forall|k: int| i <= k < scan_digits(s, i) ==> is_digit(#[trigger] s[k]),
    decreases s.len() - i,
{
    if i < s.len() && is_digit(s[i]) {
        lemma_scan_digits(s, i + 1);
    }
}

/// End of a JSON number starting at `i`: optional minus, integer part
/// with no leading zero, optional fraction, optional exponent.
pub open spec fn parse_number(s: Seq<u8>, i: int) -> Option<int> {
    let a = if i < s.len() && s[i] == 45 {
        i + 1
    } else {
        i
    };
    if a < s.len() && is_digit(s[a]) {
        let b = if s[a] == 48 {
            a + 1
        } else {
            scan_digits(s, a)
        };
        let c = if b < s.len() && s[b] == 46 {
            if b + 1 < s.len() && is_digit(s[b + 1]) {
                scan_digits(s, b + 1)
            } else {
                -1
            }
        } else {
            b
        };
        if c < 0 {
            None
        } else {
            let d = if c < s.len() && (s[c] == 101 || s[c] == 69) {
                let e0 = if c + 1 < s.len() && (s[c + 1] == 43 || s[c + 1] == 45) {
                    c + 2
                } else {
                    c + 1
                };
                if e0 < s.len() && is_digit(s[e0]) {
                    scan_digits(s, e0)
                } else {
                    -1
                }
            } else {
                c
            };
            if d < 0 {
                None
            } else {
                Some(d)
            }
        }
    } else {
        None
    }
}

/// Value of a hex digit byte, or -1.
pub open spec fn hex_val(b: u8) -> int {
    if 48 <= b <= 57 {
        b - 48
    } else if 97 <= b <= 102 {
        b - 97 + 10
    } else if 65 <= b <= 70 {
        b - 65 + 10
    } else {
        -1
    }
}

/// The four hex digits at `i` read as a number; meaningful only when
/// `hex4_ok` holds there.
pub open spec fn hex4(s: Seq<u8>, i: int) -> int {
    hex_val(s[i]) * 0x1000 + hex_val(s[i + 1]) * 0x100 + hex_val(s[i + 2]) * 0x10 + hex_val(
        s[i + 3],
    )
}

pub open spec fn hex4_ok(s: Seq<u8>, i: int) -> bool {
    &&& 0 <= i
    &&& i + 4 <= s.len()
    &&& hex_val(s[i]) >= 0
    &&& hex_val(s[i + 1]) >= 0
    &&& hex_val(s[i + 2]) >= 0
    &&& hex_val(s[i + 3]) >= 0
}

/// UTF-8 encoding of a code point.
pub open spec fn utf8_enc(cp: int) -> Seq<u8> {
    if cp < 0x80 {
        seq![cp as u8]
    } else if cp < 0x800 {
        seq![(0xC0 + cp / 0x40) as u8, (0x80 + cp % 0x40) as u8]
    } else if cp < 0x10000 {
        seq![
            (0xE0 + cp / 0x1000) as u8,
            (0x80 + (cp / 0x40) % 0x40) as u8,
            (0x80 + cp % 0x40) as u8,
        ]
    } else {
        seq![
            (0xF0 + cp / 0x40000) as u8,
            (0x80 + (cp / 0x1000) % 0x40) as u8,
            (0x80 + (cp / 0x40) % 0x40) as u8,
            (0x80 + cp % 0x40) as u8,
        ]
    }
}

/// Scan a JSON string body from `i` (just past the opening quote),
/// decoding escapes onto `acc`; yields the decoded bytes and the index
/// past the closing quote.
pub open spec fn parse_string(s: Seq<u8>, i: int, acc: Seq<u8>) -> Option<(Seq<u8>, int)>
    decreases s.len() - i,
{
    if i < 0 || i >= s.len() {
        None
    } else if s[i] == 34 {
        Some((acc, i + 1))
    } else if s[i] == 92 {
        if i + 1 >= s.len() {
            None
        } else {
            let e = s[i + 1];
            if e == 34 || e == 92 || e == 47 {
                parse_string(s, i + 2, acc.push(e))
            } else if e == 98 {
                parse_string(s, i + 2, acc.push(8))
            } else if e == 102 {
                parse_string(s, i + 2, acc.push(12))
            } else if e == 110 {
                parse_string(s, i + 2, acc.push(10))
            } else if e == 114 {
                parse_string(s, i + 2, acc.push(13))
            } else if e == 116 {
                parse_string(s, i + 2, acc.push(9))
            } else if e == 117 {
                if hex4_ok(s, i + 2) {
                    let cp = hex4(s, i + 2);
                    if 0xD800 <= cp <= 0xDBFF {
                        if i + 12 <= s.len() && s[i + 6] == 92 && s[i + 7] == 117 && hex4_ok(
                            s,
                            i + 8,
                        ) {
                            let lo = hex4(s, i + 8);
                            if 0xDC00 <= lo <= 0xDFFF {
                                parse_string(
                                    s,
                                    i + 12,
                                    acc + utf8_enc(
                                        0x10000 + (cp - 0xD800) * 0x400 + (lo - 0xDC00),
                                    ),
                                )
                            } else {
                                None
                            }
                        } else {
                            None
                        }
                    } else if 0xDC00 <= cp <= 0xDFFF {
                        None
                    } else {
                        parse_string(s, i + 6, acc + utf8_enc(cp))
                    }
                } else {
                    None
                }
            } else {
                None
            }
        }
    } else if s[i] < 32 {
        None
    } else {
        parse_string(s, i + 1, acc.push(s[i]))
    }
}

/// The decoded string end never runs backwards.
pub proof fn lemma_parse_string_advance(s: Seq<u8>, i: int, acc: Seq<u8>)
    requires
        0 <= i <= s.len(),
    ensures
        match parse_string(s, i, acc) {
            Some((d, j)) => i < j <= s.len(),
            None => true,
        },
    decreases s.len() - i,
{
    if i < s.len() && s[i] != 34 {
        if s[i] == 92 && i + 1 < s.len() {
            let e = s[i + 1];
            if e == 34 || e == 92 || e == 47 || e == 98 || e == 102 || e == 110 || e == 114 || e
                == 116 {
                lemma_parse_string_advance(s, i + 2, acc.push(if e == 98 {
                    8u8
                } else if e == 102 {
                    12u8
                } else if e == 110 {
                    10u8
                } else if e == 114 {
                    13u8
                } else if e == 116 {
                    9u8
                } else {
                    e
                }));
            } else if e == 117 && hex4_ok(s, i + 2) {
                let cp = hex4(s, i + 2);
                if 0xD800 <= cp <= 0xDBFF {
                    if i + 12 <= s.len() && s[i + 6] == 92 && s[i + 7] == 117 && hex4_ok(s, i + 8) {
                        let lo = hex4(s, i + 8);
                        if 0xDC00 <= lo <= 0xDFFF {
                            lemma_parse_string_advance(
                                s,
                                i + 12,
                                acc + utf8_enc(0x10000 + (cp - 0xD800) * 0x400 + (lo - 0xDC00)),
                            );
                        }
                    }
                } else if !(0xDC00 <= cp <= 0xDFFF) {
                    lemma_parse_string_advance(s, i + 6, acc + utf8_enc(cp));
                }
            }
        } else if s[i] != 92 && s[i] >= 32 {
            lemma_parse_string_advance(s, i + 1, acc.push(s[i]));
        }
    }
}

/// Parse one JSON value starting at `i`, with `depth` nesting levels
/// still allowed; yields the value and the index just past it.
pub open spec fn parse_value(s: Seq<u8>, i: int, depth: nat) -> Option<(JsonV, int)>
    decreases depth, s.len() - i, 0int,
{
    let j = skip_ws(s, i);
    if j < 0 || j >= s.len() {
        None
    } else if s[j] == 110 {
        if j + 4 <= s.len() && s[j + 1] == 117 && s[j + 2] == 108 && s[j + 3] == 108 {
            Some((JsonV::Null, j + 4))
        } else {
            None
        }
    } else if s[j] == 116 {
        if j + 4 <= s.len() && s[j + 1] == 114 && s[j + 2] == 117 && s[j + 3] == 101 {
            Some((JsonV::Bool(true), j + 4))
        } else {
            None
        }
    } else if s[j] == 102 {
        if j + 5 <= s.len() && s[j + 1] == 97 && s[j + 2] == 108 && s[j + 3] == 115 && s[j + 4]
            == 101 {
            Some((JsonV::Bool(false), j + 5))
        } else {
            None
        }
    } else if s[j] == 34 {
        match parse_string(s, j + 1, Seq::empty()) {
            Some((d, k)) => Some((JsonV::Str(d), k)),
            None => None,
        }
    } else if s[j] == 91 {
        if depth == 0 {
            None
        } else {
            let k = skip_ws(s, j + 1);
            if k < s.len() && s[k] == 93 {
                Some((JsonV::Arr(Seq::empty()), k + 1))
            } else if j + 1 >= 0 {
                match parse_elems(s, j + 1, (depth - 1) as nat, Seq::empty()) {
                    Some((xs, m)) => Some((JsonV::Arr(xs), m)),
                    None => None,
                }
            } else {
                None
            }
        }
    } else if s[j] == 123 {
        if depth == 0 {
            None
        } else {
            let k = skip_ws(s, j + 1);
            if k < s.len() && s[k] == 125 {
                Some((JsonV::Obj(Seq::empty()), k + 1))
            } else if j + 1 >= 0 {
                match parse_members(s, j + 1, (depth - 1) as nat, Seq::empty()) {
                    Some((ps, m)) => Some((JsonV::Obj(ps), m)),
                    None => None,
                }
            } else {
                None
            }
        }
    } else if s[j] == 45 || is_digit(s[j]) {
        match parse_number(s, j) {
            Some(e) => if j < e <= s.len() {
                Some((JsonV::Num(s.subrange(j, e)), e))
            } else {
                None
            },
            None => None,
        }
    } else {
        None
    }
}

/// Parse the elements of a non-empty array from `i` (just past `[` or a
/// comma), accumulating onto `acc`.
pub open spec fn parse_elems(s: Seq<u8>, i: int, depth: nat, acc: Seq<JsonV>) -> Option<
    (Seq<JsonV>, int),
>
    decreases depth, s.len() - i, 1int,
{
    if i < 0 {
        None
    } else {
        match parse_value(s, i, depth) {
            None => None,
            Some((v, j)) => {
                let k = skip_ws(s, j);
                if k < s.len() && s[k] == 44 {
                    if i < k + 1 <= s.len() {
                        parse_elems(s, k + 1, depth, acc.push(v))
                    } else {
                        None
                    }
                } else if k < s.len() && s[k] == 93 {
                    Some((acc.push(v), k + 1))
                } else {
                    None
                }
            },
        }
    }
}

/// Parse the members of a non-empty object from `i` (just past `{` or a
/// comma), accumulating onto `acc`.
pub open spec fn parse_members(s: Seq<u8>, i: int, depth: nat, acc: Seq<(Seq<u8>, JsonV)>) -> Option<
    (Seq<(Seq<u8>, JsonV)>, int),
>
    decreases depth, s.len() - i, 1int,
{
    if i < 0 {
        None
    } else {
        let j = skip_ws(s, i);
        if j < s.len() && s[j] == 34 && i <= j {
            match parse_string(s, j + 1, Seq::empty()) {
                None => None,
                Some((key, k0)) => {
                    let k1 = skip_ws(s, k0);
                    if k1 < s.len() && s[k1] == 58 && i < k1 + 1 <= s.len() {
                        match parse_value(s, k1 + 1, depth) {
                            None => None,
                            Some((v, m)) => {
                                let m1 = skip_ws(s, m);
                                if m1 < s.len() && s[m1] == 44 {
                                    if i < m1 + 1 <= s.len() {
                                        parse_members(s, m1 + 1, depth, acc.push((key, v)))
                                    } else {
                                        None
                                    }
                                } else if m1 < s.len() && s[m1] == 125 {
                                    Some((acc.push((key, v)), m1 + 1))
                                } else {
                                    None
                                }
                            },
                        }
                    } else {
                        None
                    }
                },
            }
        } else {
            None
        }
    }
}

/// Parse a complete JSON document: one value with nothing but whitespace
/// after it.
#[verifier::opaque]
pub open spec fn spec_parse(s: Seq<u8>) -> Option<JsonV> {
    match parse_value(s, 0, max_depth()) {
        Some((v, j)) => if skip_ws(s, j) == s.len() {
            Some(v)
        } else {
            None
        },
        None => None,
    }
}

/// The bytes form one complete JSON document.
#[verifier::opaque]
pub open spec fn is_valid_json(s: Seq<u8>) -> bool {
    spec_parse(s) is Some
}

/// A successful parse always consumes at least one byte and stays in
/// bounds.
pub proof fn lemma_parse_value_advance(s: Seq<u8>, i: int, depth: nat)
    requires
        0 <= i <= s.len(),
    ensures
        match parse_value(s, i, depth) {
            Some((v, j)) => i < j <= s.len(),
            None => true,
        },
    decreases depth, s.len() - i, 0int,
{
    let j = skip_ws(s, i);
    lemma_skip_ws(s, i);
    if 0 <= j < s.len() {
        if s[j] == 34 {
            lemma_parse_string_advance(s, j + 1, Seq::empty());
        } else if s[j] == 91 && depth > 0 {
            let k = skip_ws(s, j + 1);
            lemma_skip_ws(s, j + 1);
            if !(k < s.len() && s[k] == 93) {
                lemma_parse_elems_advance(s, j + 1, (depth - 1) as nat, Seq::empty());
            }
        } else if s[j] == 123 && depth > 0 {
            let k = skip_ws(s, j + 1);
            lemma_skip_ws(s, j + 1);
            if !(k < s.len() && s[k] == 125) {
                lemma_parse_members_advance(s, j + 1, (depth - 1) as nat, Seq::empty());
            }
        }
    }
}

pub proof fn lemma_parse_elems_advance(s: Seq<u8>, i: int, depth: nat, acc: Seq<JsonV>)
    requires
        0 <= i <= s.len(),
    ensures
        match parse_elems(s, i, depth, acc) {
            Some((xs, j)) => i < j <= s.len(),
            None => true,
        },
    decreases depth, s.len() - i, 1int,
{
    lemma_parse_value_advance(s, i, depth);
    match parse_value(s, i, depth) {
        None => {},
        Some((v, j)) => {
            let k = skip_ws(s, j);
            lemma_skip_ws(s, j);
            if k < s.len() && s[k] == 44 {
                lemma_parse_elems_advance(s, k + 1, depth, acc.push(v));
            }
        },
    }
}

pub proof fn lemma_parse_members_advance(s: Seq<u8>, i: int, depth: nat, acc: Seq<(Seq<u8>, JsonV)>)
    requires
        0 <= i <= s.len(),
    ensures
        match parse_members(s, i, depth, acc) {
            Some((ps, j)) => i < j <= s.len(),
            None => true,
        },
    decreases depth, s.len() - i, 1int,
{
    let j = skip_ws(s, i);
    lemma_skip_ws(s, i);
    if j < s.len() && s[j] == 34 && i <= j {
        match parse_string(s, j + 1, Seq::empty()) {
            None => {},
            Some((key, k0)) => {
                lemma_parse_string_advance(s, j + 1, Seq::empty());
                let k1 = skip_ws(s, k0);
                lemma_skip_ws(s, k0);
                if k1 < s.len() && s[k1] == 58 && i < k1 + 1 <= s.len() {
                    lemma_parse_value_advance(s, k1 + 1, depth);
                    match parse_value(s, k1 + 1, depth) {
                        None => {},
                        Some((v, m)) => {
                            let m1 = skip_ws(s, m);
                            lemma_skip_ws(s, m);
                            if m1 < s.len() && s[m1] == 44 {
                                if i < m1 + 1 <= s.len() {
                                    lemma_parse_members_advance(s, m1 + 1, depth, acc.push((key, v)));
                                }
                            }
                        },
                    }
                }
            },
        }
    }
}

/// First index at or after `i` that holds no JSON whitespace.
pub fn skip_ws_exec(data: &[u8], i: usize) -> (r: usize)
    requires
        i <= data@.len(),
    ensures
        r as int == skip_ws(data@, i as int),
        i <= r <= data@.len(),
{
    proof {
        lemma_skip_ws(data@, i as int);
    }
    let mut k: usize = i;
    while k < data.len()
        invariant
            i <= k <= data@.len(),
            skip_ws(data@, i as int) == skip_ws(data@, k as int),
        decreases data@.len() - k,
    {
        let c = data[k];
        if !(c == 32 || c == 9 || c == 10 || c == 13) {
            return k;
        }
        k = k + 1;
    }
    k
}

/// First index at or after `i` that holds no decimal digit.
pub fn scan_digits_exec(data: &[u8], i: usize) -> (r: usize)
    requires
        i <= data@.len(),
    ensures
        r as int == scan_digits(data@, i as int),
        i <= r <= data@.len(),
{
    proof {
        lemma_scan_digits(data@, i as int);
    }
    let mut k: usize = i;
    while k < data.len()
        invariant
            i <= k <= data@.len(),
            scan_digits(data@, i as int) == scan_digits(data@, k as int),
        decreases data@.len() - k,
    {
        let c = data[k];
        if !(48 <= c && c <= 57) {
            return k;
        }
        k = k + 1;
    }
    k
}

/// End of the JSON number starting at `i`, if one starts there.
pub fn parse_number_exec(data: &[u8], i: usize) -> (r: Option<usize>)
    requires
        i <= data@.len(),
    ensures
        match r {
            Some(e) => parse_number(data@, i as int) == Some(e as int) && i < e <= data@.len(),
            None => parse_number(data@, i as int) == None::<int>,
        },
{
    let ghost s = data@;
    let a: usize = if i < data.len() && data[i] == 45 {
        i + 1
    } else {
        i
    };
    if !(a < data.len() && 48 <= data[a] && data[a] <= 57) {
        return None;
    }
    let b: usize = if data[a] == 48 {
        a + 1
    } else {
        proof {
            lemma_scan_digits(s, a + 1 as int);
        }
        scan_digits_exec(data, a)
    };
    assert(a < b <= s.len());
    let c: usize = if b < data.len() && data[b] == 46 {
        if b + 1 < data.len() && 48 <= data[b + 1] && data[b + 1] <= 57 {
            proof {
                lemma_scan_digits(s, b + 1 as int);
            }
            scan_digits_exec(data, b + 1)
        } else {
            return None;
        }
    } else {
        b
    };
    assert(a < c <= s.len());
    let d: usize = if c < data.len() && (data[c] == 101 || data[c] == 69) {
        let e0: usize = if c + 1 < data.len() && (data[c + 1] == 43 || data[c + 1] == 45) {
            c + 2
        } else {
            c + 1
        };
        if e0 < data.len() && 48 <= data[e0] && data[e0] <= 57 {
            proof {
                lemma_scan_digits(s, e0 as int);
            }
            scan_digits_exec(data, e0)
        } else {
            return None;
        }
    } else {
        c
    };
    assert(a < d <= s.len());
    Some(d)
}

/// Value of a hex digit byte, or -1.
pub fn hex_val_exec(b: u8) -> (r: i32)
    ensures
        r as int == hex_val(b),
{
    if 48 <= b && b <= 57 {
        (b - 48) as i32
    } else if 97 <= b && b <= 102 {
        (b - 97) as i32 + 10
    } else if 65 <= b && b <= 70 {
        (b - 65) as i32 + 10
    } else {
        -1
    }
}

/// Append the UTF-8 encoding of code point `cp`.
pub fn push_utf8(acc: &mut Vec<u8>, cp: u32)
    requires
        cp < 0x110000,
    ensures
        final(acc)@ == old(acc)@ + utf8_enc(cp as int),
{
    if cp < 0x80 {
        acc.push(cp as u8);
        assert(acc@ =~= old(acc)@ + utf8_enc(cp as int));
    } else if cp < 0x800 {
        acc.push((0xC0 + cp / 0x40) as u8);
        acc.push((0x80 + cp % 0x40) as u8);
        assert(acc@ =~= old(acc)@ + utf8_enc(cp as int));
    } else if cp < 0x10000 {
        acc.push((0xE0 + cp / 0x1000) as u8);
        acc.push((0x80 + (cp / 0x40) % 0x40) as u8);
        acc.push((0x80 + cp % 0x40) as u8);
        assert(acc@ =~= old(acc)@ + utf8_enc(cp as int));
    } else {
        acc.push((0xF0 + cp / 0x40000) as u8);
        acc.push((0x80 + (cp / 0x1000) % 0x40) as u8);
        acc.push((0x80 + (cp / 0x40) % 0x40) as u8);
        acc.push((0x80 + cp % 0x40) as u8);
        assert(acc@ =~= old(acc)@ + utf8_enc(cp as int));
    }
}

/// Decode the string body starting at `i` (past the opening quote).
#[verifier::rlimit(100)]
fn parse_string_exec(data: &[u8], i: usize) -> (r: Option<(Vec<u8>, usize)>)
    requires
        i <= data@.len(),
    ensures
        match r {
            Some(p) => parse_string(data@, i as int, Seq::empty()) == Some((p.0@, p.1 as int))
                && i < p.1 <= data@.len(),
            None => parse_string(data@, i as int, Seq::empty()) == None::<(Seq<u8>, int)>,
        },
{
    proof {
        lemma_parse_string_advance(data@, i as int, Seq::empty());
    }
    let ghost s = data@;
    let mut acc: Vec<u8> = Vec::new();
    let mut k: usize = i;
    loop
        invariant
            i <= k <= s.len(),
            data@ == s,
            parse_string(s, i as int, Seq::empty()) == parse_string(s, k as int, acc@),
        decreases s.len() - k,
    {
        if k >= data.len() {
            return None;
        }
        let c = data[k];
        if c == 34 {
            return Some((acc, k + 1));
        } else if c == 92 {
            if k + 1 >= data.len() {
                return None;
            }
            let e = data[k + 1];
            if e == 34 || e == 92 || e == 47 {
                acc.push(e);
                k = k + 2;
            } else if e == 98 {
                acc.push(8);
                k = k + 2;
            } else if e == 102 {
                acc.push(12);
                k = k + 2;
            } else if e == 110 {
                acc.push(10);
                k = k + 2;
            } else if e == 114 {
                acc.push(13);
                k = k + 2;
            } else if e == 116 {
                acc.push(9);
                k = k + 2;
            } else if e == 117 {
                if data.len() - k < 6 {
                    assert(!hex4_ok(s, k + 2 as int));
                    return None;
                }
                let h0 = hex_val_exec(data[k + 2]);
                let h1 = hex_val_exec(data[k + 3]);
                let h2 = hex_val_exec(data[k + 4]);
                let h3 = hex_val_exec(data[k + 5]);
                if h0 < 0 || h1 < 0 || h2 < 0 || h3 < 0 {
                    assert(!hex4_ok(s, k + 2 as int));
                    return None;
                }
                assert(hex4_ok(s, k + 2 as int));
                let cp: u32 = (h0 as u32) * 0x1000 + (h1 as u32) * 0x100 + (h2 as u32) * 0x10
                    + (h3 as u32);
                assert(cp as int == hex4(s, k + 2 as int));
                if 0xD800 <= cp && cp <= 0xDBFF {
                    if data.len() - k < 12 || data[k + 6] != 92 || data[k + 7] != 117 {
                        return None;
                    }
                    let g0 = hex_val_exec(data[k + 8]);
                    let g1 = hex_val_exec(data[k + 9]);
                    let g2 = hex_val_exec(data[k + 10]);
                    let g3 = hex_val_exec(data[k + 11]);
                    if g0 < 0 || g1 < 0 || g2 < 0 || g3 < 0 {
                        assert(!hex4_ok(s, k + 8 as int));
                        return None;
                    }
                    assert(hex4_ok(s, k + 8 as int));
                    let lo: u32 = (g0 as u32) * 0x1000 + (g1 as u32) * 0x100 + (g2 as u32) * 0x10
                        + (g3 as u32);
                    assert(lo as int == hex4(s, k + 8 as int));
                    if !(0xDC00 <= lo && lo <= 0xDFFF) {
                        return None;
                    }
                    let full: u32 = 0x10000 + (cp - 0xD800) * 0x400 + (lo - 0xDC00);
                    push_utf8(&mut acc, full);
                    k = k + 12;
                } else if 0xDC00 <= cp && cp <= 0xDFFF {
                    return None;
                } else {
                    push_utf8(&mut acc, cp);
                    k = k + 6;
                }
            } else {
                return None;
            }
        } else if c < 32 {
            return None;
        } else {
            acc.push(c);
            k = k + 1;
        }
    }
}

/// Parse one JSON value starting at `i` with `depth` nesting levels
/// still allowed.
pub fn parse_value_exec(data: &[u8], i: usize, depth: u32) -> (r: Option<(JsonValue, usize)>)
    requires
        i <= data@.len(),
    ensures
        match r {
            Some(p) => parse_value(data@, i as int, depth as nat) == Some((jv(p.0), p.1 as int))
                && i < p.1 <= data@.len(),
            None => parse_value(data@, i as int, depth as nat) == None::<(JsonV, int)>,
        },
    decreases depth,
{
    proof {
        lemma_parse_value_advance(data@, i as int, depth as nat);
    }
    let ghost s = data@;
    let j = skip_ws_exec(data, i);
    if j >= data.len() {
        return None;
    }
    let c = data[j];
    if c == 110 {
        if data.len() - j >= 4 && data[j + 1] == 117 && data[j + 2] == 108 && data[j + 3] == 108 {
            Some((JsonValue::Null, j + 4))
        } else {
            None
        }
    } else if c == 116 {
        if data.len() - j >= 4 && data[j + 1] == 114 && data[j + 2] == 117 && data[j + 3] == 101 {
            Some((JsonValue::Bool(true), j + 4))
        } else {
            None
        }
    } else if c == 102 {
        if data.len() - j >= 5 && data[j + 1] == 97 && data[j + 2] == 108 && data[j + 3] == 115
            && data[j + 4] == 101 {
            Some((JsonValue::Bool(false), j + 5))
        } else {
            None
        }
    } else if c == 34 {
        match parse_string_exec(data, j + 1) {
            Some(p) => Some((JsonValue::Str(p.0), p.1)),
            None => None,
        }
    } else if c == 91 {
        if depth == 0 {
            return None;
        }
        let k = skip_ws_exec(data, j + 1);
        if k < data.len() && data[k] == 93 {
            let empty_elems: Vec<JsonValue> = Vec::new();
            proof {
                assert(jv_list(empty_elems@) =~= Seq::<JsonV>::empty());
            }
            return Some((JsonValue::Arr(empty_elems), k + 1));
        }
        let d2: u32 = depth - 1;
        let mut elems: Vec<JsonValue> = Vec::new();
        let mut pos: usize = j + 1;
        proof {
            assert(jv_list(elems@) =~= Seq::<JsonV>::empty());
        }
        loop
            invariant
                data@ == s,
                i <= j < s.len(),
                j + 1 <= pos <= s.len(),
                d2 < depth,
                parse_elems(s, j + 1 as int, d2 as nat, Seq::empty()) == parse_elems(
                    s,
                    pos as int,
                    d2 as nat,
                    jv_list(elems@),
                ),
                parse_value(s, i as int, depth as nat) == (match parse_elems(
                    s,
                    j + 1 as int,
                    d2 as nat,
                    Seq::empty(),
                ) {
                    Some((xs, m)) => Some((JsonV::Arr(xs), m)),
                    None => None::<(JsonV, int)>,
                }),
            decreases s.len() - pos,
        {
            proof {
                lemma_parse_value_advance(s, pos as int, d2 as nat);
            }
            match parse_value_exec(data, pos, d2) {
                None => {
                    return None;
                },
                Some(p) => {
                    let v = p.0;
                    let vj = p.1;
                    let k2 = skip_ws_exec(data, vj);
                    if k2 < data.len() && data[k2] == 44 {
                        proof {
                            lemma_jv_list_push(elems@, v);
                        }
                        elems.push(v);
                        pos = k2 + 1;
                    } else if k2 < data.len() && data[k2] == 93 {
                        proof {
                            lemma_jv_list_push(elems@, v);
                        }
                        elems.push(v);
                        return Some((JsonValue::Arr(elems), k2 + 1));
                    } else {
                        return None;
                    }
                },
            }
        }
    } else if c == 123 {
        if depth == 0 {
            return None;
        }
        let k = skip_ws_exec(data, j + 1);
        if k < data.len() && data[k] == 125 {
            let empty_pairs: Vec<(Vec<u8>, JsonValue)> = Vec::new();
            proof {
                assert(jv_pairs(empty_pairs@) =~= Seq::<(Seq<u8>, JsonV)>::empty());
            }
            return Some((JsonValue::Obj(empty_pairs), k + 1));
        }
        let d2: u32 = depth - 1;
        let mut pairs: Vec<(Vec<u8>, JsonValue)> = Vec::new();
        let mut pos: usize = j + 1;
        proof {
            assert(jv_pairs(pairs@) =~= Seq::<(Seq<u8>, JsonV)>::empty());
        }
        loop
            invariant
                data@ == s,
                i <= j < s.len(),
                j + 1 <= pos <= s.len(),
                d2 < depth,
                parse_members(s, j + 1 as int, d2 as nat, Seq::empty()) == parse_members(
                    s,
                    pos as int,
                    d2 as nat,
                    jv_pairs(pairs@),
                ),
                parse_value(s, i as int, depth as nat) == (match parse_members(
                    s,
                    j + 1 as int,
                    d2 as nat,
                    Seq::empty(),
                ) {
                    Some((ps, m)) => Some((JsonV::Obj(ps), m)),
                    None => None::<(JsonV, int)>,
                }),
            decreases s.len() - pos,
        {
            let j2 = skip_ws_exec(data, pos);
            if !(j2 < data.len() && data[j2] == 34) {
                return None;
            }
            match parse_string_exec(data, j2 + 1) {
                None => {
                    return None;
                },
                Some(kp) => {
                    let key = kp.0;
                    let k0 = kp.1;
                    let k1 = skip_ws_exec(data, k0);
                    if !(k1 < data.len() && data[k1] == 58) {
                        return None;
                    }
                    proof {
                        lemma_parse_value_advance(s, k1 + 1 as int, d2 as nat);
                    }
                    match parse_value_exec(data, k1 + 1, d2) {
                        None => {
                            return None;
                        },
                        Some(vp) => {
                            let v = vp.0;
                            let m = vp.1;
                            let m1 = skip_ws_exec(data, m);
                            if m1 < data.len() && data[m1] == 44 {
                                proof {
                                    lemma_jv_pairs_push(pairs@, key, v);
                                }
                                pairs.push((key, v));
                                pos = m1 + 1;
                            } else if m1 < data.len() && data[m1] == 125 {
                                proof {
                                    lemma_jv_pairs_push(pairs@, key, v);
                                }
                                pairs.push((key, v));
                                return Some((JsonValue::Obj(pairs), m1 + 1));
                            } else {
                                return None;
                            }
                        },
                    }
                },
            }
        }
    } else if c == 45 || (48 <= c && c <= 57) {
        match parse_number_exec(data, j) {
            Some(e) => {
                let lex = crate::bytes::copy_range(data, j, e);
                Some((JsonValue::Num(lex), e))
            },
            None => None,
        }
    } else {
        None
    }
}

/// Parse a complete JSON document from `data`: one value with nothing
/// but whitespace after it.
pub fn parse_json(data: &[u8]) -> (r: Option<JsonValue>)
    ensures
        match r {
            Some(v) => spec_parse(data@) == Some(jv(v)),
            None => spec_parse(data@) == None::<JsonV>,
        },
{
    proof {
        reveal(spec_parse);
    }
    match parse_value_exec(data, 0, 128) {
        Some(p) => {
            let j = skip_ws_exec(data, p.1);
            if j == data.len() {
                Some(p.0)
            } else {
                None
            }
        },
        None => None,
    }
}

/// `data` forms one complete JSON document.
pub fn validate_json(data: &[u8]) -> (r: bool)
    ensures
        r == is_valid_json(data@),
{
    proof {
        reveal(is_valid_json);
    }
    parse_json(data).is_some()
}

} // verus!
