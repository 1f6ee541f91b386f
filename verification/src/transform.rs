//! The declarative transform engine: a compiled plan reshapes records
//! line by line on the NDJSON intermediate — projection, defaults,
//! coercion, and computed fields in a small expression language.
use vstd::prelude::*;
use crate::json::{JsonV, JsonValue, jv, jv_pairs};

verus! {

/// Whether the output record starts empty or as a copy of the input.
#[derive(Debug, Clone, Copy, PartialEq, Eq, Structural)]
pub enum TransformMode {
    Replace,
    Augment,
}

/// What happens when a non-required source field is missing or null.
#[derive(Debug, Clone, Copy, PartialEq, Eq, Structural)]
pub enum MissingFieldPolicy {
    Error,
    Null,
    Drop,
}

/// What happens when a required source field is missing or null.
#[derive(Debug, Clone, Copy, PartialEq, Eq, Structural)]
pub enum MissingRequiredPolicy {
    Error,
    Abort,
}

/// What happens when a coercion fails.
#[derive(Debug, Clone, Copy, PartialEq, Eq, Structural)]
pub enum CoerceErrorPolicy {
    Error,
    Null,
    DropRecord,
}

/// Timestamp input interpretations for the millisecond coercion.
#[derive(Debug, Clone, Copy, PartialEq, Eq, Structural)]
pub enum TimestampFormat {
    Iso8601,
    UnixMs,
    UnixS,
}

/// Target type of a field coercion.
#[derive(Debug, Clone)]
pub enum CoerceSpec {
    String,
    I64,
    F64,
    Bool,
    TimestampMs { format: Option<TimestampFormat> },
}

/// A compiled compute expression.
#[derive(Debug)]
pub enum Expr {
    Literal(JsonValue),
    Field(Vec<u8>),
    Binary { op: BinaryOp, left: Box<Expr>, right: Box<Expr> },
    Function { name: Vec<u8>, args: Vec<Expr> },
    UnaryNeg(Box<Expr>),
}

#[derive(Debug, Clone, Copy, PartialEq, Eq, Structural)]
pub enum BinaryOp {
    Add,
    Subtract,
    Multiply,
    Divide,
}

/// One field mapping as the host supplies it.
#[derive(Debug)]
pub struct FieldMapInput {
    pub target_field_name: String,
    pub origin_field_name: Option<String>,
    pub required: Option<bool>,
    pub default_value: Option<JsonValue>,
    pub coerce: Option<CoerceSpec>,
    pub compute: Option<String>,
}

/// A whole transform configuration as the host supplies it.
#[derive(Debug)]
pub struct TransformConfigInput {
    pub mode: TransformMode,
    pub fields: Vec<FieldMapInput>,
    pub on_missing_field: Option<MissingFieldPolicy>,
    pub on_missing_required: Option<MissingRequiredPolicy>,
    pub on_coerce_error: Option<CoerceErrorPolicy>,
}

/// A compiled field mapping.
#[derive(Debug)]
pub struct TransformField {
    pub target_field_name: Vec<u8>,
    pub origin_field_name: Vec<u8>,
    pub required: bool,
    pub default_value: Option<JsonValue>,
    pub coerce: Option<CoerceSpec>,
    pub compute: Option<Expr>,
}

/// A compiled, immutable transform plan.
#[derive(Debug)]
pub struct TransformPlan {
    pub mode: TransformMode,
    pub fields: Vec<TransformField>,
    pub on_missing_field: MissingFieldPolicy,
    pub on_missing_required: MissingRequiredPolicy,
    pub on_coerce_error: CoerceErrorPolicy,
}

/// The outcome of pushing a chunk through the transform engine.
#[derive(Debug)]
pub struct TransformResult {
    pub output: Vec<u8>,
    pub records: usize,
}

/// What lowercasing a UTF-8 string yields: the result depends on the
/// bytes alone.
pub uninterp spec fn lower_bytes_of(s: Seq<u8>) -> Seq<u8>;

/// What uppercasing a UTF-8 string yields: the result depends on the
/// bytes alone.
pub uninterp spec fn upper_bytes_of(s: Seq<u8>) -> Seq<u8>;

/// Relies on str::to_lowercase, applied to the lossy decoding of the
/// bytes: Unicode lowercasing, a pure function of its input.
#[verifier::external_body]
fn lower_bytes(b: &[u8]) -> (r: Vec<u8>)
    ensures
        r@ == lower_bytes_of(b@),
{
    String::from_utf8_lossy(b).to_lowercase().into_bytes()
}

/// Relies on str::to_uppercase, applied to the lossy decoding of the
/// bytes: Unicode uppercasing, a pure function of its input.
#[verifier::external_body]
fn upper_bytes(b: &[u8]) -> (r: Vec<u8>)
    ensures
        r@ == upper_bytes_of(b@),
{
    String::from_utf8_lossy(b).to_uppercase().into_bytes()
}

/// What chrono yields for an RFC 3339 timestamp: the epoch milliseconds
/// when the text parses, a function of the text alone.
pub uninterp spec fn rfc3339_millis(s: Seq<u8>) -> Option<i64>;

/// Relies on chrono's DateTime::parse_from_rfc3339 and
/// DateTime::timestamp_millis: parses an RFC 3339 timestamp with its
/// offset and returns epoch milliseconds; no clock or zone database is
/// consulted, so the result depends on the text alone.
#[verifier::external_body]
fn parse_rfc3339_millis(b: &[u8]) -> (r: Option<i64>)
    ensures
        r == rfc3339_millis(b@),
{
    match std::str::from_utf8(b) {
        Ok(s) => match chrono::DateTime::parse_from_rfc3339(s) {
            Ok(dt) => Some(dt.timestamp_millis()),
            Err(_) => None,
        },
        Err(_) => None,
    }
}

/// Parse an unsigned run of digits with the machine-width cap the
/// engine enforces; `any` says whether a digit was seen.
pub open spec fn parse_uint_at(s: Seq<u8>, i: int, acc: int, any: bool) -> Option<int>
    decreases s.len() - i,
{
    if i < 0 || i >= s.len() {
        if any {
            Some(acc)
        } else {
            None
        }
    } else if 48 <= s[i] <= 57 {
        if acc > (i128::MAX - (s[i] - 48)) / 10 {
            None
        } else {
            parse_uint_at(s, i + 1, acc * 10 + (s[i] - 48), true)
        }
    } else {
        None
    }
}

/// A strict integer: optional minus, then digits only.
pub open spec fn parse_int_spec(s: Seq<u8>) -> Option<int> {
    if s.len() > 0 && s[0] == 45 {
        match parse_uint_at(s, 1, 0, false) {
            Some(n) => Some(-n),
            None => None,
        }
    } else {
        parse_uint_at(s, 0, 0, false)
    }
}

/// The integer part of a decimal lexeme: optional minus, digits, and
/// optionally a dot followed by digits to the end.
pub open spec fn int_part(s: Seq<u8>) -> Option<int> {
    let neg = s.len() > 0 && s[0] == 45;
    let a: int = if neg {
        1
    } else {
        0
    };
    let e = crate::json::scan_digits(s, a);
    if e <= a {
        None
    } else if e == s.len() || (s[e] == 46 && e + 1 < s.len() && crate::json::scan_digits(s, e + 1)
        == s.len()) {
        match parse_uint_at(s.subrange(a, e), 0, 0, false) {
            Some(n) => Some(
                if neg {
                    -n
                } else {
                    n
                },
            ),
            None => None,
        }
    } else {
        None
    }
}

/// The decimal lexeme of an integer.
pub open spec fn fmt_int(n: int) -> Seq<u8> {
    if n < 0 {
        seq![45u8] + crate::csv_parser::dec_digits((-n) as nat)
    } else {
        crate::csv_parser::dec_digits(n as nat)
    }
}

/// The lexeme of an integer-valued computed number: the digits and a
/// trailing `.0`, as a floating result prints.
pub open spec fn fmt_num(n: int) -> Seq<u8> {
    fmt_int(n) + seq![46u8, 48u8]
}

pub proof fn lemma_parse_uint_nonneg(s: Seq<u8>, i: int, acc: int, any: bool)
    requires
        0 <= acc <= i128::MAX,
    ensures
        match parse_uint_at(s, i, acc, any) {
            Some(n) => 0 <= n <= i128::MAX,
            None => true,
        },
    decreases s.len() - i,
{
    if 0 <= i < s.len() && 48 <= s[i] <= 57 && !(acc > (i128::MAX - (s[i] - 48)) / 10) {
        assert(acc * 10 + (s[i] - 48) <= i128::MAX) by (nonlinear_arith)
            requires
                0 <= acc,
                acc <= (i128::MAX - (s[i] - 48)) / 10,
                48 <= s[i] <= 57,
        ;
        lemma_parse_uint_nonneg(s, i + 1, acc * 10 + (s[i] - 48), true);
    }
}

/// Every number an operand stands for is machine-bounded.
pub proof fn lemma_as_number_bounds(v: JsonV)
    ensures
        match as_number(v) {
            Some(n) => -i128::MAX <= n <= i128::MAX,
            None => true,
        },
{
    match v {
        JsonV::Num(lex) => {
            if lex.len() > 0 && lex[0] == 45 {
                lemma_parse_uint_nonneg(lex, 1, 0, false);
            } else {
                lemma_parse_uint_nonneg(lex, 0, 0, false);
            }
        },
        JsonV::Str(t) => {
            if t.len() > 0 && t[0] == 45 {
                lemma_parse_uint_nonneg(t, 1, 0, false);
            } else {
                lemma_parse_uint_nonneg(t, 0, 0, false);
            }
        },
        _ => {},
    }
}

/// Parse a strict integer from bytes.
fn parse_int_exec(s: &[u8]) -> (r: Option<i128>)
    ensures
        match r {
            Some(n) => parse_int_spec(s@) == Some(n as int),
            None => parse_int_spec(s@) == None::<int>,
        },
{
    let neg = s.len() > 0 && s[0] == 45;
    let start: usize = if neg {
        1
    } else {
        0
    };
    let mut acc: i128 = 0;
    let mut any: bool = false;
    let mut i: usize = start;
    loop
        invariant
            start <= i <= s@.len(),
            acc >= 0,
            neg == (s@.len() > 0 && s@[0] == 45),
            parse_int_spec(s@) == (match parse_uint_at(s@, i as int, acc as int, any) {
                Some(n) => Some(
                    if neg {
                        -n
                    } else {
                        n
                    },
                ),
                None => None::<int>,
            }),
        decreases s@.len() - i,
    {
        if i >= s.len() {
            if !any {
                return None;
            }
            if neg {
                return Some(-acc);
            }
            return Some(acc);
        }
        let b = s[i];
        if 48 <= b && b <= 57 {
            let d = (b - 48) as i128;
            if acc > (i128::MAX - d) / 10 {
                return None;
            }
            acc = acc * 10 + d;
            any = true;
            i = i + 1;
        } else {
            return None;
        }
    }
}

/// Parse the integer part of a decimal lexeme.
fn int_part_exec(s: &[u8]) -> (r: Option<i128>)
    ensures
        match r {
            Some(n) => int_part(s@) == Some(n as int),
            None => int_part(s@) == None::<int>,
        },
{
    let neg = s.len() > 0 && s[0] == 45;
    let start: usize = if neg {
        1
    } else {
        0
    };
    proof {
        crate::json::lemma_scan_digits(s@, start as int);
    }
    let e = crate::json::scan_digits_exec(s, start);
    if e <= start {
        return None;
    }
    let tail_ok: bool = if e == s.len() {
        true
    } else if s[e] == 46 && e + 1 < s.len() {
        proof {
            crate::json::lemma_scan_digits(s@, e + 1);
        }
        let e2 = crate::json::scan_digits_exec(s, e + 1);
        e2 == s.len()
    } else {
        false
    };
    if !tail_ok {
        return None;
    }
    let digits = crate::bytes::copy_range(s, start, e);
    proof {
        assert(digits@ =~= s@.subrange(start as int, e as int));
    }
    match parse_int_exec(digits.as_slice()) {
        Some(n) => {
            proof {
                assert(parse_int_spec(digits@) == parse_uint_at(digits@, 0, 0, false));
                lemma_parse_uint_nonneg(digits@, 0, 0, false);
            }
            if neg {
                Some(-n)
            } else {
                Some(n)
            }
        },
        None => None,
    }
}

/// Append the decimal lexeme of `n`.
fn write_int(out: &mut Vec<u8>, n: i128)
    requires
        n > i128::MIN,
    ensures
        final(out)@ == old(out)@ + fmt_int(n as int),
{
    if n < 0 {
        out.push(45);
        write_dec_u128(out, (-n) as u128);
        proof {
            assert(out@ =~= old(out)@ + fmt_int(n as int));
        }
    } else {
        write_dec_u128(out, n as u128);
    }
}

/// Append the decimal digits of `n`.
fn write_dec_u128(out: &mut Vec<u8>, n: u128)
    ensures
        final(out)@ == old(out)@ + crate::csv_parser::dec_digits(n as nat),
    decreases n,
{
    if n < 10 {
        out.push(48 + (n as u8));
        assert(out@ =~= old(out)@ + crate::csv_parser::dec_digits(n as nat));
    } else {
        write_dec_u128(out, n / 10);
        out.push(48 + ((n % 10) as u8));
        assert(out@ =~= old(out)@ + crate::csv_parser::dec_digits(n as nat));
    }
}

/// The integer an operand stands for: integer lexemes and numeric
/// strings, and booleans as one and zero.
pub open spec fn as_number(v: JsonV) -> Option<int> {
    match v {
        JsonV::Num(lex) => parse_int_spec(lex),
        JsonV::Str(s) => parse_int_spec(s),
        JsonV::Bool(t) => Some(
            if t {
                1int
            } else {
                0int
            },
        ),
        _ => None,
    }
}

/// The integer an operand stands for.
fn as_number_exec(v: &JsonValue) -> (r: Option<i128>)
    ensures
        match r {
            Some(n) => as_number(jv(*v)) == Some(n as int),
            None => as_number(jv(*v)) == None::<int>,
        },
{
    match v {
        JsonValue::Num(lex) => parse_int_exec(lex.as_slice()),
        JsonValue::Str(s) => parse_int_exec(s.as_slice()),
        JsonValue::Bool(t) => Some(
            if *t {
                1
            } else {
                0
            },
        ),
        _ => None,
    }
}

/// Evaluate an expression against a record: literals, field lookups
/// (null when absent), integer arithmetic over numeric operands, and
/// the fixed function set. `None` is an evaluation error. Arithmetic
/// here is exact over integers: an operand with a fractional part, or
/// a quotient that is not an integer, is an evaluation error rather
/// than an approximate result — floating point has no place in this
/// library, so only the exactly representable cases are defined.
pub open spec fn eval_spec(e: Expr, rec: Seq<(Seq<u8>, JsonV)>) -> Option<JsonV>
    decreases e, 0int, 0int,
{
    match e {
        Expr::Literal(v) => Some(jv(v)),
        Expr::Field(name) => match crate::json_canon::assoc_get(rec, name@) {
            Some(v) => Some(v),
            None => Some(JsonV::Null),
        },
        Expr::UnaryNeg(b) => match eval_spec(*b, rec) {
            Some(v) => match as_number(v) {
                Some(n) => if -n <= i128::MAX {
                    Some(JsonV::Num(fmt_num(-n)))
                } else {
                    None
                },
                None => None,
            },
            None => None,
        },
        Expr::Binary { op, left, right } => match (eval_spec(*left, rec), eval_spec(
            *right,
            rec,
        )) {
            (Some(lv), Some(rv)) => match (as_number(lv), as_number(rv)) {
                (Some(ln), Some(rn)) => eval_binop(op, ln, rn),
                _ => None,
            },
            _ => None,
        },
        Expr::Function { name, args } => {
            if name@ == seq![99u8, 111u8, 110u8, 99u8, 97u8, 116u8] {
                match concat_fold(args@, 0, rec, Seq::empty()) {
                    Some(bytes) => Some(JsonV::Str(bytes)),
                    None => None,
                }
            } else if name@ == seq![108u8, 111u8, 119u8, 101u8, 114u8] {
                match single_string(args@, rec) {
                    Some(s) => Some(JsonV::Str(lower_bytes_of(s))),
                    None => None,
                }
            } else if name@ == seq![117u8, 112u8, 112u8, 101u8, 114u8] {
                match single_string(args@, rec) {
                    Some(s) => Some(JsonV::Str(upper_bytes_of(s))),
                    None => None,
                }
            } else if name@ == seq![116u8, 114u8, 105u8, 109u8] {
                match single_string(args@, rec) {
                    Some(s) => Some(JsonV::Str(crate::detect::spec_trim_ascii(s))),
                    None => None,
                }
            } else if name@ == seq![99u8, 111u8, 97u8, 108u8, 101u8, 115u8, 99u8, 101u8] {
                coalesce_fold(args@, 0, rec)
            } else {
                None
            }
        },
    }
}

/// One arithmetic step: exact integer arithmetic within machine bounds;
/// a division must be exact, and dividing by zero yields zero, as an
/// unrepresentable quotient prints.
pub open spec fn eval_binop(op: BinaryOp, ln: int, rn: int) -> Option<JsonV> {
    match op {
        BinaryOp::Add => if i128::MIN < ln + rn <= i128::MAX {
            Some(JsonV::Num(fmt_num(ln + rn)))
        } else {
            None
        },
        BinaryOp::Subtract => if i128::MIN < ln - rn <= i128::MAX {
            Some(JsonV::Num(fmt_num(ln - rn)))
        } else {
            None
        },
        BinaryOp::Multiply => if i128::MIN < ln * rn <= i128::MAX {
            Some(JsonV::Num(fmt_num(ln * rn)))
        } else {
            None
        },
        BinaryOp::Divide => if rn == 0 {
            Some(JsonV::Num(seq![48u8]))
        } else {
            let la: int = if ln < 0 {
                -ln
            } else {
                ln
            };
            let ra: int = if rn < 0 {
                -rn
            } else {
                rn
            };
            if la % ra == 0 {
                let q: int = if (ln < 0) != (rn < 0) {
                    -(la / ra)
                } else {
                    la / ra
                };
                Some(JsonV::Num(fmt_num(q)))
            } else {
                None
            }
        },
    }
}

/// Concatenate argument values: null adds nothing, strings their
/// bytes, and any other value its JSON text.
pub open spec fn concat_fold(args: Seq<Expr>, i: int, rec: Seq<(Seq<u8>, JsonV)>, acc: Seq<
    u8,
>) -> Option<Seq<u8>>
    decreases args, args.len() - i, 1int,
{
    if i < 0 || i >= args.len() {
        Some(acc)
    } else {
        match eval_spec(args[i], rec) {
            None => None,
            Some(v) => {
                let acc2 = match v {
                    JsonV::Null => acc,
                    JsonV::Str(s) => acc + s,
                    other => acc + crate::json_out::ser(other),
                };
                concat_fold(args, i + 1, rec, acc2)
            },
        }
    }
}

/// The first argument that evaluates to a non-null value, or null.
pub open spec fn coalesce_fold(args: Seq<Expr>, i: int, rec: Seq<(Seq<u8>, JsonV)>) -> Option<
    JsonV,
>
    decreases args, args.len() - i, 1int,
{
    if i < 0 || i >= args.len() {
        Some(JsonV::Null)
    } else {
        match eval_spec(args[i], rec) {
            None => None,
            Some(v) => if !(v is Null) {
                Some(v)
            } else {
                coalesce_fold(args, i + 1, rec)
            },
        }
    }
}

/// The single string argument of a one-argument string function.
pub open spec fn single_string(args: Seq<Expr>, rec: Seq<(Seq<u8>, JsonV)>) -> Option<Seq<u8>>
    decreases args, 0int, 1int,
{
    if args.len() != 1 {
        None
    } else {
        match eval_spec(args[0], rec) {
            Some(v) => match v {
                JsonV::Str(s) => Some(s),
                _ => None,
            },
            None => None,
        }
    }
}

/// Evaluate an expression against a record.
#[verifier::rlimit(100)]
pub fn eval_exec(e: &Expr, rec: &Vec<(Vec<u8>, JsonValue)>) -> (r: Option<JsonValue>)
    ensures
        match r {
            Some(v) => eval_spec(*e, jv_pairs(rec@)) == Some(jv(v)),
            None => eval_spec(*e, jv_pairs(rec@)) == None::<JsonV>,
        },
    decreases e, 0int, 0int,
{
    match e {
        Expr::Literal(v) => Some(crate::json_canon::clone_json(v)),
        Expr::Field(name) => {
            proof {
                crate::json::lemma_jv_pairs_len(rec@);
            }
            match crate::json_canon::assoc_find(rec, name.as_slice()) {
                Some(i) => {
                    proof {
                        assert(jv_pairs(rec@)[i as int] == (rec@[i as int].0@, jv(
                            rec@[i as int].1,
                        )));
                    }
                    Some(crate::json_canon::clone_json(&rec[i].1))
                },
                None => Some(JsonValue::Null),
            }
        },
        Expr::UnaryNeg(b) => {
            proof {
                assert(decreases_to!(*e => (*e)->UnaryNeg_0));
            }
            match eval_exec(&*b, rec) {
                Some(v) => {
                    match as_number_exec(&v) {
                        Some(n) => {
                            if n == i128::MIN {
                                proof {
                                    assert(eval_spec(*e, jv_pairs(rec@)) == None::<JsonV>);
                                }
                                return None;
                            }
                            let mut lex: Vec<u8> = Vec::new();
                            write_int(&mut lex, -n);
                            lex.push(46);
                            lex.push(48);
                            proof {
                                assert(lex@ =~= fmt_num(-(n as int)));
                            }
                            Some(JsonValue::Num(lex))
                        },
                        None => None,
                    }
                },
                None => None,
            }
        },
        Expr::Binary { op, left, right } => {
            proof {
                assert(decreases_to!(*e => (*e)->Binary_left));
                assert(decreases_to!(*e => (*e)->Binary_right));
            }
            let lv = match eval_exec(&*left, rec) {
                Some(v) => v,
                None => {
                    return None;
                },
            };
            let rv = match eval_exec(&*right, rec) {
                Some(v) => v,
                None => {
                    return None;
                },
            };
            let ln = match as_number_exec(&lv) {
                Some(n) => n,
                None => {
                    return None;
                },
            };
            let rn = match as_number_exec(&rv) {
                Some(n) => n,
                None => {
                    return None;
                },
            };
            let result: i128 = match op {
                BinaryOp::Add => {
                    match ln.checked_add(rn) {
                        Some(x) => if x == i128::MIN {
                            return None;
                        } else {
                            x
                        },
                        None => {
                            return None;
                        },
                    }
                },
                BinaryOp::Subtract => {
                    match ln.checked_sub(rn) {
                        Some(x) => if x == i128::MIN {
                            return None;
                        } else {
                            x
                        },
                        None => {
                            return None;
                        },
                    }
                },
                BinaryOp::Multiply => {
                    match ln.checked_mul(rn) {
                        Some(x) => if x == i128::MIN {
                            return None;
                        } else {
                            x
                        },
                        None => {
                            return None;
                        },
                    }
                },
                BinaryOp::Divide => {
                    if rn == 0 {
                        let mut z: Vec<u8> = Vec::new();
                        z.push(48);
                        proof {
                            assert(z@ =~= seq![48u8]);
                        }
                        return Some(JsonValue::Num(z));
                    }
                    proof {
                        lemma_as_number_bounds(jv(lv));
                        lemma_as_number_bounds(jv(rv));
                    }
                    let la: u128 = if ln < 0 {
                        (-ln) as u128
                    } else {
                        ln as u128
                    };
                    let ra: u128 = if rn < 0 {
                        (-rn) as u128
                    } else {
                        rn as u128
                    };
                    if la % ra != 0 {
                        return None;
                    }
                    let q0 = la / ra;
                    let q: i128 = if (ln < 0) != (rn < 0) {
                        -(q0 as i128)
                    } else {
                        q0 as i128
                    };
                    q
                },
            };
            let mut lex: Vec<u8> = Vec::new();
            write_int(&mut lex, result);
            lex.push(46);
            lex.push(48);
            proof {
                assert(lex@ =~= fmt_num(result as int));
            }
            Some(JsonValue::Num(lex))
        },
        Expr::Function { name, args } => {
            let is_concat = crate::bytes::bytes_eq(
                name.as_slice(),
                &[99u8, 111u8, 110u8, 99u8, 97u8, 116u8],
            );
            let is_lower = crate::bytes::bytes_eq(
                name.as_slice(),
                &[108u8, 111u8, 119u8, 101u8, 114u8],
            );
            let is_upper = crate::bytes::bytes_eq(
                name.as_slice(),
                &[117u8, 112u8, 112u8, 101u8, 114u8],
            );
            let is_trim = crate::bytes::bytes_eq(name.as_slice(), &[116u8, 114u8, 105u8, 109u8]);
            let is_coalesce = crate::bytes::bytes_eq(
                name.as_slice(),
                &[99u8, 111u8, 97u8, 108u8, 101u8, 115u8, 99u8, 101u8],
            );
            if is_concat {
                let mut acc: Vec<u8> = Vec::new();
                let mut i: usize = 0;
                proof {
                    assert(acc@ =~= Seq::<u8>::empty());
                }
                loop
                    invariant_except_break
                        0 <= i <= args@.len(),
                        *e == (Expr::Function { name: *name, args: *args }),
                        name@ == seq![99u8, 111u8, 110u8, 99u8, 97u8, 116u8],
                        concat_fold(args@, 0, jv_pairs(rec@), Seq::empty()) == concat_fold(
                            args@,
                            i as int,
                            jv_pairs(rec@),
                            acc@,
                        ),
                    ensures
                        concat_fold(args@, 0, jv_pairs(rec@), Seq::empty()) == Some(acc@),
                    decreases args@.len() - i,
                {
                    if i >= args.len() {
                        break;
                    }
                    proof {
                        assert(decreases_to!(*e => (*e)->Function_args));
                        assert((*e)->Function_args == *args);
                        assert(decreases_to!(*args => args@));
                        assert(decreases_to!(args@ => args@[i as int]));
                    }
                    match eval_exec(&args[i], rec) {
                        None => {
                            return None;
                        },
                        Some(v) => {
                            match v {
                                JsonValue::Null => {},
                                JsonValue::Str(s) => {
                                    crate::bytes::append_slice(&mut acc, s.as_slice());
                                },
                                other => {
                                    let t = crate::json_out::ser_to_vec(&other);
                                    crate::bytes::append_slice(&mut acc, t.as_slice());
                                },
                            }
                        },
                    }
                    i = i + 1;
                }
                Some(JsonValue::Str(acc))
            } else if is_lower || is_upper || is_trim {
                if args.len() != 1 {
                    proof {
                        assert(*e == (Expr::Function { name: *name, args: *args }));
                        assert(args@.len() != 1);
                        assert(single_string(args@, jv_pairs(rec@)) == None::<Seq<u8>>);
                        if is_lower {
                            assert(eval_spec(*e, jv_pairs(rec@)) == None::<JsonV>);
                        }
                        if is_upper {
                            assert(eval_spec(*e, jv_pairs(rec@)) == None::<JsonV>);
                        }
                        if is_trim {
                            assert(eval_spec(*e, jv_pairs(rec@)) == None::<JsonV>);
                        }
                    }
                    return None;
                }
                proof {
                    assert(decreases_to!(*e => (*e)->Function_args));
                    assert((*e)->Function_args == *args);
                    assert(decreases_to!(*args => args@));
                    assert(decreases_to!(args@ => args@[0int]));
                }
                match eval_exec(&args[0], rec) {
                    None => None,
                    Some(v) => {
                        match v {
                            JsonValue::Str(s) => {
                                if is_lower {
                                    Some(JsonValue::Str(lower_bytes(s.as_slice())))
                                } else if is_upper {
                                    Some(JsonValue::Str(upper_bytes(s.as_slice())))
                                } else {
                                    Some(JsonValue::Str(crate::detect::trim_ascii(s.as_slice())))
                                }
                            },
                            _ => None,
                        }
                    },
                }
            } else if is_coalesce {
                let mut i: usize = 0;
                loop
                    invariant_except_break
                        0 <= i <= args@.len(),
                        *e == (Expr::Function { name: *name, args: *args }),
                        name@ == seq![99u8, 111u8, 97u8, 108u8, 101u8, 115u8, 99u8, 101u8],
                        coalesce_fold(args@, 0, jv_pairs(rec@)) == coalesce_fold(
                            args@,
                            i as int,
                            jv_pairs(rec@),
                        ),
                    ensures
                        coalesce_fold(args@, 0, jv_pairs(rec@)) == Some(JsonV::Null),
                    decreases args@.len() - i,
                {
                    if i >= args.len() {
                        break;
                    }
                    proof {
                        assert(decreases_to!(*e => (*e)->Function_args));
                        assert((*e)->Function_args == *args);
                        assert(decreases_to!(*args => args@));
                        assert(decreases_to!(args@ => args@[i as int]));
                    }
                    match eval_exec(&args[i], rec) {
                        None => {
                            return None;
                        },
                        Some(v) => {
                            match v {
                                JsonValue::Null => {},
                                other => {
                                    return Some(other);
                                },
                            }
                        },
                    }
                    i = i + 1;
                }
                Some(JsonValue::Null)
            } else {
                None
            }
        },
    }
}

/// Coerce a value to the requested type; `None` is a coercion error.
pub open spec fn coerce_spec(v: JsonV, c: CoerceSpec) -> Option<JsonV> {
    match c {
        CoerceSpec::String => Some(
            JsonV::Str(
                match v {
                    JsonV::Str(s) => s,
                    JsonV::Num(n) => n,
                    JsonV::Bool(t) => if t {
                        seq![116u8, 114u8, 117u8, 101u8]
                    } else {
                        seq![102u8, 97u8, 108u8, 115u8, 101u8]
                    },
                    JsonV::Null => Seq::empty(),
                    other => crate::json_out::ser(other),
                },
            ),
        ),
        CoerceSpec::I64 => match v {
            JsonV::Num(lex) => match int_part(lex) {
                Some(n) => if i64::MIN <= n <= i64::MAX {
                    Some(JsonV::Num(fmt_int(n)))
                } else {
                    None
                },
                None => None,
            },
            JsonV::Str(t) => match parse_int_spec(t) {
                Some(n) => if i64::MIN <= n <= i64::MAX {
                    Some(JsonV::Num(fmt_int(n)))
                } else {
                    None
                },
                None => None,
            },
            JsonV::Bool(t) => Some(
                JsonV::Num(
                    if t {
                        seq![49u8]
                    } else {
                        seq![48u8]
                    },
                ),
            ),
            _ => None,
        },
        CoerceSpec::F64 => match v {
            JsonV::Num(lex) => Some(JsonV::Num(lex)),
            JsonV::Str(t) => if crate::json::parse_number(t, 0) == Some(t.len() as int) && t.len()
                > 0 {
                Some(JsonV::Num(t))
            } else {
                None
            },
            JsonV::Bool(t) => Some(
                JsonV::Num(
                    if t {
                        seq![49u8, 46u8, 48u8]
                    } else {
                        seq![48u8, 46u8, 48u8]
                    },
                ),
            ),
            _ => None,
        },
        CoerceSpec::Bool => match v {
            JsonV::Bool(t) => Some(JsonV::Bool(t)),
            JsonV::Num(lex) => match parse_int_spec(lex) {
                Some(n) => Some(JsonV::Bool(n != 0)),
                None => None,
            },
            JsonV::Str(t) => {
                let l = crate::format::lower_ascii(t);
                if l == seq![116u8, 114u8, 117u8, 101u8] || l == seq![49u8] {
                    Some(JsonV::Bool(true))
                } else if l == seq![102u8, 97u8, 108u8, 115u8, 101u8] || l == seq![48u8] {
                    Some(JsonV::Bool(false))
                } else {
                    None
                }
            },
            _ => None,
        },
        CoerceSpec::TimestampMs { format } => {
            let f = match format {
                Some(f) => f,
                None => TimestampFormat::Iso8601,
            };
            match f {
                TimestampFormat::Iso8601 => match v {
                    JsonV::Str(t) => match rfc3339_millis(t) {
                        Some(ms) => Some(JsonV::Num(fmt_int(ms as int))),
                        None => None,
                    },
                    _ => None,
                },
                TimestampFormat::UnixMs => match as_int_value(v) {
                    Some(n) => Some(JsonV::Num(fmt_int(n))),
                    None => None,
                },
                TimestampFormat::UnixS => match as_int_value(v) {
                    Some(n) => if i64::MIN <= n * 1000 <= i64::MAX {
                        Some(JsonV::Num(fmt_int(n * 1000)))
                    } else {
                        None
                    },
                    None => None,
                },
            }
        },
    }
}

/// The 64-bit integer a timestamp operand stands for.
pub open spec fn as_int_value(v: JsonV) -> Option<int> {
    match v {
        JsonV::Num(lex) => match int_part(lex) {
            Some(n) => if i64::MIN <= n <= i64::MAX {
                Some(n)
            } else {
                None
            },
            None => None,
        },
        JsonV::Str(t) => match parse_int_spec(t) {
            Some(n) => if i64::MIN <= n <= i64::MAX {
                Some(n)
            } else {
                None
            },
            None => None,
        },
        JsonV::Bool(t) => Some(
            if t {
                1int
            } else {
                0int
            },
        ),
        _ => None,
    }
}

/// The 64-bit integer a timestamp operand stands for.
fn as_int_value_exec(v: &JsonValue) -> (r: Option<i64>)
    ensures
        match r {
            Some(n) => as_int_value(jv(*v)) == Some(n as int),
            None => as_int_value(jv(*v)) == None::<int>,
        },
{
    match v {
        JsonValue::Num(lex) => {
            match int_part_exec(lex.as_slice()) {
                Some(n) => if i64::MIN as i128 <= n && n <= i64::MAX as i128 {
                    Some(n as i64)
                } else {
                    None
                },
                None => None,
            }
        },
        JsonValue::Str(t) => {
            match parse_int_exec(t.as_slice()) {
                Some(n) => if i64::MIN as i128 <= n && n <= i64::MAX as i128 {
                    Some(n as i64)
                } else {
                    None
                },
                None => None,
            }
        },
        JsonValue::Bool(t) => Some(
            if *t {
                1
            } else {
                0
            },
        ),
        _ => None,
    }
}

/// Coerce a value to the requested type.
fn coerce_exec(v: &JsonValue, c: &CoerceSpec) -> (r: Option<JsonValue>)
    ensures
        match r {
            Some(w) => coerce_spec(jv(*v), *c) == Some(jv(w)),
            None => coerce_spec(jv(*v), *c) == None::<JsonV>,
        },
{
    match c {
        CoerceSpec::String => coerce_string_exec(v),
        CoerceSpec::I64 => coerce_i64_exec(v),
        CoerceSpec::F64 => coerce_f64_exec(v),
        CoerceSpec::Bool => coerce_bool_exec(v),
        CoerceSpec::TimestampMs { format } => coerce_ts_exec(v, format),
    }
}

fn coerce_string_exec(v: &JsonValue) -> (r: Option<JsonValue>)
    ensures
        match r {
            Some(w) => coerce_spec(jv(*v), CoerceSpec::String) == Some(jv(w)),
            None => coerce_spec(jv(*v), CoerceSpec::String) == None::<JsonV>,
        },
{
    match v {
        JsonValue::Str(st) => {
            let mut b: Vec<u8> = Vec::new();
            crate::bytes::append_slice(&mut b, st.as_slice());
            proof {
                assert(b@ =~= st@);
            }
            Some(JsonValue::Str(b))
        },
        JsonValue::Num(n) => {
            let mut b: Vec<u8> = Vec::new();
            crate::bytes::append_slice(&mut b, n.as_slice());
            proof {
                assert(b@ =~= n@);
            }
            Some(JsonValue::Str(b))
        },
        JsonValue::Bool(t) => {
            let mut b: Vec<u8> = Vec::new();
            if *t {
                b.push(116);
                b.push(114);
                b.push(117);
                b.push(101);
                proof {
                    assert(b@ =~= seq![116u8, 114u8, 117u8, 101u8]);
                }
            } else {
                b.push(102);
                b.push(97);
                b.push(108);
                b.push(115);
                b.push(101);
                proof {
                    assert(b@ =~= seq![102u8, 97u8, 108u8, 115u8, 101u8]);
                }
            }
            Some(JsonValue::Str(b))
        },
        JsonValue::Null => {
            let b: Vec<u8> = Vec::new();
            proof {
                assert(b@ =~= Seq::<u8>::empty());
            }
            Some(JsonValue::Str(b))
        },
        other => {
            let b = crate::json_out::ser_to_vec(other);
            Some(JsonValue::Str(b))
        },
    }
}

fn coerce_i64_exec(v: &JsonValue) -> (r: Option<JsonValue>)
    ensures
        match r {
            Some(w) => coerce_spec(jv(*v), CoerceSpec::I64) == Some(jv(w)),
            None => coerce_spec(jv(*v), CoerceSpec::I64) == None::<JsonV>,
        },
{
    let n: Option<i128> = match v {
        JsonValue::Num(lex) => int_part_exec(lex.as_slice()),
        JsonValue::Str(t) => parse_int_exec(t.as_slice()),
        JsonValue::Bool(t) => {
            let mut b: Vec<u8> = Vec::new();
            if *t {
                b.push(49);
                proof {
                    assert(b@ =~= seq![49u8]);
                }
            } else {
                b.push(48);
                proof {
                    assert(b@ =~= seq![48u8]);
                }
            }
            return Some(JsonValue::Num(b));
        },
        _ => {
            return None;
        },
    };
    match n {
        Some(n) => {
            if i64::MIN as i128 <= n && n <= i64::MAX as i128 {
                let mut lex: Vec<u8> = Vec::new();
                write_int(&mut lex, n);
                Some(JsonValue::Num(lex))
            } else {
                None
            }
        },
        None => None,
    }
}

fn coerce_f64_exec(v: &JsonValue) -> (r: Option<JsonValue>)
    ensures
        match r {
            Some(w) => coerce_spec(jv(*v), CoerceSpec::F64) == Some(jv(w)),
            None => coerce_spec(jv(*v), CoerceSpec::F64) == None::<JsonV>,
        },
{
    match v {
        JsonValue::Num(lex) => {
            let mut b: Vec<u8> = Vec::new();
            crate::bytes::append_slice(&mut b, lex.as_slice());
            proof {
                assert(b@ =~= lex@);
            }
            Some(JsonValue::Num(b))
        },
        JsonValue::Str(t) => {
            match crate::json::parse_number_exec(t.as_slice(), 0) {
                Some(e) => {
                    if e == t.len() && t.len() > 0 {
                        let mut b: Vec<u8> = Vec::new();
                        crate::bytes::append_slice(&mut b, t.as_slice());
                        proof {
                            assert(b@ =~= t@);
                        }
                        Some(JsonValue::Num(b))
                    } else {
                        None
                    }
                },
                None => None,
            }
        },
        JsonValue::Bool(t) => {
            let mut b: Vec<u8> = Vec::new();
            if *t {
                b.push(49);
                b.push(46);
                b.push(48);
                proof {
                    assert(b@ =~= seq![49u8, 46u8, 48u8]);
                }
            } else {
                b.push(48);
                b.push(46);
                b.push(48);
                proof {
                    assert(b@ =~= seq![48u8, 46u8, 48u8]);
                }
            }
            Some(JsonValue::Num(b))
        },
        _ => None,
    }
}

fn coerce_bool_exec(v: &JsonValue) -> (r: Option<JsonValue>)
    ensures
        match r {
            Some(w) => coerce_spec(jv(*v), CoerceSpec::Bool) == Some(jv(w)),
            None => coerce_spec(jv(*v), CoerceSpec::Bool) == None::<JsonV>,
        },
{
    match v {
        JsonValue::Bool(t) => Some(JsonValue::Bool(*t)),
        JsonValue::Num(lex) => {
            match parse_int_exec(lex.as_slice()) {
                Some(n) => Some(JsonValue::Bool(n != 0)),
                None => None,
            }
        },
        JsonValue::Str(t) => {
            let lt = ascii_lower_vec(t.as_slice());
            proof {
                assert(lt@ == crate::format::lower_ascii(t@));
            }
            let tr: [u8; 4] = [116, 114, 117, 101];
            let on: [u8; 1] = [49];
            let fa: [u8; 5] = [102, 97, 108, 115, 101];
            let ze: [u8; 1] = [48];
            proof {
                assert(tr@ =~= seq![116u8, 114u8, 117u8, 101u8]);
                assert(on@ =~= seq![49u8]);
                assert(fa@ =~= seq![102u8, 97u8, 108u8, 115u8, 101u8]);
                assert(ze@ =~= seq![48u8]);
            }
            if crate::bytes::bytes_eq(lt.as_slice(), tr.as_slice()) || crate::bytes::bytes_eq(
                lt.as_slice(),
                on.as_slice(),
            ) {
                Some(JsonValue::Bool(true))
            } else if crate::bytes::bytes_eq(lt.as_slice(), fa.as_slice())
                || crate::bytes::bytes_eq(lt.as_slice(), ze.as_slice()) {
                Some(JsonValue::Bool(false))
            } else {
                None
            }
        },
        _ => {
            proof {
                assert(coerce_spec(jv(*v), CoerceSpec::Bool) == None::<JsonV>);
            }
            None
        },
    }
}

fn coerce_ts_exec(v: &JsonValue, format: &Option<TimestampFormat>) -> (r: Option<JsonValue>)
    ensures
        match r {
            Some(w) => coerce_spec(jv(*v), CoerceSpec::TimestampMs { format: *format }) == Some(
                jv(w),
            ),
            None => coerce_spec(jv(*v), CoerceSpec::TimestampMs { format: *format })
                == None::<JsonV>,
        },
{
    let f: TimestampFormat = match format {
        Some(f) => *f,
        None => TimestampFormat::Iso8601,
    };
    match f {
        TimestampFormat::Iso8601 => {
            match v {
                JsonValue::Str(t) => {
                    match parse_rfc3339_millis(t.as_slice()) {
                        Some(ms) => {
                            let mut lex: Vec<u8> = Vec::new();
                            write_int(&mut lex, ms as i128);
                            Some(JsonValue::Num(lex))
                        },
                        None => None,
                    }
                },
                _ => None,
            }
        },
        TimestampFormat::UnixMs => {
            match as_int_value_exec(v) {
                Some(n) => {
                    let mut lex: Vec<u8> = Vec::new();
                    write_int(&mut lex, n as i128);
                    Some(JsonValue::Num(lex))
                },
                None => None,
            }
        },
        TimestampFormat::UnixS => {
            match as_int_value_exec(v) {
                Some(n) => {
                    let prod: i128 = (n as i128) * 1000;
                    if i64::MIN as i128 <= prod && prod <= i64::MAX as i128 {
                        let mut lex: Vec<u8> = Vec::new();
                        write_int(&mut lex, prod);
                        Some(JsonValue::Num(lex))
                    } else {
                        None
                    }
                },
                None => None,
            }
        },
    }
}

/// The ghost mirror of one compiled field mapping.
pub struct FieldV {
    pub target: Seq<u8>,
    pub origin: Seq<u8>,
    pub required: bool,
    pub default_value: Option<JsonV>,
    pub coerce: Option<CoerceSpec>,
    pub compute: Option<Expr>,
}

/// The ghost mirror of a compiled plan.
pub struct PlanV {
    pub mode: TransformMode,
    pub fields: Seq<FieldV>,
    pub on_missing_field: MissingFieldPolicy,
    pub on_missing_required: MissingRequiredPolicy,
    pub on_coerce_error: CoerceErrorPolicy,
}

pub open spec fn field_view(f: TransformField) -> FieldV {
    FieldV {
        target: f.target_field_name@,
        origin: f.origin_field_name@,
        required: f.required,
        default_value: match f.default_value {
            Some(d) => Some(jv(d)),
            None => None,
        },
        coerce: f.coerce,
        compute: f.compute,
    }
}

pub open spec fn plan_view(p: TransformPlan) -> PlanV {
    PlanV {
        mode: p.mode,
        fields: Seq::new(p.fields@.len(), |i: int| field_view(p.fields@[i])),
        on_missing_field: p.on_missing_field,
        on_missing_required: p.on_missing_required,
        on_coerce_error: p.on_coerce_error,
    }
}

/// Resolve, default, coerce and insert one field. Yields the updated
/// output members, `None` for an error, `Some(None)` when the record is
/// dropped.
pub open spec fn tr_field(p: PlanV, f: FieldV, rec: Seq<(Seq<u8>, JsonV)>, out: Seq<
    (Seq<u8>, JsonV),
>) -> Option<Option<Seq<(Seq<u8>, JsonV)>>> {
    let resolved: Option<Option<JsonV>> = match f.compute {
        Some(e) => match eval_spec(e, rec) {
            Some(v) => Some(Some(v)),
            None => None,
        },
        None => Some(crate::json_canon::assoc_get(rec, f.origin)),
    };
    match resolved {
        None => None,
        Some(maybe) => {
            let is_absent = match maybe {
                Some(v) => v is Null,
                None => true,
            };
            if is_absent {
                match f.default_value {
                    Some(d) => tr_coerce_insert(p, f, d, out),
                    None => if f.required {
                        None
                    } else {
                        match p.on_missing_field {
                            MissingFieldPolicy::Error => None,
                            MissingFieldPolicy::Null => tr_coerce_insert(p, f, JsonV::Null, out),
                            MissingFieldPolicy::Drop => Some(Some(out)),
                        }
                    },
                }
            } else {
                tr_coerce_insert(p, f, maybe->Some_0, out)
            }
        },
    }
}

/// Coerce a resolved value per the field and store it under the target
/// name, honoring the coercion-error policy.
pub open spec fn tr_coerce_insert(p: PlanV, f: FieldV, v: JsonV, out: Seq<(Seq<u8>, JsonV)>) -> Option<
    Option<Seq<(Seq<u8>, JsonV)>>,
> {
    match f.coerce {
        None => Some(Some(crate::xml_parser::upsert_attr(out, f.target, v))),
        Some(c) => match coerce_spec(v, c) {
            Some(w) => Some(Some(crate::xml_parser::upsert_attr(out, f.target, w))),
            None => match p.on_coerce_error {
                CoerceErrorPolicy::Error => None,
                CoerceErrorPolicy::Null => Some(
                    Some(crate::xml_parser::upsert_attr(out, f.target, JsonV::Null)),
                ),
                CoerceErrorPolicy::DropRecord => Some(None),
            },
        },
    }
}

/// Apply the plan's fields in order to a record.
pub open spec fn tr_fields(p: PlanV, i: int, rec: Seq<(Seq<u8>, JsonV)>, out: Seq<
    (Seq<u8>, JsonV),
>) -> Option<Option<Seq<(Seq<u8>, JsonV)>>>
    decreases p.fields.len() - i,
{
    if i < 0 || i >= p.fields.len() {
        Some(Some(out))
    } else {
        match tr_field(p, p.fields[i], rec, out) {
            None => None,
            Some(None) => Some(None),
            Some(Some(out2)) => tr_fields(p, i + 1, rec, out2),
        }
    }
}

/// Apply the whole plan to a parsed record (members canonicalized, the
/// last duplicate winning): the output starts empty or as a copy per
/// the mode, then every field mapping runs in order.
pub open spec fn tr_apply(p: PlanV, ps: Seq<(Seq<u8>, JsonV)>) -> Option<
    Option<Seq<(Seq<u8>, JsonV)>>,
> {
    let rec = crate::json_canon::canon_obj(ps);
    let start: Seq<(Seq<u8>, JsonV)> = match p.mode {
        TransformMode::Replace => Seq::empty(),
        TransformMode::Augment => rec,
    };
    tr_fields(p, 0, rec, start)
}

/// What one NDJSON line becomes: an error unless it parses to an
/// object; otherwise the reshaped record serialized with sorted keys,
/// or nothing when a policy dropped it.
pub open spec fn tr_line(p: PlanV, line: Seq<u8>) -> Option<Option<Seq<u8>>> {
    match crate::json::spec_parse(line) {
        Some(v) => match v {
            JsonV::Obj(ps) => match tr_apply(p, ps) {
                None => None,
                Some(None) => Some(None),
                Some(Some(out)) => Some(
                    Some(
                        crate::json_out::ser(
                            crate::xml_parser::deep_sort(JsonV::Obj(out)),
                        ) + seq![10u8],
                    ),
                ),
            },
            _ => None,
        },
        None => None,
    }
}

/// ASCII-lowercase a byte string.
fn ascii_lower_vec(b: &[u8]) -> (r: Vec<u8>)
    ensures
        r@ == crate::format::lower_ascii(b@),
{
    let mut out: Vec<u8> = Vec::new();
    let mut i: usize = 0;
    while i < b.len()
        invariant
            0 <= i <= b@.len(),
            out@.len() == i,
            forall|k: int|
                0 <= k < i ==> out@[k] == crate::format::lower_ascii_byte(b@[k]),
        decreases b@.len() - i,
    {
        let c = b[i];
        out.push(
            if 65 <= c && c <= 90 {
                c + 32
            } else {
                c
            },
        );
        i = i + 1;
    }
    proof {
        assert(out@ =~= crate::format::lower_ascii(b@));
    }
    out
}

impl TransformPlan {
    /// Coerce and store one resolved value.
    fn coerce_insert_exec(
        &self,
        f: &TransformField,
        v: JsonValue,
        out: &mut Vec<(Vec<u8>, JsonValue)>,
    ) -> (r: Option<bool>)
        ensures
            match r {
                Some(true) => tr_coerce_insert(
                    plan_view(*self),
                    field_view(*f),
                    jv(v),
                    jv_pairs(old(out)@),
                ) == Some(Some(jv_pairs(final(out)@))),
                Some(false) => tr_coerce_insert(
                    plan_view(*self),
                    field_view(*f),
                    jv(v),
                    jv_pairs(old(out)@),
                ) == Some(None::<Seq<(Seq<u8>, JsonV)>>),
                None => tr_coerce_insert(
                    plan_view(*self),
                    field_view(*f),
                    jv(v),
                    jv_pairs(old(out)@),
                ) == None::<Option<Seq<(Seq<u8>, JsonV)>>>,
            },
    {
        let mut key: Vec<u8> = Vec::new();
        crate::bytes::append_slice(&mut key, f.target_field_name.as_slice());
        proof {
            assert(key@ =~= f.target_field_name@);
        }
        match &f.coerce {
            None => {
                crate::xml_parser::upsert_attr_exec(out, key, v);
                Some(true)
            },
            Some(c) => {
                match coerce_exec(&v, c) {
                    Some(w) => {
                        crate::xml_parser::upsert_attr_exec(out, key, w);
                        Some(true)
                    },
                    None => {
                        match self.on_coerce_error {
                            CoerceErrorPolicy::Error => None,
                            CoerceErrorPolicy::Null => {
                                crate::xml_parser::upsert_attr_exec(out, key, JsonValue::Null);
                                Some(true)
                            },
                            CoerceErrorPolicy::DropRecord => Some(false),
                        }
                    },
                }
            },
        }
    }

    /// Resolve, default, coerce and store one field mapping.
    #[verifier::rlimit(100)]
    fn apply_field_exec(
        &self,
        f: &TransformField,
        rec: &Vec<(Vec<u8>, JsonValue)>,
        out: &mut Vec<(Vec<u8>, JsonValue)>,
    ) -> (r: Option<bool>)
        ensures
            match r {
                Some(true) => tr_field(
                    plan_view(*self),
                    field_view(*f),
                    jv_pairs(rec@),
                    jv_pairs(old(out)@),
                ) == Some(Some(jv_pairs(final(out)@))),
                Some(false) => tr_field(
                    plan_view(*self),
                    field_view(*f),
                    jv_pairs(rec@),
                    jv_pairs(old(out)@),
                ) == Some(None::<Seq<(Seq<u8>, JsonV)>>),
                None => tr_field(
                    plan_view(*self),
                    field_view(*f),
                    jv_pairs(rec@),
                    jv_pairs(old(out)@),
                ) == None::<Option<Seq<(Seq<u8>, JsonV)>>>,
            },
    {
        proof {
            crate::json::lemma_jv_pairs_len(rec@);
        }
        let resolved: Option<JsonValue> = match &f.compute {
            Some(e) => {
                match eval_exec(e, rec) {
                    Some(v) => Some(v),
                    None => {
                        return None;
                    },
                }
            },
            None => {
                match crate::json_canon::assoc_find(rec, f.origin_field_name.as_slice()) {
                    Some(i) => {
                        proof {
                            assert(jv_pairs(rec@)[i as int] == (rec@[i as int].0@, jv(
                                rec@[i as int].1,
                            )));
                        }
                        Some(crate::json_canon::clone_json(&rec[i].1))
                    },
                    None => None,
                }
            },
        };
        let is_absent: bool = match &resolved {
            Some(v) => v.is_null_value(),
            None => true,
        };
        if is_absent {
            match &f.default_value {
                Some(d) => {
                    let dv = crate::json_canon::clone_json(d);
                    self.coerce_insert_exec(f, dv, out)
                },
                None => {
                    if f.required {
                        None
                    } else {
                        match self.on_missing_field {
                            MissingFieldPolicy::Error => None,
                            MissingFieldPolicy::Null => self.coerce_insert_exec(
                                f,
                                JsonValue::Null,
                                out,
                            ),
                            MissingFieldPolicy::Drop => Some(true),
                        }
                    }
                },
            }
        } else {
            match resolved {
                Some(v) => self.coerce_insert_exec(f, v, out),
                None => None,
            }
        }
    }

    /// Apply the plan to one parsed record's members.
    pub fn apply_to_pairs(&self, ps: &Vec<(Vec<u8>, JsonValue)>) -> (r: Option<
        Option<Vec<(Vec<u8>, JsonValue)>>,
    >)
        ensures
            match r {
                Some(out_opt) => match out_opt {
                    Some(out) => tr_apply(plan_view(*self), jv_pairs(ps@)) == Some(
                        Some(jv_pairs(out@)),
                    ),
                    None => tr_apply(plan_view(*self), jv_pairs(ps@)) == Some(
                        None::<Seq<(Seq<u8>, JsonV)>>,
                    ),
                },
                None => tr_apply(plan_view(*self), jv_pairs(ps@)) == None::<
                    Option<Seq<(Seq<u8>, JsonV)>>,
                >,
            },
    {
        let rec = crate::json_canon::canon_pairs(ps);
        let mut out: Vec<(Vec<u8>, JsonValue)> = match self.mode {
            TransformMode::Replace => {
                let e: Vec<(Vec<u8>, JsonValue)> = Vec::new();
                proof {
                    assert(jv_pairs(e@) =~= Seq::<(Seq<u8>, JsonV)>::empty());
                }
                e
            },
            TransformMode::Augment => crate::xml_parser::clone_pairs_pub(&rec),
        };
        let mut i: usize = 0;
        let ghost pv = plan_view(*self);
        proof {
            assert(pv.fields.len() == self.fields@.len());
        }
        while i < self.fields.len()
            invariant
                0 <= i <= self.fields@.len(),
                pv == plan_view(*self),
                pv.fields.len() == self.fields@.len(),
                forall|m: int|
                    0 <= m < self.fields@.len() ==> pv.fields[m] == field_view(
                        #[trigger] self.fields@[m],
                    ),
                tr_apply(pv, jv_pairs(ps@)) == tr_fields(
                    pv,
                    i as int,
                    crate::json_canon::canon_obj(jv_pairs(ps@)),
                    jv_pairs(out@),
                ),
                jv_pairs(rec@) == crate::json_canon::canon_obj(jv_pairs(ps@)),
            decreases self.fields@.len() - i,
        {
            match self.apply_field_exec(&self.fields[i], &rec, &mut out) {
                Some(true) => {},
                Some(false) => {
                    return Some(None);
                },
                None => {
                    return None;
                },
            }
            i = i + 1;
        }
        Some(Some(out))
    }

    /// Apply the plan to a parsed value: records must be objects.
    pub fn apply_to_value(&self, value: &JsonValue) -> (r: Result<
        Option<JsonValue>,
        crate::error::ConvertError,
    >)
        ensures
            match r {
                Ok(out_opt) => match out_opt {
                    Some(out) => (jv(*value) is Obj) && (tr_apply(
                        plan_view(*self),
                        jv(*value)->Obj_0,
                    ) matches Some(Some(o)) && jv(out) == crate::xml_parser::deep_sort(
                        JsonV::Obj(o),
                    )),
                    None => (jv(*value) is Obj) && tr_apply(plan_view(*self), jv(*value)->Obj_0)
                        == Some(None::<Seq<(Seq<u8>, JsonV)>>),
                },
                Err(e) => e is InvalidConfig && (!(jv(*value) is Obj) || tr_apply(
                    plan_view(*self),
                    jv(*value)->Obj_0,
                ) is None),
            },
    {
        match value {
            JsonValue::Obj(ps) => {
                match self.apply_to_pairs(ps) {
                    Some(out_opt) => {
                        match out_opt {
                            Some(out) => Ok(
                                Some(
                                    crate::xml_parser::deep_sort_exec(&JsonValue::Obj(out)),
                                ),
                            ),
                            None => Ok(None),
                        }
                    },
                    None => Err(
                        crate::error::ConvertError::InvalidConfig(
                            <String as vstd::string::StringExecFns>::from_str("transform failed on record"),
                        ),
                    ),
                }
            },
            _ => Err(
                crate::error::ConvertError::InvalidConfig(
                    <String as vstd::string::StringExecFns>::from_str("transform expects object records"),
                ),
            ),
        }
    }
}

impl JsonValue {
    /// Is this the null value?
    pub fn is_null_value(&self) -> (r: bool)
        ensures
            r == (jv(*self) is Null),
    {
        match self {
            JsonValue::Null => true,
            _ => false,
        }
    }
}

/// A line the transform drops silently: empty or all whitespace.
pub open spec fn tr_skip(line: Seq<u8>) -> bool {
    line.len() == 0 || crate::bytes::all_ws(line)
}

/// Every complete line is transformed without error.
pub open spec fn tr_lines_ok(p: PlanV, lines: Seq<Seq<u8>>) -> bool {
    forall|i: int|
        0 <= i < lines.len() ==> (tr_skip(#[trigger] lines[i]) || tr_line(p, lines[i]) is Some)
}

/// The output and record count a list of lines contributes.
pub open spec fn tr_out(p: PlanV, lines: Seq<Seq<u8>>) -> (Seq<u8>, nat)
    decreases lines.len(),
{
    if lines.len() == 0 {
        (Seq::empty(), 0)
    } else {
        let prev = tr_out(p, lines.drop_last());
        let l = lines.last();
        if tr_skip(l) {
            prev
        } else {
            match tr_line(p, l) {
                Some(Some(bytes)) => (prev.0 + bytes, prev.1 + 1),
                _ => prev,
            }
        }
    }
}

pub proof fn lemma_tr_out_push(p: PlanV, lines: Seq<Seq<u8>>, l: Seq<u8>)
    ensures
        tr_out(p, lines.push(l)) == (if tr_skip(l) {
            tr_out(p, lines)
        } else {
            match tr_line(p, l) {
                Some(Some(bytes)) => (tr_out(p, lines).0 + bytes, tr_out(p, lines).1 + 1nat),
                _ => tr_out(p, lines),
            }
        }),
{
    assert(lines.push(l).drop_last() =~= lines);
    assert(lines.push(l).last() == l);
}

/// Streaming transform over the NDJSON intermediate.
pub struct TransformEngine {
    plan: TransformPlan,
    partial_line: Vec<u8>,
}

impl TransformEngine {
    /// The carried unfinished line.
    pub closed spec fn spec_partial(&self) -> Seq<u8> {
        self.partial_line@
    }

    /// The plan's ghost view.
    pub closed spec fn spec_plan(&self) -> PlanV {
        plan_view(self.plan)
    }

    pub fn new(plan: TransformPlan) -> (r: TransformEngine)
        ensures
            r.spec_partial() == Seq::<u8>::empty(),
            r.spec_plan() == plan_view(plan),
    {
        TransformEngine { plan, partial_line: Vec::new() }
    }

    /// Transform the complete lines this chunk finishes; carry the tail.
    /// Succeeds exactly when every complete line transforms; the output
    /// and record count are the fold over those lines.
    #[verifier::rlimit(100)]
    pub fn push(&mut self, chunk: &[u8]) -> (r: Result<TransformResult, crate::error::ConvertError>)
        ensures
            final(self).spec_plan() == old(self).spec_plan(),
            r is Ok <==> tr_lines_ok(
                old(self).spec_plan(),
                crate::bytes::stream_lines(old(self).spec_partial() + chunk@),
            ),
            match r {
                Ok(res) => {
                    &&& final(self).spec_partial() == crate::bytes::stream_tail(
                        old(self).spec_partial() + chunk@,
                    )
                    &&& res.output@ == tr_out(
                        old(self).spec_plan(),
                        crate::bytes::stream_lines(old(self).spec_partial() + chunk@),
                    ).0
                    &&& res.records <= tr_out(
                        old(self).spec_plan(),
                        crate::bytes::stream_lines(old(self).spec_partial() + chunk@),
                    ).1
                    &&& (res.records < usize::MAX ==> res.records == tr_out(
                        old(self).spec_plan(),
                        crate::bytes::stream_lines(old(self).spec_partial() + chunk@),
                    ).1)
                },
                Err(e) => e is JsonParse || e is InvalidConfig,
            },
    {
        let ghost plan0 = plan_view(self.plan);
        let mut data: Vec<u8> = Vec::new();
        std::mem::swap(&mut data, &mut self.partial_line);
        crate::bytes::append_slice(&mut data, chunk);
        let ghost full = data@;
        let mut out: Vec<u8> = Vec::new();
        let mut records: usize = 0;
        let mut start: usize = 0;
        let data_len = data.len();
        let ghost mut done: Seq<Seq<u8>> = Seq::empty();
        proof {
            assert(full.skip(0) =~= full);
            assert(tr_out(plan0, done).0 =~= Seq::<u8>::empty());
        }
        loop
            invariant
                data@ == full,
                full.len() == data_len,
                plan_view(self.plan) == plan0,
                plan0 == plan_view(old(self).plan),
                full == old(self).spec_partial() + chunk@,
                start <= full.len(),
                crate::bytes::stream_lines(full) == done + crate::bytes::stream_lines(
                    full.skip(start as int),
                ),
                crate::bytes::stream_tail(full) == crate::bytes::stream_tail(
                    full.skip(start as int),
                ),
                tr_lines_ok(plan0, done),
                out@ == tr_out(plan0, done).0,
                records <= tr_out(plan0, done).1,
                records < usize::MAX ==> records == tr_out(plan0, done).1,
            decreases full.len() - start,
        {
            proof {
                crate::bytes::lemma_find_skip(full, 10, start as int);
                crate::bytes::lemma_find_from(full, 10, start as int);
            }
            match crate::bytes::find_byte(data.as_slice(), start, 10) {
                Some(p) => {
                    let ghost rest = full.skip(start as int);
                    proof {
                        crate::bytes::lemma_stream_step(rest, p - start);
                        assert(rest.take(p - start) =~= full.subrange(start as int, p as int));
                        assert(rest.skip(p - start + 1) =~= full.skip(p + 1 as int));
                    }
                    let line = crate::bytes::copy_range(data.as_slice(), start, p);
                    if !(line.len() == 0 || crate::bytes::all_whitespace(line.as_slice())) {
                        match self.transform_line(line.as_slice()) {
                            Ok(piece_opt) => {
                                match piece_opt {
                                    Some(piece) => {
                                        crate::bytes::append_slice(&mut out, piece.as_slice());
                                        records = if records < usize::MAX {
                                            records + 1
                                        } else {
                                            records
                                        };
                                        proof {
                                            assert(out@ =~= tr_out(plan0, done).0 + piece@);
                                        }
                                    },
                                    None => {},
                                }
                            },
                            Err(e) => {
                                proof {
                                    assert(!tr_skip(line@) && tr_line(plan0, line@) is None);
                                    assert(crate::bytes::stream_lines(rest)[0] == line@);
                                    assert(crate::bytes::stream_lines(full)[done.len() as int]
                                        == line@);
                                    assert(!tr_lines_ok(
                                        plan0,
                                        crate::bytes::stream_lines(full),
                                    ));
                                }
                                return Err(e);
                            },
                        }
                    }
                    proof {
                        lemma_tr_out_push(plan0, done, line@);
                        done = done.push(line@);
                        assert(crate::bytes::stream_lines(full) =~= done
                            + crate::bytes::stream_lines(full.skip(p + 1 as int)));
                    }
                    start = p + 1;
                },
                None => {
                    proof {
                        crate::bytes::lemma_stream_no_nl(full.skip(start as int));
                        assert(crate::bytes::stream_lines(full) =~= done);
                    }
                    let tail = crate::bytes::copy_range(data.as_slice(), start, data_len);
                    proof {
                        assert(tail@ =~= full.skip(start as int));
                    }
                    self.partial_line = tail;
                    return Ok(TransformResult { output: out, records });
                },
            }
        }
    }

    /// Transform one complete line; `Ok(None)` when dropped.
    fn transform_line(&self, line: &[u8]) -> (r: Result<
        Option<Vec<u8>>,
        crate::error::ConvertError,
    >)
        ensures
            match r {
                Ok(piece_opt) => match piece_opt {
                    Some(piece) => tr_line(plan_view(self.plan), line@) == Some(Some(piece@)),
                    None => tr_line(plan_view(self.plan), line@) == Some(None::<Seq<u8>>),
                },
                Err(e) => (e is JsonParse || e is InvalidConfig) && tr_line(
                    plan_view(self.plan),
                    line@,
                ) is None,
            },
    {
        match crate::json::parse_json(line) {
            None => Err(
                crate::error::ConvertError::JsonParse(
                    <String as vstd::string::StringExecFns>::from_str("invalid JSON line"),
                ),
            ),
            Some(v) => {
                match self.plan.apply_to_value(&v) {
                    Ok(out_opt) => {
                        match out_opt {
                            Some(out) => {
                                let mut piece = crate::json_out::ser_to_vec(&out);
                                piece.push(10);
                                proof {
                                    assert(piece@ =~= crate::json_out::ser(jv(out)) + seq![10u8]);
                                }
                                Ok(Some(piece))
                            },
                            None => Ok(None),
                        }
                    },
                    Err(e) => Err(e),
                }
            },
        }
    }

    /// Flush the carried tail as a final line. Succeeds exactly when
    /// the tail is blank or transforms; the output and record count are
    /// what that one line contributes.
    pub fn finish(&mut self) -> (r: Result<TransformResult, crate::error::ConvertError>)
        ensures
            final(self).spec_plan() == old(self).spec_plan(),
            r is Ok <==> (tr_skip(old(self).spec_partial()) || tr_line(
                old(self).spec_plan(),
                old(self).spec_partial(),
            ) is Some),
            match r {
                Ok(res) => {
                    &&& final(self).spec_partial() == Seq::<u8>::empty()
                    &&& ({
                        let t = old(self).spec_partial();
                        let one = !tr_skip(t) && tr_line(old(self).spec_plan(), t) matches Some(
                            Some(_),
                        );
                        &&& res.output@ == (if tr_skip(t) {
                            Seq::<u8>::empty()
                        } else {
                            match tr_line(old(self).spec_plan(), t) {
                                Some(Some(bytes)) => bytes,
                                _ => Seq::<u8>::empty(),
                            }
                        })
                        &&& res.records == (if one {
                            1int
                        } else {
                            0int
                        })
                    })
                },
                Err(e) => e is JsonParse || e is InvalidConfig,
            },
    {
        let mut line: Vec<u8> = Vec::new();
        std::mem::swap(&mut line, &mut self.partial_line);
        let mut records: usize = 0;
        if line.len() == 0 || crate::bytes::all_whitespace(line.as_slice()) {
            return Ok(TransformResult { output: Vec::new(), records });
        }
        match self.transform_line(line.as_slice()) {
            Ok(piece_opt) => {
                match piece_opt {
                    Some(piece) => {
                        records = 1;
                        Ok(TransformResult { output: piece, records })
                    },
                    None => Ok(TransformResult { output: Vec::new(), records }),
                }
            },
            Err(e) => Err(e),
        }
    }

    /// Size of the carried partial line.
    pub fn partial_size(&self) -> (r: usize)
        ensures
            r as int == self.spec_partial().len(),
    {
        self.partial_line.len()
    }

    /// The compiled plan this engine runs.
    pub fn plan(&self) -> (r: &TransformPlan)
        ensures
            plan_view(*r) == self.spec_plan(),
    {
        &self.plan
    }
}

/// A token of the expression language.
#[derive(Debug)]
pub enum Token {
    Identifier(Vec<u8>),
    StringLiteral(Vec<u8>),
    Number(Vec<u8>),
    BoolLit(bool),
    NullLit,
    Comma,
    LParen,
    RParen,
    Plus,
    Minus,
    Star,
    Slash,
}

/// Byte-wise lexer for compute expressions.
pub struct Lexer {
    pub data: Vec<u8>,
    pub pos: usize,
    pub current: Option<u8>,
}

impl Lexer {
    /// The cursor stays within the text.
    pub open spec fn wf(&self) -> bool {
        self.pos <= self.data@.len()
    }

    /// A lexer over the expression text.
    pub fn new(input: &str) -> (r: Lexer)
        ensures
            r.wf(),
    {
        let bytes = input.as_bytes();
        let mut data: Vec<u8> = Vec::new();
        crate::bytes::append_slice(&mut data, bytes);
        let current: Option<u8> = if data.len() > 0 {
            Some(data[0])
        } else {
            None
        };
        Lexer { data, pos: if current.is_some() {
            1
        } else {
            0
        }, current }
    }

    /// Step to the next byte.
    pub fn advance(&mut self)
        requires
            old(self).wf(),
        ensures
            final(self).wf(),
            final(self).data == old(self).data,
            old(self).pos < old(self).data@.len() ==> final(self).pos == old(self).pos + 1
                && final(self).current is Some,
            old(self).pos >= old(self).data@.len() ==> (final(self).pos == old(self).pos
                && final(self).current is None),
    {
        if self.pos < self.data.len() {
            self.current = Some(self.data[self.pos]);
            self.pos = self.pos + 1;
        } else {
            self.current = None;
        }
    }

    /// Read a double-quoted string literal with C-style escapes; the
    /// opening quote is the current byte.
    pub fn read_string(&mut self) -> (r: Result<Vec<u8>, crate::error::ConvertError>)
        requires
            old(self).wf(),
        ensures
            final(self).wf(),
            final(self).data == old(self).data,
            final(self).pos >= old(self).pos,
            final(self).pos > old(self).pos || final(self).current is None,
            r is Err ==> r->Err_0 is InvalidConfig,
    {
        self.advance();
        let mut out: Vec<u8> = Vec::new();
        loop
            invariant
                self.pos <= self.data@.len(),
                self.data == old(self).data,
                self.pos >= old(self).pos,
                self.pos > old(self).pos || self.current is None,
            decreases self.data@.len() - self.pos, (if self.current is Some {
                1int
            } else {
                0int
            }),
        {
            match self.current {
                None => {
                    return Err(
                        crate::error::ConvertError::InvalidConfig(
                            <String as vstd::string::StringExecFns>::from_str(
                                "unterminated string literal",
                            ),
                        ),
                    );
                },
                Some(ch) => {
                    if ch == 34 {
                        self.advance();
                        return Ok(out);
                    } else if ch == 92 {
                        self.advance();
                        match self.current {
                            None => {
                                return Err(
                                    crate::error::ConvertError::InvalidConfig(
                                        <String as vstd::string::StringExecFns>::from_str(
                                            "unterminated escape sequence",
                                        ),
                                    ),
                                );
                            },
                            Some(esc) => {
                                let mapped: u8 = if esc == 34 {
                                    34
                                } else if esc == 92 {
                                    92
                                } else if esc == 110 {
                                    10
                                } else if esc == 114 {
                                    13
                                } else if esc == 116 {
                                    9
                                } else {
                                    esc
                                };
                                out.push(mapped);
                                self.advance();
                            },
                        }
                    } else {
                        out.push(ch);
                        self.advance();
                    }
                },
            }
        }
    }

    /// Read an identifier: letters, digits and underscores.
    pub fn read_identifier(&mut self) -> (r: Vec<u8>)
        requires
            old(self).wf(),
        ensures
            final(self).wf(),
            final(self).data == old(self).data,
            (match old(self).current {
                Some(c) => (48 <= c <= 57) || (65 <= c <= 90) || (97 <= c <= 122) || c == 95,
                None => false,
            }) ==> (final(self).pos > old(self).pos || final(self).current is None),
            final(self).pos >= old(self).pos,
    {
        let mut out: Vec<u8> = Vec::new();
        let ghost entry = *old(self);
        loop
            invariant
                self.pos <= self.data@.len(),
                self.data == old(self).data,
                self.pos >= old(self).pos,
                (match entry.current {
                    Some(c) => (48 <= c <= 57) || (65 <= c <= 90) || (97 <= c <= 122) || c == 95,
                    None => false,
                }) && *self == entry || self.pos > old(self).pos || self.current is None || !(match entry.current {
                    Some(c) => (48 <= c <= 57) || (65 <= c <= 90) || (97 <= c <= 122) || c == 95,
                    None => false,
                }),
                entry == *old(self),
            decreases self.data@.len() - self.pos, (if self.current is Some {
                1int
            } else {
                0int
            }),
        {
            match self.current {
                Some(ch) => {
                    if (48 <= ch && ch <= 57) || (65 <= ch && ch <= 90) || (97 <= ch && ch <= 122)
                        || ch == 95 {
                        out.push(ch);
                        self.advance();
                    } else {
                        return out;
                    }
                },
                None => {
                    return out;
                },
            }
        }
    }

    /// Read a number lexeme: digits and dots.
    fn read_number(&mut self) -> (r: Vec<u8>)
        requires
            old(self).wf(),
        ensures
            final(self).wf(),
            final(self).data == old(self).data,
            (match old(self).current {
                Some(c) => (48 <= c <= 57) || c == 46,
                None => false,
            }) ==> (final(self).pos > old(self).pos || final(self).current is None),
            final(self).pos >= old(self).pos,
    {
        let mut out: Vec<u8> = Vec::new();
        let ghost entry = *old(self);
        loop
            invariant
                self.pos <= self.data@.len(),
                self.data == old(self).data,
                self.pos >= old(self).pos,
                (match entry.current {
                    Some(c) => (48 <= c <= 57) || c == 46,
                    None => false,
                }) && *self == entry || self.pos > old(self).pos || self.current is None || !(match entry.current {
                    Some(c) => (48 <= c <= 57) || c == 46,
                    None => false,
                }),
                entry == *old(self),
            decreases self.data@.len() - self.pos, (if self.current is Some {
                1int
            } else {
                0int
            }),
        {
            match self.current {
                Some(ch) => {
                    if (48 <= ch && ch <= 57) || ch == 46 {
                        out.push(ch);
                        self.advance();
                    } else {
                        return out;
                    }
                },
                None => {
                    return out;
                },
            }
        }
    }

    /// Turn the whole text into tokens.
    pub fn tokenize(&mut self) -> (r: Result<Vec<Token>, crate::error::ConvertError>)
        requires
            old(self).wf(),
        ensures
            r is Err ==> r->Err_0 is InvalidConfig,
    {
        let mut tokens: Vec<Token> = Vec::new();
        loop
            invariant
                self.pos <= self.data@.len(),
                self.data == old(self).data,
            decreases self.data@.len() - self.pos, (if self.current is Some {
                1int
            } else {
                0int
            }),
        {
            let ch = match self.current {
                None => {
                    return Ok(tokens);
                },
                Some(c) => c,
            };
            if ch == 32 || ch == 9 || ch == 10 || ch == 13 {
                self.advance();
            } else if ch == 40 {
                tokens.push(Token::LParen);
                self.advance();
            } else if ch == 41 {
                tokens.push(Token::RParen);
                self.advance();
            } else if ch == 44 {
                tokens.push(Token::Comma);
                self.advance();
            } else if ch == 43 {
                tokens.push(Token::Plus);
                self.advance();
            } else if ch == 45 {
                tokens.push(Token::Minus);
                self.advance();
            } else if ch == 42 {
                tokens.push(Token::Star);
                self.advance();
            } else if ch == 47 {
                tokens.push(Token::Slash);
                self.advance();
            } else if ch == 34 {
                match self.read_string() {
                    Ok(s) => {
                        tokens.push(Token::StringLiteral(s));
                    },
                    Err(e) => {
                        return Err(e);
                    },
                }
            } else if 48 <= ch && ch <= 57 {
                let lex = self.read_number();
                tokens.push(Token::Number(lex));
            } else if (65 <= ch && ch <= 90) || (97 <= ch && ch <= 122) || ch == 95 {
                let ident = self.read_identifier();
                let tr: [u8; 4] = [116, 114, 117, 101];
                let fa: [u8; 5] = [102, 97, 108, 115, 101];
                let nu: [u8; 4] = [110, 117, 108, 108];
                if crate::bytes::bytes_eq(ident.as_slice(), tr.as_slice()) {
                    tokens.push(Token::BoolLit(true));
                } else if crate::bytes::bytes_eq(ident.as_slice(), fa.as_slice()) {
                    tokens.push(Token::BoolLit(false));
                } else if crate::bytes::bytes_eq(ident.as_slice(), nu.as_slice()) {
                    tokens.push(Token::NullLit);
                } else {
                    tokens.push(Token::Identifier(ident));
                }
            } else {
                return Err(
                    crate::error::ConvertError::InvalidConfig(
                        <String as vstd::string::StringExecFns>::from_str(
                            "unexpected character in expression",
                        ),
                    ),
                );
            }
        }
    }
}

/// A number lexeme normalized the way a computed literal prints: the
/// digits, a dot, and the fraction with trailing zeros removed, or `.0`
/// for a whole number; a malformed lexeme is rejected.
fn normalize_number(lex: &[u8]) -> (r: Option<Vec<u8>>)
    ensures
        true,
{
    proof {
        crate::json::lemma_scan_digits(lex@, 0);
    }
    let e = crate::json::scan_digits_exec(lex, 0);
    if e == 0 {
        return None;
    }
    let mut out: Vec<u8> = Vec::new();
    crate::bytes::append_slice(&mut out, crate::bytes::copy_range(lex, 0, e).as_slice());
    if e == lex.len() {
        out.push(46);
        out.push(48);
        return Some(out);
    }
    if lex[e] != 46 {
        return None;
    }
    proof {
        crate::json::lemma_scan_digits(lex@, e + 1);
    }
    let f = crate::json::scan_digits_exec(lex, e + 1);
    if f != lex.len() || f == e + 1 {
        return None;
    }
    let mut last: usize = lex.len();
    while last > e + 2 && lex[last - 1] == 48
        invariant
            e + 2 <= last <= lex@.len(),
        decreases last,
    {
        last = last - 1;
    }
    out.push(46);
    crate::bytes::append_slice(&mut out, crate::bytes::copy_range(lex, e + 1, last).as_slice());
    Some(out)
}

/// Recursive-descent parser over the token list; `pos` advances past
/// what each production consumed.
fn parse_add_sub(tokens: &Vec<Token>, pos: usize, depth: u32) -> (r: Option<(Expr, usize)>)
    requires
        pos <= tokens@.len(),
    ensures
        match r {
            Some(p) => pos < p.1 <= tokens@.len(),
            None => true,
        },
    decreases depth, tokens@.len() - pos, 3int,
{
    let mut cur = match parse_mul_div(tokens, pos, depth) {
        Some(p) => p,
        None => {
            return None;
        },
    };
    loop
        invariant
            pos < cur.1 <= tokens@.len(),
        decreases tokens@.len() - cur.1,
    {
        if cur.1 >= tokens.len() {
            return Some(cur);
        }
        let op: Option<BinaryOp> = match &tokens[cur.1] {
            Token::Plus => Some(BinaryOp::Add),
            Token::Minus => Some(BinaryOp::Subtract),
            _ => None,
        };
        match op {
            None => {
                return Some(cur);
            },
            Some(op) => {
                match parse_mul_div(tokens, cur.1 + 1, depth) {
                    None => {
                        return None;
                    },
                    Some(rhs) => {
                        let (le, _) = cur;
                        cur = (
                            Expr::Binary { op, left: Box::new(le), right: Box::new(rhs.0) },
                            rhs.1,
                        );
                    },
                }
            },
        }
    }
}

fn parse_mul_div(tokens: &Vec<Token>, pos: usize, depth: u32) -> (r: Option<(Expr, usize)>)
    requires
        pos <= tokens@.len(),
    ensures
        match r {
            Some(p) => pos < p.1 <= tokens@.len(),
            None => true,
        },
    decreases depth, tokens@.len() - pos, 2int,
{
    let mut cur = match parse_unary(tokens, pos, depth) {
        Some(p) => p,
        None => {
            return None;
        },
    };
    loop
        invariant
            pos < cur.1 <= tokens@.len(),
        decreases tokens@.len() - cur.1,
    {
        if cur.1 >= tokens.len() {
            return Some(cur);
        }
        let op: Option<BinaryOp> = match &tokens[cur.1] {
            Token::Star => Some(BinaryOp::Multiply),
            Token::Slash => Some(BinaryOp::Divide),
            _ => None,
        };
        match op {
            None => {
                return Some(cur);
            },
            Some(op) => {
                match parse_unary(tokens, cur.1 + 1, depth) {
                    None => {
                        return None;
                    },
                    Some(rhs) => {
                        let (le, _) = cur;
                        cur = (
                            Expr::Binary { op, left: Box::new(le), right: Box::new(rhs.0) },
                            rhs.1,
                        );
                    },
                }
            },
        }
    }
}

fn parse_unary(tokens: &Vec<Token>, pos: usize, depth: u32) -> (r: Option<(Expr, usize)>)
    requires
        pos <= tokens@.len(),
    ensures
        match r {
            Some(p) => pos < p.1 <= tokens@.len(),
            None => true,
        },
    decreases depth, tokens@.len() - pos, 1int,
{
    if pos < tokens.len() {
        let is_minus = match &tokens[pos] {
            Token::Minus => true,
            _ => false,
        };
        if is_minus {
            match parse_unary(tokens, pos + 1, depth) {
                None => {
                    return None;
                },
                Some(p) => {
                    return Some((Expr::UnaryNeg(Box::new(p.0)), p.1));
                },
            }
        }
    }
    parse_primary(tokens, pos, depth)
}

#[verifier::rlimit(100)]
fn parse_primary(tokens: &Vec<Token>, pos: usize, depth: u32) -> (r: Option<(Expr, usize)>)
    requires
        pos <= tokens@.len(),
    ensures
        match r {
            Some(p) => pos < p.1 <= tokens@.len(),
            None => true,
        },
    decreases depth, tokens@.len() - pos, 0int,
{
    if pos >= tokens.len() {
        return None;
    }
    if depth == 0 {
        return None;
    }
    match &tokens[pos] {
        Token::Identifier(name) => {
            if pos + 1 < tokens.len() {
                let is_lp = match &tokens[pos + 1] {
                    Token::LParen => true,
                    _ => false,
                };
                if is_lp {
                    let mut args: Vec<Expr> = Vec::new();
                    let mut cur: usize = pos + 2;
                    if cur < tokens.len() {
                        let is_rp = match &tokens[cur] {
                            Token::RParen => true,
                            _ => false,
                        };
                        if is_rp {
                            let mut nm: Vec<u8> = Vec::new();
                            crate::bytes::append_slice(&mut nm, name.as_slice());
                            return Some((Expr::Function { name: nm, args }, cur + 1));
                        }
                    }
                    loop
                        invariant
                            pos + 2 <= cur,
                            cur <= tokens@.len(),
                            depth >= 1,
                        decreases tokens@.len() - cur,
                    {
                        match parse_add_sub(tokens, cur, depth - 1) {
                            None => {
                                return None;
                            },
                            Some(ap) => {
                                args.push(ap.0);
                                if ap.1 >= tokens.len() {
                                    return None;
                                }
                                let next_comma = match &tokens[ap.1] {
                                    Token::Comma => true,
                                    _ => false,
                                };
                                let next_rp = match &tokens[ap.1] {
                                    Token::RParen => true,
                                    _ => false,
                                };
                                if next_comma {
                                    cur = ap.1 + 1;
                                } else if next_rp {
                                    let mut nm: Vec<u8> = Vec::new();
                                    crate::bytes::append_slice(&mut nm, name.as_slice());
                                    return Some((Expr::Function { name: nm, args }, ap.1 + 1));
                                } else {
                                    return None;
                                }
                            },
                        }
                    }
                } else {
                    let mut nm: Vec<u8> = Vec::new();
                    crate::bytes::append_slice(&mut nm, name.as_slice());
                    Some((Expr::Field(nm), pos + 1))
                }
            } else {
                let mut nm: Vec<u8> = Vec::new();
                crate::bytes::append_slice(&mut nm, name.as_slice());
                Some((Expr::Field(nm), pos + 1))
            }
        },
        Token::StringLiteral(s) => {
            let mut b: Vec<u8> = Vec::new();
            crate::bytes::append_slice(&mut b, s.as_slice());
            Some((Expr::Literal(JsonValue::Str(b)), pos + 1))
        },
        Token::Number(lex) => {
            match normalize_number(lex.as_slice()) {
                Some(norm) => Some((Expr::Literal(JsonValue::Num(norm)), pos + 1)),
                None => None,
            }
        },
        Token::BoolLit(b) => Some((Expr::Literal(JsonValue::Bool(*b)), pos + 1)),
        Token::NullLit => Some((Expr::Literal(JsonValue::Null), pos + 1)),
        Token::LParen => {
            match parse_add_sub(tokens, pos + 1, depth - 1) {
                None => None,
                Some(p) => {
                    if p.1 < tokens.len() {
                        let is_rp = match &tokens[p.1] {
                            Token::RParen => true,
                            _ => false,
                        };
                        if is_rp {
                            Some((p.0, p.1 + 1))
                        } else {
                            None
                        }
                    } else {
                        None
                    }
                },
            }
        },
        _ => None,
    }
}

/// Compile a compute expression: tokenize, parse, and require the whole
/// text consumed.
pub fn parse_expression(input: &str) -> (r: Result<Expr, crate::error::ConvertError>)
    ensures
        r is Err ==> r->Err_0 is InvalidConfig,
{
    let mut lexer = Lexer::new(input);
    let tokens = match lexer.tokenize() {
        Ok(t) => t,
        Err(e) => {
            return Err(e);
        },
    };
    match parse_add_sub(&tokens, 0, 64) {
        None => Err(
            crate::error::ConvertError::InvalidConfig(
                <String as vstd::string::StringExecFns>::from_str("invalid compute expression"),
            ),
        ),
        Some(p) => {
            if p.1 == tokens.len() {
                Ok(p.0)
            } else {
                Err(
                    crate::error::ConvertError::InvalidConfig(
                        <String as vstd::string::StringExecFns>::from_str(
                            "unexpected tokens after expression",
                        ),
                    ),
                )
            }
        },
    }
}

/// No field of the list asks for a computed value.
pub open spec fn no_compute(fs: Seq<FieldMapInput>) -> bool {
    forall|i: int| 0 <= i < fs.len() ==> (#[trigger] fs[i]).compute is None
}

impl TransformPlan {
    /// Compile a host-supplied configuration: at least one field is
    /// required, policies default, and every compute expression must
    /// parse.
    pub fn compile(input: TransformConfigInput) -> (r: Result<
        TransformPlan,
        crate::error::ConvertError,
    >)
        ensures
            input.fields@.len() == 0 ==> r is Err,
            (input.fields@.len() > 0 && no_compute(input.fields@)) ==> r is Ok,
            match r {
                Ok(p) => {
                    &&& input.fields@.len() > 0
                    &&& p.mode == input.mode
                    &&& p.fields@.len() == input.fields@.len()
                    &&& (forall|i: int|
                        0 <= i < p.fields@.len() ==> {
                            let f = #[trigger] p.fields@[i];
                            let g = input.fields@[i];
                            &&& f.target_field_name@ == vstd::utf8::encode_utf8(g.target_field_name@)
                            &&& f.origin_field_name@ == (match g.origin_field_name {
                                Some(o) => vstd::utf8::encode_utf8(o@),
                                None => vstd::utf8::encode_utf8(g.target_field_name@),
                            })
                            &&& f.required == (match g.required {
                                Some(b) => b,
                                None => false,
                            })
                            &&& f.default_value == g.default_value
                            &&& f.coerce == g.coerce
                            &&& (f.compute is Some <==> g.compute is Some)
                        })
                    &&& p.on_missing_field == (match input.on_missing_field {
                        Some(x) => x,
                        None => MissingFieldPolicy::Error,
                    })
                    &&& p.on_missing_required == (match input.on_missing_required {
                        Some(x) => x,
                        None => MissingRequiredPolicy::Error,
                    })
                    &&& p.on_coerce_error == (match input.on_coerce_error {
                        Some(x) => x,
                        None => CoerceErrorPolicy::Error,
                    })
                },
                Err(e) => e is InvalidConfig,
            },
    {
        let ghost orig = input.fields@;
        if input.fields.len() == 0 {
            return Err(
                crate::error::ConvertError::InvalidConfig(
                    <String as vstd::string::StringExecFns>::from_str(
                        "transform fields must not be empty",
                    ),
                ),
            );
        }
        let mut fields: Vec<TransformField> = Vec::new();
        let mode = input.mode;
        let omf = input.on_missing_field;
        let omr = input.on_missing_required;
        let oce = input.on_coerce_error;
        let mut inp = input;
        let n = inp.fields.len();
        let ghost n0 = orig.len();
        let mut i: usize = 0;
        #[verifier::loop_isolation(false)]
        while i < n
            invariant
                0 <= i <= n,
                n == inp.fields@.len(),
                n0 == n,
                orig.len() == n,
                fields@.len() == i,
                forall|j: int| i <= j < n ==> inp.fields@[j] == orig[j],
                forall|j: int|
                    0 <= j < i ==> {
                        let f = #[trigger] fields@[j];
                        let g = orig[j];
                        &&& f.target_field_name@ == vstd::utf8::encode_utf8(g.target_field_name@)
                        &&& f.origin_field_name@ == (match g.origin_field_name {
                            Some(o) => vstd::utf8::encode_utf8(o@),
                            None => vstd::utf8::encode_utf8(g.target_field_name@),
                        })
                        &&& f.required == (match g.required {
                            Some(b) => b,
                            None => false,
                        })
                        &&& f.default_value == g.default_value
                        &&& f.coerce == g.coerce
                        &&& (f.compute is Some <==> g.compute is Some)
                    },
            decreases n - i,
        {
            let mut placeholder = FieldMapInput {
                target_field_name: String::new(),
                origin_field_name: None,
                required: None,
                default_value: None,
                coerce: None,
                compute: None,
            };
            std::mem::swap(&mut placeholder, &mut inp.fields[i]);
            let f = placeholder;
            let mut target: Vec<u8> = Vec::new();
            crate::bytes::append_slice(&mut target, f.target_field_name.as_str().as_bytes());
            let origin: Vec<u8> = match &f.origin_field_name {
                Some(o) => {
                    let mut b: Vec<u8> = Vec::new();
                    crate::bytes::append_slice(&mut b, o.as_str().as_bytes());
                    b
                },
                None => {
                    let mut b: Vec<u8> = Vec::new();
                    crate::bytes::append_slice(&mut b, target.as_slice());
                    b
                },
            };
            let compute: Option<Expr> = match &f.compute {
                Some(src) => {
                    match parse_expression(src.as_str()) {
                        Ok(e) => Some(e),
                        Err(err) => {
                            proof {
                                assert(orig[i as int].compute is Some);
                                assert(!no_compute(orig));
                            }
                            return Err(err);
                        },
                    }
                },
                None => None,
            };
            fields.push(
                TransformField {
                    target_field_name: target,
                    origin_field_name: origin,
                    required: match f.required {
                        Some(b) => b,
                        None => false,
                    },
                    default_value: f.default_value,
                    coerce: f.coerce,
                    compute,
                },
            );
            i = i + 1;
        }
        Ok(
            TransformPlan {
                mode,
                fields,
                on_missing_field: match omf {
                    Some(x) => x,
                    None => MissingFieldPolicy::Error,
                },
                on_missing_required: match omr {
                    Some(x) => x,
                    None => MissingRequiredPolicy::Error,
                },
                on_coerce_error: match oce {
                    Some(x) => x,
                    None => CoerceErrorPolicy::Error,
                },
            },
        )
    }
}

} // verus!
