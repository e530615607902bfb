//! The column-type resolver: a small fixed type system with two
//! parameterized variants, a parser for type tokens and a validator that
//! checks a text value against a resolved type.
use vstd::prelude::*;
use vstd::string::*;

use crate::text::{
    ci_match, ci_seq_eq, dec_str, find_last_ci, is_digit_char, lemma_find_last_ci_bounds,
    lemma_scan_bounds, match_ci_at, range_ci_eq, scan, spec_find_last_ci, spec_scan, spec_trim,
    str_eq, trim_str, usize_to_string, CharClass,
};

verus! {

/// A column type. `VARCHAR` carries its maximum length, `ENUM` its allowed
/// values; all remaining variants are nullary.
#[derive(Debug, PartialEq, Eq, Clone)]
pub enum DataType {
    INTEGER,
    INT,
    FLOAT,
    DEC,
    TEXT,
    VARCHAR(usize),
    ENUM(Vec<String>),
    BOOLEAN,
    BOOL,
}

/// The mathematical model of a column type.
pub enum DataTypeV {
    INTEGER,
    INT,
    FLOAT,
    DEC,
    TEXT,
    VARCHAR(usize),
    ENUM(Seq<Seq<char>>),
    BOOLEAN,
    BOOL,
}

impl View for DataType {
    type V = DataTypeV;

    open spec fn view(&self) -> DataTypeV {
        match self {
            DataType::INTEGER => DataTypeV::INTEGER,
            DataType::INT => DataTypeV::INT,
            DataType::FLOAT => DataTypeV::FLOAT,
            DataType::DEC => DataTypeV::DEC,
            DataType::TEXT => DataTypeV::TEXT,
            DataType::VARCHAR(n) => DataTypeV::VARCHAR(*n),
            DataType::ENUM(vs) => DataTypeV::ENUM(vs.deep_view()),
            DataType::BOOLEAN => DataTypeV::BOOLEAN,
            DataType::BOOL => DataTypeV::BOOL,
        }
    }
}

impl DeepView for DataType {
    type V = DataTypeV;

    open spec fn deep_view(&self) -> DataTypeV {
        self.view()
    }
}

/// An error of the type resolver, carrying its display message.
#[derive(Debug, PartialEq, Eq, Clone)]
pub enum DataTypesErr {
    InvalidType(String),
    InvalidVarchar(String),
    InvalidInt(String),
    InvalidFloat(String),
    InvalidEnum(String),
    InvalidBool(String),
    InvalidStr(String),
}

/// The mathematical model of a type-resolver error.
pub enum DataTypesErrV {
    InvalidType(Seq<char>),
    InvalidVarchar(Seq<char>),
    InvalidInt(Seq<char>),
    InvalidFloat(Seq<char>),
    InvalidEnum(Seq<char>),
    InvalidBool(Seq<char>),
    InvalidStr(Seq<char>),
}

impl View for DataTypesErr {
    type V = DataTypesErrV;

    open spec fn view(&self) -> DataTypesErrV {
        match self {
            DataTypesErr::InvalidType(s) => DataTypesErrV::InvalidType(s@),
            DataTypesErr::InvalidVarchar(s) => DataTypesErrV::InvalidVarchar(s@),
            DataTypesErr::InvalidInt(s) => DataTypesErrV::InvalidInt(s@),
            DataTypesErr::InvalidFloat(s) => DataTypesErrV::InvalidFloat(s@),
            DataTypesErr::InvalidEnum(s) => DataTypesErrV::InvalidEnum(s@),
            DataTypesErr::InvalidBool(s) => DataTypesErrV::InvalidBool(s@),
            DataTypesErr::InvalidStr(s) => DataTypesErrV::InvalidStr(s@),
        }
    }
}

impl DeepView for DataTypesErr {
    type V = DataTypesErrV;

    open spec fn deep_view(&self) -> DataTypesErrV {
        self.view()
    }
}

/// The numeric value of a digit character.
pub open spec fn digit_val(c: char) -> nat {
    (c as int - 48) as nat
}

/// Whether every character of `s` is an ASCII decimal digit.
pub open spec fn all_digits(s: Seq<char>) -> bool {
    forall|i: int| 0 <= i < s.len() ==> is_digit_char(s[i])
}

/// The value of a digit string, most significant digit first.
pub open spec fn digits_val(s: Seq<char>) -> nat
    decreases s.len(),
{
    if s.len() == 0 {
        0
    } else {
        digits_val(s.drop_last()) * 10 + digit_val(s.last())
    }
}

/// Appending a digit multiplies the value by ten and adds the digit.
proof fn lemma_digits_val_step(s: Seq<char>, k: int)
    requires
        0 <= k < s.len(),
    ensures
        digits_val(s.take(k + 1)) == digits_val(s.take(k)) * 10 + digit_val(s[k]),
{
    assert(s.take(k + 1).drop_last() =~= s.take(k));
    assert(s.take(k + 1).last() == s[k]);
}

/// Whether `s` is the text of a 64-bit signed integer, as Rust's integer
/// parser accepts it: an optional sign, then one or more digits, with the
/// value within the type's range.
pub open spec fn is_i64_str(s: Seq<char>) -> bool {
    let body = if s.len() > 0 && (s[0] == '+' || s[0] == '-') {
        s.skip(1)
    } else {
        s
    };
    &&& body.len() > 0
    &&& all_digits(body)
    &&& if s.len() > 0 && s[0] == '-' {
        digits_val(body) <= 0x8000_0000_0000_0000
    } else {
        digits_val(body) <= 0x7fff_ffff_ffff_ffff
    }
}

/// Executable check that every character of `s` in `[lo, hi)` is a digit.
fn all_digits_range(s: &str, lo: usize, hi: usize) -> (r: bool)
    requires
        lo <= hi <= s@.len(),
    ensures
        r == all_digits(s@.subrange(lo as int, hi as int)),
{
    let e = scan(s, lo, CharClass::Digit);
    proof {
        lemma_scan_bounds(s@, lo as int, CharClass::Digit);
        let sub = s@.subrange(lo as int, hi as int);
        if e >= hi {
            assert forall|i: int| 0 <= i < sub.len() implies is_digit_char(sub[i]) by {
                assert(sub[i] == s@[lo + i]);
            }
        } else {
            assert(sub[e - lo as int] == s@[e as int]);
        }
    }
    e >= hi
}

/// Accumulate the digit string `s[lo..hi)` into a value, reporting `None`
/// when the value exceeds `limit`.
fn accumulate_digits(s: &str, lo: usize, hi: usize, limit: u64) -> (r: Option<u64>)
    requires
        lo <= hi <= s@.len(),
        all_digits(s@.subrange(lo as int, hi as int)),
    ensures
        match r {
            Some(v) => v as nat == digits_val(s@.subrange(lo as int, hi as int)) && v <= limit,
            None => digits_val(s@.subrange(lo as int, hi as int)) > limit,
        },
{
    let ghost body = s@.subrange(lo as int, hi as int);
    let mut acc: u64 = 0;
    let mut over: bool = false;
    let mut j: usize = lo;
    proof {
        assert(body.take(0) =~= Seq::<char>::empty());
    }
    while j < hi
        invariant
            lo <= j <= hi <= s@.len(),
            body == s@.subrange(lo as int, hi as int),
            all_digits(body),
            !over ==> acc as nat == digits_val(body.take(j - lo)) && acc <= limit,
            over ==> digits_val(body.take(j - lo)) > limit,
        decreases hi - j,
    {
        let c = s.get_char(j);
        proof {
            assert(body[j - lo] == s@[j as int]);
            assert(is_digit_char(body[j - lo]));
        }
        let d: u64 = (c as u32 - 48) as u64;
        proof {
            lemma_digits_val_step(body, j - lo as int);
        }
        if !over {
            if acc > limit / 10 || (acc == limit / 10 && d > limit % 10) {
                proof {
                    let old_val = digits_val(body.take(j - lo));
                    let new_val = digits_val(body.take(j - lo + 1));
                    assert(new_val == old_val * 10 + digit_val(body[j - lo]));
                    if acc > limit / 10 {
                        assert(old_val * 10 >= (limit / 10 + 1) * 10) by (nonlinear_arith)
                            requires
                                old_val >= limit / 10 + 1,
                        ;
                        assert((limit / 10 + 1) * 10 > limit);
                    } else {
                        assert(old_val * 10 + digit_val(body[j - lo]) > limit);
                    }
                }
                over = true;
            } else {
                proof {
                    assert(acc * 10 + d <= limit) by (nonlinear_arith)
                        requires
                            acc <= limit / 10,
                            acc < limit / 10 || d <= limit % 10,
                            d < 10,
                            limit == (limit / 10) * 10 + limit % 10,
                            limit % 10 < 10,
                    ;
                }
                acc = acc * 10 + d;
            }
        } else {
            proof {
                let old_val = digits_val(body.take(j - lo));
                let new_val = digits_val(body.take(j - lo + 1));
                assert(new_val >= old_val * 10) by (nonlinear_arith)
                    requires
                        new_val == old_val * 10 + digit_val(body[j - lo]),
                ;
                assert(old_val * 10 >= old_val) by (nonlinear_arith);
            }
        }
        j = j + 1;
    }
    proof {
        assert(body.take(hi - lo) =~= body);
    }
    if over {
        None
    } else {
        Some(acc)
    }
}

/// Executable check that `s` is the text of a 64-bit signed integer.
pub fn is_i64_literal(s: &str) -> (r: bool)
    ensures
        r == is_i64_str(s@),
{
    let n = s.unicode_len();
    let mut i: usize = 0;
    let mut neg: bool = false;
    if n > 0 {
        let c = s.get_char(0);
        if c == '+' || c == '-' {
            i = 1;
            neg = c == '-';
        }
    }
    proof {
        let body = if s@.len() > 0 && (s@[0] == '+' || s@[0] == '-') {
            s@.skip(1)
        } else {
            s@
        };
        assert(body =~= s@.subrange(i as int, n as int));
    }
    if i == n {
        return false;
    }
    if !all_digits_range(s, i, n) {
        return false;
    }
    let limit: u64 = if neg {
        0x8000_0000_0000_0000
    } else {
        0x7fff_ffff_ffff_ffff
    };
    let acc = accumulate_digits(s, i, n, limit);
    acc.is_some()
}

/// The position of the first `'e'` or `'E'` in `q` at or after `i`, or the
/// length of `q` when there is none.
pub open spec fn spec_find_exp(q: Seq<char>, i: int) -> int
    decreases q.len() - i,
{
    if i < 0 || i >= q.len() {
        q.len() as int
    } else if q[i] == 'e' || q[i] == 'E' {
        i
    } else {
        spec_find_exp(q, i + 1)
    }
}

/// The position of the first `'.'` in `q` at or after `i`, or the length of
/// `q` when there is none.
pub open spec fn spec_find_dot(q: Seq<char>, i: int) -> int
    decreases q.len() - i,
{
    if i < 0 || i >= q.len() {
        q.len() as int
    } else if q[i] == '.' {
        i
    } else {
        spec_find_dot(q, i + 1)
    }
}

proof fn lemma_find_exp_bounds(q: Seq<char>, i: int)
    requires
        0 <= i <= q.len(),
    ensures
        i <= spec_find_exp(q, i) <= q.len(),
        spec_find_exp(q, i) < q.len() ==> (q[spec_find_exp(q, i)] == 'e' || q[spec_find_exp(q, i)]
            == 'E'),
    decreases q.len() - i,
{
    if i < q.len() && !(q[i] == 'e' || q[i] == 'E') {
        lemma_find_exp_bounds(q, i + 1);
    }
}

proof fn lemma_find_dot_bounds(q: Seq<char>, i: int)
    requires
        0 <= i <= q.len(),
    ensures
        i <= spec_find_dot(q, i) <= q.len(),
    decreases q.len() - i,
{
    if i < q.len() && q[i] != '.' {
        lemma_find_dot_bounds(q, i + 1);
    }
}

fn find_exp(s: &str, i: usize) -> (r: usize)
    requires
        i <= s@.len(),
    ensures
        r == spec_find_exp(s@, i as int),
        i <= r <= s@.len(),
{
    let n = s.unicode_len();
    let mut j: usize = i;
    while j < n
        invariant
            i <= j <= n,
            n == s@.len(),
            spec_find_exp(s@, i as int) == spec_find_exp(s@, j as int),
        decreases n - j,
    {
        let c = s.get_char(j);
        if c == 'e' || c == 'E' {
            return j;
        }
        j = j + 1;
    }
    j
}

pub fn find_dot(s: &str, i: usize) -> (r: usize)
    requires
        i <= s@.len(),
    ensures
        r == spec_find_dot(s@, i as int),
        i <= r <= s@.len(),
{
    let n = s.unicode_len();
    let mut j: usize = i;
    while j < n
        invariant
            i <= j <= n,
            n == s@.len(),
            spec_find_dot(s@, i as int) == spec_find_dot(s@, j as int),
        decreases n - j,
    {
        if s.get_char(j) == '.' {
            return j;
        }
        j = j + 1;
    }
    j
}

/// Whether the characters of `q` in `[lo, hi)` form a mantissa: digits, or
/// digits around a single dot with at least one digit on one side.
pub open spec fn is_mantissa(q: Seq<char>, lo: int, hi: int) -> bool {
    let di = spec_find_dot(q, lo);
    if di >= hi {
        lo < hi && all_digits(q.subrange(lo, hi))
    } else {
        &&& all_digits(q.subrange(lo, di))
        &&& all_digits(q.subrange(di + 1, hi))
        &&& (lo < di || di + 1 < hi)
    }
}

/// Whether the characters of `q` in `[lo, hi)` form an exponent body: an
/// optional sign, then one or more digits.
pub open spec fn is_exp_body(q: Seq<char>, lo: int, hi: int) -> bool {
    let b = if lo < hi && (q[lo] == '+' || q[lo] == '-') {
        lo + 1
    } else {
        lo
    };
    b < hi && all_digits(q.subrange(b, hi))
}

/// Whether `s` is the text of a 64-bit floating-point number, as Rust's
/// float parser accepts it: an optional sign, then either one of the
/// keywords `inf`, `infinity` and `nan` (any case) or a mantissa with an
/// optional exponent. Range never fails, so only the shape matters.
pub open spec fn is_f64_str(s: Seq<char>) -> bool {
    let lo = if s.len() > 0 && (s[0] == '+' || s[0] == '-') {
        1
    } else {
        0
    };
    let body = s.subrange(lo as int, s.len() as int);
    ||| ci_seq_eq(body, "inf"@)
    ||| ci_seq_eq(body, "infinity"@)
    ||| ci_seq_eq(body, "nan"@)
    ||| {
        let ei = spec_find_exp(s, lo);
        &&& is_mantissa(s, lo, ei)
        &&& (ei == s.len() || is_exp_body(s, ei + 1, s.len() as int))
    }
}

/// Executable check that `s` is the text of a 64-bit floating-point number.
pub fn is_f64_literal(s: &str) -> (r: bool)
    ensures
        r == is_f64_str(s@),
{
    let n = s.unicode_len();
    let mut lo: usize = 0;
    if n > 0 {
        let c = s.get_char(0);
        if c == '+' || c == '-' {
            lo = 1;
        }
    }
    if range_ci_eq(s, lo, n, "inf") || range_ci_eq(s, lo, n, "infinity") || range_ci_eq(
        s,
        lo,
        n,
        "nan",
    ) {
        return true;
    }
    let ei = find_exp(s, lo);
    // mantissa in [lo, ei)
    let di = find_dot(s, lo);
    proof {
        lemma_find_dot_bounds(s@, lo as int);
        lemma_find_exp_bounds(s@, lo as int);
    }
    let mantissa_ok: bool = if di >= ei {
        lo < ei && all_digits_range(s, lo, ei)
    } else {
        all_digits_range(s, lo, di) && all_digits_range(s, di + 1, ei) && (lo < di || di + 1 < ei)
    };
    if !mantissa_ok {
        return false;
    }
    if ei == n {
        return true;
    }
    // exponent body in [ei + 1, n)
    let mut b: usize = ei + 1;
    if b < n {
        let c = s.get_char(b);
        if c == '+' || c == '-' {
            b = b + 1;
        }
    }
    b < n && all_digits_range(s, b, n)
}

/// Whether `s` is the text of a boolean, as Rust's boolean parser accepts
/// it: exactly `true` or `false`.
pub open spec fn is_bool_str(s: Seq<char>) -> bool {
    s == "true"@ || s == "false"@
}

/// Executable check that `s` is the text of a boolean.
pub fn is_bool_literal(s: &str) -> (r: bool)
    ensures
        r == is_bool_str(s@),
{
    str_eq(s, "true") || str_eq(s, "false")
}


/// `v` wrapped in double quotes, as the debug form of a string renders it.
pub open spec fn quoted_dq(v: Seq<char>) -> Seq<char> {
    "\""@ + v + "\""@
}

/// The comma-separated quoted elements of `vs` from position `i` on.
pub open spec fn debug_inner(vs: Seq<Seq<char>>, i: int) -> Seq<char>
    decreases vs.len() - i,
{
    if i < 0 || i >= vs.len() {
        Seq::empty()
    } else {
        (if i > 0 {
            ", "@
        } else {
            Seq::empty()
        }) + quoted_dq(vs[i]) + debug_inner(vs, i + 1)
    }
}

/// The debug form of a list of strings: quoted elements between brackets.
pub open spec fn debug_strings(vs: Seq<Seq<char>>) -> Seq<char> {
    "["@ + debug_inner(vs, 0) + "]"@
}

/// Render a list of strings in their debug form.
pub fn quote_join(values: &Vec<String>) -> (r: String)
    ensures
        r@ == debug_strings(values.deep_view()),
{
    let ghost vs = values.deep_view();
    let mut s = String::from_str("[");
    let mut i: usize = 0;
    while i < values.len()
        invariant
            0 <= i <= values.len(),
            vs == values.deep_view(),
            vs.len() == values.len(),
            "["@ + debug_inner(vs, 0) =~= s@ + debug_inner(vs, i as int),
        decreases values.len() - i,
    {
        if i > 0 {
            s.append(", ");
        }
        s.append("\"");
        s.append(values[i].as_str());
        s.append("\"");
        proof {
            assert(vs[i as int] == values@[i as int].deep_view());
        }
        i = i + 1;
    }
    s.append("]");
    proof {
        assert(debug_inner(vs, i as int) =~= Seq::empty());
        assert(s@ =~= "["@ + debug_inner(vs, 0) + "]"@);
    }
    s
}

/// The message of a failed integer or float validation.
pub open spec fn msg_not_valid(raw: Seq<char>, name: Seq<char>) -> Seq<char> {
    "'"@ + raw + "' is not a valid "@ + name
}

fn not_valid_msg(raw: &str, name: &str) -> (r: String)
    ensures
        r@ == msg_not_valid(raw@, name@),
{
    let mut s = String::from_str("'");
    s.append(raw);
    s.append("' is not a valid ");
    s.append(name);
    proof {
        assert(s@ =~= msg_not_valid(raw@, name@));
    }
    s
}

/// The message of a failed boolean validation.
pub open spec fn msg_invalid_bool(raw: Seq<char>) -> Seq<char> {
    "`"@ + raw + "` is not a valid boolean"@
}

/// The message of a failed length validation.
pub open spec fn msg_invalid_str(raw: Seq<char>, n: nat) -> Seq<char> {
    "Max length exceed of `"@ + raw + "`. Max len = "@ + dec_str(n)
}

/// The message of a failed enum-membership validation.
pub open spec fn msg_invalid_enum(raw: Seq<char>, vs: Seq<Seq<char>>) -> Seq<char> {
    "`"@ + raw + "` is not valid enum. must be one of these "@ + debug_strings(vs)
}

/// `s` with one leading and one trailing quote character removed.
pub open spec fn strip_quotes(s: Seq<char>) -> Seq<char> {
    let a = if s.len() > 0 && (s[0] == '\'' || s[0] == '"') {
        s.skip(1)
    } else {
        s
    };
    if a.len() > 0 && (a.last() == '\'' || a.last() == '"') {
        a.take(a.len() - 1)
    } else {
        a
    }
}

/// An enum entry cleaned for storage: trimmed, unquoted, trimmed again.
pub open spec fn clean_enum_entry(s: Seq<char>) -> Seq<char> {
    spec_trim(strip_quotes(spec_trim(s)))
}

/// The cleaned, non-empty entries of the comma-separated list `inner`
/// from position `i` on.
pub open spec fn spec_enum_values(inner: Seq<char>, i: int) -> Seq<Seq<char>>
    decreases inner.len() - i,
{
    if i < 0 || i > inner.len() {
        Seq::empty()
    } else {
        let e0 = spec_scan(inner, i, CharClass::NotComma);
        let e = if e0 < i {
            i
        } else {
            e0
        };
        let v = clean_enum_entry(inner.subrange(i, e));
        let rest = if e < inner.len() {
            spec_enum_values(inner, e + 1)
        } else {
            Seq::empty()
        };
        if v.len() > 0 {
            seq![v] + rest
        } else {
            rest
        }
    }
}

/// The position one past the closing parenthesis of an `ENUM(...)` token,
/// taking the last closing parenthesis of `t`.
pub open spec fn enum_inner_end(t: Seq<char>) -> int {
    spec_find_last_ci(t, t.len() - 1, ")"@)
}

/// Whether `t` has the shape of an enum type token.
pub open spec fn enum_form(t: Seq<char>) -> bool {
    ci_match(t, 0, "enum("@) && enum_inner_end(t) > "enum("@.len()
}

/// What parsing a type token yields: the resolver trims the token, then
/// recognizes `varchar` with an optional parenthesized size (255 when
/// absent), then an enum with a parenthesized value list, and finally the
/// fixed nullary keywords, case-insensitively.
pub open spec fn spec_parse_type(raw: Seq<char>) -> Result<DataTypeV, DataTypesErrV> {
    let t = spec_trim(raw);
    if ci_match(t, 0, "varchar"@) {
        let k = "varchar"@.len() as int;
        let p = if k < t.len() && t[k] == '(' {
            k + 1
        } else {
            k
        };
        let e0 = spec_scan(t, p, CharClass::Digit);
        let e = if e0 < p {
            p
        } else {
            e0
        };
        if e > p {
            let v = digits_val(t.subrange(p, e));
            if v > usize::MAX as nat {
                Err(DataTypesErrV::InvalidVarchar(t))
            } else {
                Ok(DataTypeV::VARCHAR(v as usize))
            }
        } else {
            Ok(DataTypeV::VARCHAR(255))
        }
    } else if enum_form(t) {
        Ok(
            DataTypeV::ENUM(
                spec_enum_values(t.subrange("enum("@.len() as int, enum_inner_end(t)), 0),
            ),
        )
    } else if ci_seq_eq(t, "INTEGER"@) {
        Ok(DataTypeV::INTEGER)
    } else if ci_seq_eq(t, "INT"@) {
        Ok(DataTypeV::INT)
    } else if ci_seq_eq(t, "FLOAT"@) {
        Ok(DataTypeV::FLOAT)
    } else if ci_seq_eq(t, "DEC"@) {
        Ok(DataTypeV::DEC)
    } else if ci_seq_eq(t, "TEXT"@) {
        Ok(DataTypeV::TEXT)
    } else if ci_seq_eq(t, "BOOLEAN"@) {
        Ok(DataTypeV::BOOLEAN)
    } else if ci_seq_eq(t, "BOOL"@) {
        Ok(DataTypeV::BOOL)
    } else {
        Err(DataTypesErrV::InvalidType(t))
    }
}

/// What validating `raw` against a type yields: integers and floats must
/// parse, a varchar bounds the character count, an enum requires exact
/// membership, booleans must be a boolean literal, text always passes.
pub open spec fn spec_is_valid(dt: DataTypeV, raw: Seq<char>) -> Result<(), DataTypesErrV> {
    match dt {
        DataTypeV::INTEGER => if is_i64_str(raw) {
            Ok(())
        } else {
            Err(DataTypesErrV::InvalidInt(msg_not_valid(raw, "INTEGER"@)))
        },
        DataTypeV::INT => if is_i64_str(raw) {
            Ok(())
        } else {
            Err(DataTypesErrV::InvalidInt(msg_not_valid(raw, "INT"@)))
        },
        DataTypeV::FLOAT => if is_f64_str(raw) {
            Ok(())
        } else {
            Err(DataTypesErrV::InvalidFloat(msg_not_valid(raw, "FLOAT"@)))
        },
        DataTypeV::DEC => if is_f64_str(raw) {
            Ok(())
        } else {
            Err(DataTypesErrV::InvalidFloat(msg_not_valid(raw, "DEC"@)))
        },
        DataTypeV::TEXT => Ok(()),
        DataTypeV::VARCHAR(n) => if raw.len() <= n {
            Ok(())
        } else {
            Err(DataTypesErrV::InvalidStr(msg_invalid_str(raw, n as nat)))
        },
        DataTypeV::ENUM(vs) => if exists|i: int| 0 <= i < vs.len() && vs[i] == raw {
            Ok(())
        } else {
            Err(DataTypesErrV::InvalidEnum(msg_invalid_enum(raw, vs)))
        },
        DataTypeV::BOOLEAN => if is_bool_str(raw) {
            Ok(())
        } else {
            Err(DataTypesErrV::InvalidBool(msg_invalid_bool(raw)))
        },
        DataTypeV::BOOL => if is_bool_str(raw) {
            Ok(())
        } else {
            Err(DataTypesErrV::InvalidBool(msg_invalid_bool(raw)))
        },
    }
}

/// The canonical rendering of a type, as its debug form prints it.
pub open spec fn spec_type_name(dt: DataTypeV) -> Seq<char> {
    match dt {
        DataTypeV::INTEGER => "INTEGER"@,
        DataTypeV::INT => "INT"@,
        DataTypeV::FLOAT => "FLOAT"@,
        DataTypeV::DEC => "DEC"@,
        DataTypeV::TEXT => "TEXT"@,
        DataTypeV::VARCHAR(n) => "VARCHAR("@ + dec_str(n as nat) + ")"@,
        DataTypeV::ENUM(vs) => "ENUM("@ + debug_strings(vs) + ")"@,
        DataTypeV::BOOLEAN => "BOOLEAN"@,
        DataTypeV::BOOL => "BOOL"@,
    }
}

/// The canonical default value of each type for newly declared columns;
/// an enum without values defaults to the empty string.
pub open spec fn spec_default_text(dt: DataTypeV) -> Seq<char> {
    match dt {
        DataTypeV::INTEGER => "0"@,
        DataTypeV::INT => "0"@,
        DataTypeV::FLOAT => "0.0"@,
        DataTypeV::DEC => "0.0"@,
        DataTypeV::TEXT => Seq::empty(),
        DataTypeV::VARCHAR(_) => Seq::empty(),
        DataTypeV::ENUM(vs) => if vs.len() > 0 {
            vs[0]
        } else {
            Seq::empty()
        },
        DataTypeV::BOOLEAN => "false"@,
        DataTypeV::BOOL => "false"@,
    }
}

impl DataType {
    /// Parse a type token into a resolved type.
    pub fn parse(datatype: &str) -> (r: Result<DataType, DataTypesErr>)
        ensures
            match r {
                Ok(dt) => spec_parse_type(datatype@) == Ok::<DataTypeV, DataTypesErrV>(dt@),
                Err(e) => spec_parse_type(datatype@) == Err::<DataTypeV, DataTypesErrV>(e@),
            },
    {
        let t = trim_str(datatype);
        let n = t.unicode_len();
        proof {
            assert(t@.subrange(0, n as int) =~= t@);
        }
        if match_ci_at(t, 0, "varchar") {
            let k = "varchar".unicode_len();
            let mut p: usize = k;
            if k < n && t.get_char(k) == '(' {
                p = k + 1;
            }
            let e = scan(t, p, CharClass::Digit);
            if e > p {
                proof {
                    lemma_scan_bounds(t@, p as int, CharClass::Digit);
                    let sub = t@.subrange(p as int, e as int);
                    assert forall|i: int| 0 <= i < sub.len() implies is_digit_char(sub[i]) by {
                        assert(sub[i] == t@[p + i]);
                    }
                }
                let limit: u64 = usize::MAX as u64;
                match accumulate_digits(t, p, e, limit) {
                    Some(v) => Ok(DataType::VARCHAR(v as usize)),
                    None => Err(DataTypesErr::InvalidVarchar(String::from_str(t))),
                }
            } else {
                Ok(DataType::VARCHAR(255))
            }
        } else {
            let k5 = "enum(".unicode_len();
            let is_enum_head = match_ci_at(t, 0, "enum(");
            let close_opt = if n > 0 {
                find_last_ci(t, n - 1, ")")
            } else {
                None
            };
            proof {
                if n > 0 {
                    lemma_find_last_ci_bounds(t@, n - 1, ")"@);
                }
            }
            let close: usize = match close_opt {
                Some(e) => e + 1,
                None => 0,
            };
            if is_enum_head && close > 0 && close - 1 > k5 {
                let inner_s = t.substring_char(k5, close - 1);
                let values = enum_values(inner_s);
                proof {
                    assert(inner_s@ == t@.subrange("enum("@.len() as int, enum_inner_end(t@)));
                }
                Ok(DataType::ENUM(values))
            } else if range_ci_eq(t, 0, n, "INTEGER") {
                Ok(DataType::INTEGER)
            } else if range_ci_eq(t, 0, n, "INT") {
                Ok(DataType::INT)
            } else if range_ci_eq(t, 0, n, "FLOAT") {
                Ok(DataType::FLOAT)
            } else if range_ci_eq(t, 0, n, "DEC") {
                Ok(DataType::DEC)
            } else if range_ci_eq(t, 0, n, "TEXT") {
                Ok(DataType::TEXT)
            } else if range_ci_eq(t, 0, n, "BOOLEAN") {
                Ok(DataType::BOOLEAN)
            } else if range_ci_eq(t, 0, n, "BOOL") {
                Ok(DataType::BOOL)
            } else {
                Err(DataTypesErr::InvalidType(String::from_str(t)))
            }
        }
    }

    /// Validate a raw text value against this type.
    pub fn is_valid(&self, raw: &str) -> (r: Result<(), DataTypesErr>)
        ensures
            match r {
                Ok(u) => spec_is_valid(self@, raw@) is Ok,
                Err(e) => spec_is_valid(self@, raw@) == Err::<(), DataTypesErrV>(e@),
            },
    {
        match self {
            DataType::INTEGER => if is_i64_literal(raw) {
                Ok(())
            } else {
                Err(DataTypesErr::InvalidInt(not_valid_msg(raw, "INTEGER")))
            },
            DataType::INT => if is_i64_literal(raw) {
                Ok(())
            } else {
                Err(DataTypesErr::InvalidInt(not_valid_msg(raw, "INT")))
            },
            DataType::FLOAT => if is_f64_literal(raw) {
                Ok(())
            } else {
                Err(DataTypesErr::InvalidFloat(not_valid_msg(raw, "FLOAT")))
            },
            DataType::DEC => if is_f64_literal(raw) {
                Ok(())
            } else {
                Err(DataTypesErr::InvalidFloat(not_valid_msg(raw, "DEC")))
            },
            DataType::TEXT => Ok(()),
            DataType::VARCHAR(max_len) => if raw.unicode_len() <= *max_len {
                Ok(())
            } else {
                let mut m = String::from_str("Max length exceed of `");
                m.append(raw);
                m.append("`. Max len = ");
                let digits = usize_to_string(*max_len);
                m.append(digits.as_str());
                proof {
                    assert(m@ =~= msg_invalid_str(raw@, *max_len as nat));
                }
                Err(DataTypesErr::InvalidStr(m))
            },
            DataType::ENUM(values) => {
                if contains_str(values, raw) {
                    return Ok(());
                }
                let mut m = String::from_str("`");
                m.append(raw);
                m.append("` is not valid enum. must be one of these ");
                let joined = quote_join(values);
                m.append(joined.as_str());
                proof {
                    assert(m@ =~= msg_invalid_enum(raw@, values.deep_view()));
                }
                Err(DataTypesErr::InvalidEnum(m))
            },
            DataType::BOOLEAN => if is_bool_literal(raw) {
                Ok(())
            } else {
                let mut m = String::from_str("`");
                m.append(raw);
                m.append("` is not a valid boolean");
                proof {
                    assert(m@ =~= msg_invalid_bool(raw@));
                }
                Err(DataTypesErr::InvalidBool(m))
            },
            DataType::BOOL => if is_bool_literal(raw) {
                Ok(())
            } else {
                let mut m = String::from_str("`");
                m.append(raw);
                m.append("` is not a valid boolean");
                proof {
                    assert(m@ =~= msg_invalid_bool(raw@));
                }
                Err(DataTypesErr::InvalidBool(m))
            },
        }
    }

    /// The canonical rendering of this type.
    pub fn as_string(&self) -> (r: String)
        ensures
            r@ == spec_type_name(self@),
    {
        match self {
            DataType::INTEGER => String::from_str("INTEGER"),
            DataType::INT => String::from_str("INT"),
            DataType::FLOAT => String::from_str("FLOAT"),
            DataType::DEC => String::from_str("DEC"),
            DataType::TEXT => String::from_str("TEXT"),
            DataType::VARCHAR(n) => {
                let mut s = String::from_str("VARCHAR(");
                let digits = usize_to_string(*n);
                s.append(digits.as_str());
                s.append(")");
                proof {
                    assert(s@ =~= spec_type_name(self@));
                }
                s
            },
            DataType::ENUM(values) => {
                let mut s = String::from_str("ENUM(");
                let joined = quote_join(values);
                s.append(joined.as_str());
                s.append(")");
                proof {
                    assert(s@ =~= spec_type_name(self@));
                }
                s
            },
            DataType::BOOLEAN => String::from_str("BOOLEAN"),
            DataType::BOOL => String::from_str("BOOL"),
        }
    }

    /// The canonical default value of this type for a newly declared column.
    pub fn default_value(&self) -> (r: String)
        ensures
            r@ == spec_default_text(self@),
    {
        match self {
            DataType::INTEGER => String::from_str("0"),
            DataType::INT => String::from_str("0"),
            DataType::FLOAT => String::from_str("0.0"),
            DataType::DEC => String::from_str("0.0"),
            DataType::TEXT => String::new(),
            DataType::VARCHAR(_) => String::new(),
            DataType::ENUM(values) => if values.len() > 0 {
                let v = values[0].clone();
                proof {
                    assert(values.deep_view()[0] == values@[0]@);
                }
                v
            } else {
                String::new()
            },
            DataType::BOOLEAN => String::from_str("false"),
            DataType::BOOL => String::from_str("false"),
        }
    }
}

/// Whether `raw` occurs among `values`, by exact text comparison.
fn contains_str(values: &Vec<String>, raw: &str) -> (r: bool)
    ensures
        r == exists|k: int|
            0 <= k < values.deep_view().len() && values.deep_view()[k] == raw@,
{
    let mut i: usize = 0;
    while i < values.len()
        invariant
            0 <= i <= values.len(),
            forall|k: int| 0 <= k < i ==> values.deep_view()[k] != raw@,
        decreases values.len() - i,
    {
        proof {
            assert(values.deep_view()[i as int] == values@[i as int]@);
        }
        if str_eq(values[i].as_str(), raw) {
            return true;
        }
        i = i + 1;
    }
    false
}

/// Split the inner text of an enum token into its cleaned entries.
fn enum_values(inner_s: &str) -> (values: Vec<String>)
    ensures
        values.deep_view() == spec_enum_values(inner_s@, 0),
{
    let m = inner_s.unicode_len();
    let mut values: Vec<String> = Vec::new();
    let mut p: usize = 0;
    loop
        invariant
            0 <= p <= m,
            m == inner_s@.len(),
            spec_enum_values(inner_s@, 0) =~= values.deep_view() + spec_enum_values(
                inner_s@,
                p as int,
            ),
        decreases m - p,
    {
        let e = scan(inner_s, p, CharClass::NotComma);
        let seg = inner_s.substring_char(p, e);
        let seg1 = trim_str(seg);
        let l1 = seg1.unicode_len();
        let mut lo2: usize = 0;
        let mut hi2: usize = l1;
        if hi2 > lo2 {
            let c = seg1.get_char(0);
            if c == '\'' || c == '"' {
                lo2 = 1;
            }
        }
        if hi2 > lo2 {
            let c = seg1.get_char(hi2 - 1);
            if c == '\'' || c == '"' {
                hi2 = hi2 - 1;
            }
        }
        let seg2 = seg1.substring_char(lo2, hi2);
        proof {
            assert(seg2@ =~= strip_quotes(seg1@));
        }
        let seg3 = trim_str(seg2);
        let ghost old_values = values.deep_view();
        if seg3.unicode_len() > 0 {
            values.push(String::from_str(seg3));
            proof {
                assert(values.deep_view() =~= old_values.push(seg3@));
            }
        }
        proof {
            let cleaned = clean_enum_entry(inner_s@.subrange(p as int, e as int));
            assert(cleaned == seg3@);
        }
        if e == m {
            proof {
                assert(spec_enum_values(inner_s@, 0) =~= values.deep_view());
            }
            return values;
        }
        p = e + 1;
    }
}

} // verus!
