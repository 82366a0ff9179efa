//! Decoding of the token endpoint's response: a verified JSON parser for the
//! access-token response shape. The grammar is stated by spec functions and
//! the executable parser is proved to return exactly what they describe: an
//! object whose `token_type` and `access_token` members are strings, whose
//! `expires_in` and `ext_expires_in` members are unsigned integers, with
//! other members of scalar or scalar-array shape ignored, and nothing but
//! whitespace around.
use vstd::prelude::*;

use crate::errors::TokenError;
use crate::textops::{chars_to_string, matches_at, str_to_chars};
use crate::trusted::char_from_u32;

verus! {

/// A decoded access-token response.
#[derive(Debug)]
pub struct AccessTokenResponse {
    pub token_type: String,
    pub expires_in: u64,
    pub ext_expires_in: u64,
    pub access_token: String,
}

/// The four members collected while walking the response object.
pub ghost struct FieldsState {
    pub token_type: Option<Seq<char>>,
    pub expires_in: Option<u64>,
    pub ext_expires_in: Option<u64>,
    pub access_token: Option<Seq<char>>,
}

/// A JSON whitespace character.
pub open spec fn is_json_ws(c: char) -> bool {
    c == ' ' || c == '\t' || c == '\n' || c == '\r'
}

/// A decimal digit character.
pub open spec fn is_json_digit(c: char) -> bool {
    48 <= c as u32 <= 57
}

/// The first position at or after `i` that does not hold whitespace.
pub open spec fn spec_skip_ws(s: Seq<char>, i: int) -> int
    decreases s.len() - i,
{
    if 0 <= i < s.len() && is_json_ws(s[i]) {
        spec_skip_ws(s, i + 1)
    } else {
        i
    }
}

proof fn lemma_skip_ws_bounds(s: Seq<char>, i: int)
    requires
        0 <= i <= s.len(),
    ensures
        i <= spec_skip_ws(s, i) <= s.len(),
    decreases s.len() - i,
{
    if i < s.len() && is_json_ws(s[i]) {
        lemma_skip_ws_bounds(s, i + 1);
    }
}

/// The value prepended to the text a parse continuation returns.
pub open spec fn prepend_str(prefix: Seq<char>, o: Option<(Seq<char>, int)>) -> Option<
    (Seq<char>, int),
> {
    match o {
        Some((v, j)) => Some((prefix + v, j)),
        None => None,
    }
}

proof fn lemma_prepend_assoc(a: Seq<char>, b: Seq<char>, o: Option<(Seq<char>, int)>)
    ensures
        prepend_str(a, prepend_str(b, o)) == prepend_str(a + b, o),
{
    match o {
        Some((v, j)) => {
            assert(a + (b + v) =~= (a + b) + v);
        },
        None => {},
    }
}

/// The value of a hexadecimal digit character, or 16 where it is none.
pub open spec fn hex_char_val(c: char) -> int {
    if 48 <= c as u32 <= 57 {
        c as u32 - 48
    } else if 97 <= c as u32 <= 102 {
        c as u32 - 87
    } else if 65 <= c as u32 <= 70 {
        c as u32 - 55
    } else {
        16
    }
}

/// The value of the four hexadecimal digits at position `i`.
pub open spec fn spec_hex4(s: Seq<char>, i: int) -> Option<u32> {
    if 0 <= i && i + 4 <= s.len() {
        let a = hex_char_val(s[i]);
        let b = hex_char_val(s[i + 1]);
        let c = hex_char_val(s[i + 2]);
        let d = hex_char_val(s[i + 3]);
        if a < 16 && b < 16 && c < 16 && d < 16 {
            Some((a * 4096 + b * 256 + c * 16 + d) as u32)
        } else {
            None
        }
    } else {
        None
    }
}

/// The character a `\u` escape at position `i` (of its first hex digit)
/// denotes, with the position after the escape: a plain code unit stands for
/// itself, a high surrogate must be followed by an escaped low surrogate, and
/// a lone surrogate is a failure.
pub open spec fn spec_u_escape(s: Seq<char>, i: int) -> Option<(char, int)> {
    match spec_hex4(s, i) {
        None => None,
        Some(v) => {
            if 0xD800 <= v < 0xDC00 {
                if i + 5 < s.len() && s[i + 4] == '\\' && s[i + 5] == 'u' {
                    match spec_hex4(s, i + 6) {
                        None => None,
                        Some(w) => {
                            if 0xDC00 <= w < 0xE000 {
                                Some(
                                    (
                                        ((0x10000 + (v - 0xD800) * 0x400 + (w
                                            - 0xDC00)) as u32) as char,
                                        i + 10,
                                    ),
                                )
                            } else {
                                None
                            }
                        },
                    }
                } else {
                    None
                }
            } else if 0xDC00 <= v < 0xE000 {
                None
            } else {
                Some(((v as u32) as char, i + 4))
            }
        },
    }
}

/// The text of a JSON string read from position `i`, just inside its opening
/// quote, together with the position after its closing quote. The escapes are
/// decoded; an unknown escape, a lone surrogate, an unescaped control
/// character or a missing closing quote is a failure.
pub open spec fn spec_parse_string_body(s: Seq<char>, i: int) -> Option<(Seq<char>, int)>
    decreases s.len() - i,
{
    if !(0 <= i < s.len()) {
        None
    } else if s[i] == '"' {
        Some((Seq::empty(), i + 1))
    } else if s[i] == '\\' {
        if i + 1 < s.len() {
            let e = s[i + 1];
            if e == '"' || e == '\\' || e == '/' {
                prepend_str(seq![e], spec_parse_string_body(s, i + 2))
            } else if e == 'b' {
                prepend_str(seq!['\u{8}'], spec_parse_string_body(s, i + 2))
            } else if e == 'f' {
                prepend_str(seq!['\u{c}'], spec_parse_string_body(s, i + 2))
            } else if e == 'n' {
                prepend_str(seq!['\n'], spec_parse_string_body(s, i + 2))
            } else if e == 'r' {
                prepend_str(seq!['\r'], spec_parse_string_body(s, i + 2))
            } else if e == 't' {
                prepend_str(seq!['\t'], spec_parse_string_body(s, i + 2))
            } else if e == 'u' {
                match spec_u_escape(s, i + 2) {
                    Some((u, j)) => prepend_str(seq![u], spec_parse_string_body(s, j)),
                    None => None,
                }
            } else {
                None
            }
        } else {
            None
        }
    } else if (s[i] as u32) < 32 {
        None
    } else {
        prepend_str(seq![s[i]], spec_parse_string_body(s, i + 1))
    }
}

proof fn lemma_string_body_bounds(s: Seq<char>, i: int)
    requires
        0 <= i <= s.len(),
    ensures
        spec_parse_string_body(s, i) matches Some((v, j)) ==> i < j <= s.len(),
    decreases s.len() - i,
{
    if i < s.len() && s[i] == '\\' && i + 1 < s.len() {
        lemma_string_body_bounds(s, i + 2);
        if s[i + 1] == 'u' {
            if i + 6 <= s.len() {
                lemma_string_body_bounds(s, i + 6);
            }
            if i + 12 <= s.len() {
                lemma_string_body_bounds(s, i + 12);
            }
        }
    } else if i < s.len() && s[i] != '"' && (s[i] as u32) >= 32 {
        lemma_string_body_bounds(s, i + 1);
    }
}

/// The first position at or after `i` that does not hold a digit.
pub open spec fn spec_digits_end(s: Seq<char>, i: int) -> int
    decreases s.len() - i,
{
    if 0 <= i < s.len() && is_json_digit(s[i]) {
        spec_digits_end(s, i + 1)
    } else {
        i
    }
}

proof fn lemma_digits_end_bounds(s: Seq<char>, i: int)
    requires
        0 <= i <= s.len(),
    ensures
        i <= spec_digits_end(s, i) <= s.len(),
        forall|k: int| i <= k < spec_digits_end(s, i) ==> is_json_digit(s[k]),
    decreases s.len() - i,
{
    if i < s.len() && is_json_digit(s[i]) {
        lemma_digits_end_bounds(s, i + 1);
    }
}

/// The numeric value of the digits of `s` between `i` and `j`.
pub open spec fn spec_digits_val(s: Seq<char>, i: int, j: int) -> int
    decreases j - i,
{
    if j <= i {
        0
    } else {
        spec_digits_val(s, i, j - 1) * 10 + (s[j - 1] as u32 - 48)
    }
}

proof fn lemma_digits_val_nonneg(s: Seq<char>, i: int, j: int)
    requires
        forall|k: int| i <= k < j ==> is_json_digit(s[k]),
    ensures
        spec_digits_val(s, i, j) >= 0,
    decreases j - i,
{
    if j > i {
        lemma_digits_val_nonneg(s, i, j - 1);
    }
}

proof fn lemma_digits_val_mono(s: Seq<char>, i: int, k: int, j: int)
    requires
        i <= k <= j,
        forall|m: int| i <= m < j ==> is_json_digit(s[m]),
    ensures
        spec_digits_val(s, i, j) >= spec_digits_val(s, i, k),
    decreases j - k,
{
    if j > k {
        lemma_digits_val_mono(s, i, k, j - 1);
        lemma_digits_val_nonneg(s, i, j - 1);
    }
}

/// The unsigned integer read from position `i`: at least one digit, no
/// leading zero, and a value that fits in 64 bits, together with the
/// position after the digits.
pub open spec fn spec_parse_u64(s: Seq<char>, i: int) -> Option<(u64, int)> {
    let j = spec_digits_end(s, i);
    if j == i {
        None
    } else if s[i] == '0' && j > i + 1 {
        None
    } else if spec_digits_val(s, i, j) > u64::MAX {
        None
    } else {
        Some((spec_digits_val(s, i, j) as u64, j))
    }
}

/// Whether `lit` occurs in `s` at position `i`.
pub open spec fn spec_match_lit(s: Seq<char>, i: int, lit: Seq<char>) -> bool {
    0 <= i && i + lit.len() <= s.len() && s.subrange(i, i + lit.len()) == lit
}

/// The position after a JSON number read from position `i`: an optional
/// minus, an integer part without leading zero, an optional fraction and an
/// optional exponent.
pub open spec fn spec_skip_number(s: Seq<char>, i: int) -> Option<int> {
    let i1 = if 0 <= i < s.len() && s[i] == '-' {
        i + 1
    } else {
        i
    };
    let j = spec_digits_end(s, i1);
    if j == i1 {
        None
    } else if s[i1] == '0' && j > i1 + 1 {
        None
    } else {
        let j2 = if j < s.len() && s[j] == '.' {
            spec_digits_end(s, j + 1)
        } else {
            j
        };
        if j < s.len() && s[j] == '.' && j2 == j + 1 {
            None
        } else {
            if j2 < s.len() && (s[j2] == 'e' || s[j2] == 'E') {
                let m = if j2 + 1 < s.len() && (s[j2 + 1] == '+' || s[j2 + 1] == '-') {
                    j2 + 2
                } else {
                    j2 + 1
                };
                let k = spec_digits_end(s, m);
                if k == m {
                    None
                } else {
                    Some(k)
                }
            } else {
                Some(j2)
            }
        }
    }
}

proof fn lemma_skip_number_bounds(s: Seq<char>, i: int)
    requires
        0 <= i <= s.len(),
    ensures
        spec_skip_number(s, i) matches Some(j) ==> i < j <= s.len(),
{
    let i1 = if i < s.len() && s[i] == '-' {
        i + 1
    } else {
        i
    };
    lemma_digits_end_bounds(s, i1);
    let j = spec_digits_end(s, i1);
    if j < s.len() && s[j] == '.' {
        lemma_digits_end_bounds(s, j + 1);
    }
    let j2 = if j < s.len() && s[j] == '.' {
        spec_digits_end(s, j + 1)
    } else {
        j
    };
    if i1 <= j2 <= s.len() && j2 < s.len() && (s[j2] == 'e' || s[j2] == 'E') {
        let m = if j2 + 1 < s.len() && (s[j2 + 1] == '+' || s[j2 + 1] == '-') {
            j2 + 2
        } else {
            j2 + 1
        };
        if 0 <= m <= s.len() {
            lemma_digits_end_bounds(s, m);
        }
    }
}

/// The position after a scalar JSON value read from position `i`: a string,
/// a number, or one of the three literal words.
pub open spec fn spec_skip_scalar(s: Seq<char>, i: int) -> Option<int> {
    if 0 <= i < s.len() && s[i] == '"' {
        match spec_parse_string_body(s, i + 1) {
            Some((v, j)) => Some(j),
            None => None,
        }
    } else if 0 <= i < s.len() && (s[i] == '-' || is_json_digit(s[i])) {
        spec_skip_number(s, i)
    } else if spec_match_lit(s, i, "true"@) {
        Some(i + "true"@.len())
    } else if spec_match_lit(s, i, "false"@) {
        Some(i + "false"@.len())
    } else if spec_match_lit(s, i, "null"@) {
        Some(i + "null"@.len())
    } else {
        None
    }
}

proof fn lemma_skip_scalar_bounds(s: Seq<char>, i: int)
    requires
        0 <= i <= s.len(),
    ensures
        spec_skip_scalar(s, i) matches Some(j) ==> i < j <= s.len(),
{
    if i < s.len() && s[i] == '"' {
        lemma_string_body_bounds(s, i + 1);
    } else if i < s.len() && (s[i] == '-' || is_json_digit(s[i])) {
        lemma_skip_number_bounds(s, i);
    } else {
        reveal_strlit("true");
        reveal_strlit("false");
        reveal_strlit("null");
    }
}

/// The position after the remaining comma-separated scalar elements of an
/// array, read from position `i` (at which an element must stand), to just
/// after the closing bracket.
pub open spec fn spec_skip_elements(s: Seq<char>, i: int) -> Option<int>
    decreases s.len() - i,
    via spec_skip_elements_decreases
{
    match spec_skip_scalar(s, i) {
        None => None,
        Some(w) => {
            let e = spec_skip_ws(s, w);
            if e < s.len() && s[e] == ',' {
                spec_skip_elements(s, spec_skip_ws(s, e + 1))
            } else if e < s.len() && s[e] == ']' {
                Some(e + 1)
            } else {
                None
            }
        },
    }
}

#[via_fn]
proof fn spec_skip_elements_decreases(s: Seq<char>, i: int) {
    if 0 <= i <= s.len() {
        lemma_skip_scalar_bounds(s, i);
        match spec_skip_scalar(s, i) {
            None => {},
            Some(w) => {
                lemma_skip_ws_bounds(s, w);
                let e = spec_skip_ws(s, w);
                if e < s.len() && s[e] == ',' {
                    lemma_skip_ws_bounds(s, e + 1);
                }
            },
        }
    }
}

proof fn lemma_skip_elements_bounds(s: Seq<char>, i: int)
    requires
        0 <= i <= s.len(),
    ensures
        spec_skip_elements(s, i) matches Some(j) ==> i < j <= s.len(),
    decreases s.len() - i,
{
    lemma_skip_scalar_bounds(s, i);
    match spec_skip_scalar(s, i) {
        None => {},
        Some(w) => {
            lemma_skip_ws_bounds(s, w);
            let e = spec_skip_ws(s, w);
            if e < s.len() && s[e] == ',' {
                lemma_skip_ws_bounds(s, e + 1);
                lemma_skip_elements_bounds(s, spec_skip_ws(s, e + 1));
            }
        },
    }
}

/// The position after an array of scalar values read from position `i`, at
/// its opening bracket.
pub open spec fn spec_skip_array(s: Seq<char>, i: int) -> Option<int> {
    if 0 <= i < s.len() && s[i] == '[' {
        let j = spec_skip_ws(s, i + 1);
        if j < s.len() && s[j] == ']' {
            Some(j + 1)
        } else {
            spec_skip_elements(s, j)
        }
    } else {
        None
    }
}

proof fn lemma_skip_array_bounds(s: Seq<char>, i: int)
    requires
        0 <= i <= s.len(),
    ensures
        spec_skip_array(s, i) matches Some(j) ==> i < j <= s.len(),
{
    if 0 <= i < s.len() && s[i] == '[' {
        lemma_skip_ws_bounds(s, i + 1);
        lemma_skip_elements_bounds(s, spec_skip_ws(s, i + 1));
    }
}

/// One member's value, read from position `v`, folded into the collected
/// state: the four known keys must hold their shapes and may occur once; any
/// other key's scalar value is ignored.
pub open spec fn spec_parse_member_value(
    s: Seq<char>,
    v: int,
    key: Seq<char>,
    st: FieldsState,
) -> Option<(FieldsState, int)> {
    if key == "token_type"@ {
        if st.token_type is Some {
            None
        } else if 0 <= v < s.len() && s[v] == '"' {
            match spec_parse_string_body(s, v + 1) {
                Some((val, w)) => Some((FieldsState { token_type: Some(val), ..st }, w)),
                None => None,
            }
        } else {
            None
        }
    } else if key == "expires_in"@ {
        if st.expires_in is Some {
            None
        } else {
            match spec_parse_u64(s, v) {
                Some((val, w)) => Some((FieldsState { expires_in: Some(val), ..st }, w)),
                None => None,
            }
        }
    } else if key == "ext_expires_in"@ {
        if st.ext_expires_in is Some {
            None
        } else {
            match spec_parse_u64(s, v) {
                Some((val, w)) => Some((FieldsState { ext_expires_in: Some(val), ..st }, w)),
                None => None,
            }
        }
    } else if key == "access_token"@ {
        if st.access_token is Some {
            None
        } else if 0 <= v < s.len() && s[v] == '"' {
            match spec_parse_string_body(s, v + 1) {
                Some((val, w)) => Some((FieldsState { access_token: Some(val), ..st }, w)),
                None => None,
            }
        } else {
            None
        }
    } else {
        if 0 <= v < s.len() && s[v] == '[' {
            match spec_skip_array(s, v) {
                Some(w) => Some((st, w)),
                None => None,
            }
        } else {
            match spec_skip_scalar(s, v) {
                Some(w) => Some((st, w)),
                None => None,
            }
        }
    }
}

proof fn lemma_member_value_bounds(s: Seq<char>, v: int, key: Seq<char>, st: FieldsState)
    requires
        0 <= v <= s.len(),
    ensures
        spec_parse_member_value(s, v, key, st) matches Some((st2, w)) ==> v < w <= s.len(),
{
    if v < s.len() && s[v] == '"' {
        lemma_string_body_bounds(s, v + 1);
    }
    lemma_digits_end_bounds(s, v);
    lemma_skip_scalar_bounds(s, v);
    lemma_skip_array_bounds(s, v);
}

/// The members of the response object, read from position `i` (at which a
/// key must stand) to just after the closing brace, folded into `st`.
pub open spec fn spec_parse_members(s: Seq<char>, i: int, st: FieldsState) -> Option<
    (FieldsState, int),
>
    decreases s.len() - i,
    via spec_parse_members_decreases
{
    if !(0 <= i < s.len() && s[i] == '"') {
        None
    } else {
        match spec_parse_string_body(s, i + 1) {
            None => None,
            Some((key, j)) => {
                let c = spec_skip_ws(s, j);
                if !(c < s.len() && s[c] == ':') {
                    None
                } else {
                    let v = spec_skip_ws(s, c + 1);
                    match spec_parse_member_value(s, v, key, st) {
                        None => None,
                        Some((st2, w)) => {
                            let e = spec_skip_ws(s, w);
                            if e < s.len() && s[e] == ',' {
                                spec_parse_members(s, spec_skip_ws(s, e + 1), st2)
                            } else if e < s.len() && s[e] == '}' {
                                Some((st2, e + 1))
                            } else {
                                None
                            }
                        },
                    }
                }
            },
        }
    }
}

#[via_fn]
proof fn spec_parse_members_decreases(s: Seq<char>, i: int, st: FieldsState) {
    if 0 <= i < s.len() && s[i] == '"' {
        lemma_string_body_bounds(s, i + 1);
        match spec_parse_string_body(s, i + 1) {
            None => {},
            Some((key, j)) => {
                lemma_skip_ws_bounds(s, j);
                let c = spec_skip_ws(s, j);
                if c < s.len() && s[c] == ':' {
                    lemma_skip_ws_bounds(s, c + 1);
                    let v = spec_skip_ws(s, c + 1);
                    lemma_member_value_bounds(s, v, key, st);
                    match spec_parse_member_value(s, v, key, st) {
                        None => {},
                        Some((st2, w)) => {
                            lemma_skip_ws_bounds(s, w);
                            let e = spec_skip_ws(s, w);
                            if e < s.len() && s[e] == ',' {
                                lemma_skip_ws_bounds(s, e + 1);
                            }
                        },
                    }
                }
            },
        }
    }
}

/// The empty collected state.
pub open spec fn empty_fields() -> FieldsState {
    FieldsState { token_type: None, expires_in: None, ext_expires_in: None, access_token: None }
}

/// What the whole response text decodes to: the object's four required
/// members, provided the text is one JSON object with nothing but whitespace
/// around it and every required member present exactly once.
pub open spec fn spec_parse_response(s: Seq<char>) -> Option<(Seq<char>, u64, u64, Seq<char>)> {
    let i = spec_skip_ws(s, 0);
    if !(i < s.len() && s[i] == '{') {
        None
    } else {
        let j = spec_skip_ws(s, i + 1);
        match spec_parse_members(s, j, empty_fields()) {
            None => None,
            Some((st, k)) => {
                if spec_skip_ws(s, k) != s.len() {
                    None
                } else {
                    match (st.token_type, st.expires_in, st.ext_expires_in, st.access_token) {
                        (Some(tt), Some(ei), Some(xi), Some(at)) => Some((tt, ei, xi, at)),
                        _ => None,
                    }
                }
            },
        }
    }
}

/// Whether `c` is JSON whitespace.
fn is_ws_char(c: char) -> (r: bool)
    ensures
        r == is_json_ws(c),
{
    c == ' ' || c == '\t' || c == '\n' || c == '\r'
}

/// Whether `c` is a decimal digit.
fn is_digit_char(c: char) -> (r: bool)
    ensures
        r == is_json_digit(c),
{
    let v = c as u32;
    48 <= v && v <= 57
}

/// The first position at or after `i` that does not hold whitespace.
fn skip_ws(s: &Vec<char>, i: usize) -> (r: usize)
    requires
        i <= s@.len(),
    ensures
        r as int == spec_skip_ws(s@, i as int),
        i <= r <= s@.len(),
{
    let mut r = i;
    while r < s.len() && is_ws_char(s[r])
        invariant
            i <= r <= s@.len(),
            spec_skip_ws(s@, i as int) == spec_skip_ws(s@, r as int),
        decreases s@.len() - r,
    {
        r = r + 1;
    }
    r
}

/// The first position at or after `i` that does not hold a digit.
fn digits_end(s: &Vec<char>, i: usize) -> (r: usize)
    requires
        i <= s@.len(),
    ensures
        r as int == spec_digits_end(s@, i as int),
        i <= r <= s@.len(),
        forall|k: int| i <= k < r ==> is_json_digit(s@[k]),
        r < s@.len() ==> !is_json_digit(s@[r as int]),
{
    let mut r = i;
    while r < s.len() && is_digit_char(s[r])
        invariant
            i <= r <= s@.len(),
            spec_digits_end(s@, i as int) == spec_digits_end(s@, r as int),
            forall|k: int| i <= k < r ==> is_json_digit(s@[k]),
        decreases s@.len() - r,
    {
        r = r + 1;
    }
    r
}

/// The value of a hexadecimal digit character, or 16 where it is none.
fn hex_val_char(c: char) -> (r: u32)
    ensures
        r as int == hex_char_val(c),
{
    let v = c as u32;
    if 48 <= v && v <= 57 {
        v - 48
    } else if 97 <= v && v <= 102 {
        v - 87
    } else if 65 <= v && v <= 70 {
        v - 55
    } else {
        16
    }
}

/// The value of the four hexadecimal digits at position `i`.
fn hex4_at(s: &Vec<char>, i: usize) -> (r: Option<u32>)
    requires
        i <= s@.len(),
    ensures
        r == spec_hex4(s@, i as int),
{
    if s.len() - i < 4 {
        return None;
    }
    let a = hex_val_char(s[i]);
    let b = hex_val_char(s[i + 1]);
    let c = hex_val_char(s[i + 2]);
    let d = hex_val_char(s[i + 3]);
    if a < 16 && b < 16 && c < 16 && d < 16 {
        Some(a * 4096 + b * 256 + c * 16 + d)
    } else {
        None
    }
}

/// The character a `\u` escape at position `i` (of its first hex digit)
/// denotes, with the position after the escape.
fn u_escape_at(s: &Vec<char>, i: usize) -> (r: Option<(char, usize)>)
    requires
        i <= s@.len(),
    ensures
        (match spec_u_escape(s@, i as int) {
            Some((u, j)) => r matches Some(p) && p.0 == u && p.1 as int == j && i < j
                <= s@.len(),
            None => r is None,
        }),
{
    let n = s.len();
    let v = match hex4_at(s, i) {
        Some(v) => v,
        None => {
            return None;
        },
    };
    proof {
        assert(i + 4 <= n);
    }
    if 0xD800 <= v && v < 0xDC00 {
        if !(s.len() - i > 5 && s[i + 4] == '\\' && s[i + 5] == 'u') {
            return None;
        }
        let w = match hex4_at(s, i + 6) {
            Some(w) => w,
            None => {
                return None;
            },
        };
        if !(0xDC00 <= w && w < 0xE000) {
            return None;
        }
        let code = 0x10000 + (v - 0xD800) * 0x400 + (w - 0xDC00);
        match char_from_u32(code) {
            Some(u) => Some((u, i + 10)),
            None => {
                proof {
                    assert(false);
                }
                None
            },
        }
    } else if 0xDC00 <= v && v < 0xE000 {
        None
    } else {
        match char_from_u32(v) {
            Some(u) => Some((u, i + 4)),
            None => {
                proof {
                    assert(false);
                }
                None
            },
        }
    }
}

/// The text of a JSON string read from position `i`, just inside its opening
/// quote, together with the position after its closing quote.
fn parse_string_body(s: &Vec<char>, i: usize) -> (r: Option<(Vec<char>, usize)>)
    requires
        i <= s@.len(),
    ensures
        (match spec_parse_string_body(s@, i as int) {
            Some((v, j)) => r matches Some(p) && p.0@ == v && p.1 as int == j && i < j
                <= s@.len(),
            None => r is None,
        }),
{
    proof {
        lemma_string_body_bounds(s@, i as int);
    }
    let mut out: Vec<char> = Vec::new();
    let mut cur = i;
    loop
        invariant
            i <= cur <= s@.len(),
            spec_parse_string_body(s@, i as int) == prepend_str(
                out@,
                spec_parse_string_body(s@, cur as int),
            ),
        decreases s@.len() - cur,
    {
        if cur >= s.len() {
            return None;
        }
        let c = s[cur];
        if c == '"' {
            proof {
                assert(out@ + Seq::<char>::empty() =~= out@);
            }
            return Some((out, cur + 1));
        } else if c == '\\' {
            if cur + 1 >= s.len() {
                return None;
            }
            let e = s[cur + 1];
            if e == 'u' {
                match u_escape_at(s, cur + 2) {
                    Some(p) => {
                        proof {
                            lemma_prepend_assoc(
                                out@,
                                seq![p.0],
                                spec_parse_string_body(s@, p.1 as int),
                            );
                            assert(out@ + seq![p.0] =~= out@.push(p.0));
                        }
                        out.push(p.0);
                        cur = p.1;
                    },
                    None => {
                        return None;
                    },
                }
            } else {
                let m: char;
                if e == '"' || e == '\\' || e == '/' {
                    m = e;
                } else if e == 'b' {
                    m = '\u{8}';
                } else if e == 'f' {
                    m = '\u{c}';
                } else if e == 'n' {
                    m = '\n';
                } else if e == 'r' {
                    m = '\r';
                } else if e == 't' {
                    m = '\t';
                } else {
                    return None;
                }
                proof {
                    lemma_prepend_assoc(out@, seq![m], spec_parse_string_body(s@, cur + 2));
                    assert(out@ + seq![m] =~= out@.push(m));
                }
                out.push(m);
                cur = cur + 2;
            }
        } else if (c as u32) < 32 {
            return None;
        } else {
            proof {
                lemma_prepend_assoc(out@, seq![c], spec_parse_string_body(s@, cur + 1));
                assert(out@ + seq![c] =~= out@.push(c));
            }
            out.push(c);
            cur = cur + 1;
        }
    }
}

/// The unsigned integer read from position `i`, with the position after its
/// digits.
fn parse_u64_at(s: &Vec<char>, i: usize) -> (r: Option<(u64, usize)>)
    requires
        i <= s@.len(),
    ensures
        (match spec_parse_u64(s@, i as int) {
            Some((val, j)) => r matches Some(p) && p.0 == val && p.1 as int == j && i < j
                <= s@.len(),
            None => r is None,
        }),
{
    let j = digits_end(s, i);
    if j == i {
        return None;
    }
    if s[i] == '0' && j > i + 1 {
        return None;
    }
    let mut acc: u64 = 0;
    let mut k = i;
    proof {
        lemma_digits_val_nonneg(s@, i as int, j as int);
    }
    while k < j
        invariant
            i <= k <= j <= s@.len(),
            j as int == spec_digits_end(s@, i as int),
            forall|m: int| i <= m < j ==> is_json_digit(s@[m]),
            acc == spec_digits_val(s@, i as int, k as int),
        decreases j - k,
    {
        let d = (s[k] as u32 - 48) as u64;
        proof {
            assert(is_json_digit(s@[k as int]));
        }
        if acc > (u64::MAX - d) / 10 {
            proof {
                assert(spec_digits_val(s@, i as int, k + 1) == acc * 10 + d);
                assert(acc * 10 + d > u64::MAX) by (nonlinear_arith)
                    requires
                        acc > (u64::MAX - d) / 10,
                        d <= 9,
                ;
                lemma_digits_val_mono(s@, i as int, k + 1, j as int);
            }
            return None;
        }
        proof {
            assert(acc * 10 + d <= u64::MAX) by (nonlinear_arith)
                requires
                    acc <= (u64::MAX - d) / 10,
                    d <= 9,
            ;
        }
        acc = acc * 10 + d;
        k = k + 1;
    }
    Some((acc, j))
}

/// The position after a JSON number read from position `i`.
fn skip_number_at(s: &Vec<char>, i: usize) -> (r: Option<usize>)
    requires
        i <= s@.len(),
    ensures
        (match spec_skip_number(s@, i as int) {
            Some(j) => r matches Some(rj) && rj as int == j && i < j <= s@.len(),
            None => r is None,
        }),
{
    proof {
        lemma_skip_number_bounds(s@, i as int);
    }
    let i1 = if i < s.len() && s[i] == '-' {
        i + 1
    } else {
        i
    };
    let j = digits_end(s, i1);
    if j == i1 {
        return None;
    }
    if s[i1] == '0' && j > i1 + 1 {
        return None;
    }
    let mut j2 = j;
    if j < s.len() && s[j] == '.' {
        j2 = digits_end(s, j + 1);
        if j2 == j + 1 {
            return None;
        }
    }
    if j2 < s.len() && (s[j2] == 'e' || s[j2] == 'E') {
        let m = if j2 + 1 < s.len() && (s[j2 + 1] == '+' || s[j2 + 1] == '-') {
            j2 + 2
        } else {
            j2 + 1
        };
        let k = digits_end(s, m);
        if k == m {
            return None;
        }
        return Some(k);
    }
    Some(j2)
}

/// The position after a scalar JSON value read from position `i`.
fn skip_scalar_at(s: &Vec<char>, i: usize) -> (r: Option<usize>)
    requires
        i <= s@.len(),
    ensures
        (match spec_skip_scalar(s@, i as int) {
            Some(j) => r matches Some(rj) && rj as int == j && i < j <= s@.len(),
            None => r is None,
        }),
{
    proof {
        lemma_skip_scalar_bounds(s@, i as int);
    }
    if i < s.len() && s[i] == '"' {
        match parse_string_body(s, i + 1) {
            Some(p) => Some(p.1),
            None => None,
        }
    } else if i < s.len() && (s[i] == '-' || is_digit_char(s[i])) {
        skip_number_at(s, i)
    } else {
        proof {
            reveal_strlit("true");
            reveal_strlit("false");
            reveal_strlit("null");
        }
        let t = str_to_chars("true");
        if t.len() <= s.len() - i && matches_at(s, i, &t) {
            return Some(i + 4);
        }
        let f = str_to_chars("false");
        if f.len() <= s.len() - i && matches_at(s, i, &f) {
            return Some(i + 5);
        }
        let n = str_to_chars("null");
        if n.len() <= s.len() - i && matches_at(s, i, &n) {
            return Some(i + 4);
        }
        None
    }
}

/// The position after the remaining comma-separated scalar elements of an
/// array, read from position `start`, to just after the closing bracket.
fn skip_elements_at(s: &Vec<char>, start: usize) -> (r: Option<usize>)
    requires
        start <= s@.len(),
    ensures
        (match spec_skip_elements(s@, start as int) {
            Some(j) => r matches Some(rj) && rj as int == j && start < j <= s@.len(),
            None => r is None,
        }),
{
    proof {
        lemma_skip_elements_bounds(s@, start as int);
    }
    let mut i = start;
    loop
        invariant
            start <= i <= s@.len(),
            spec_skip_elements(s@, start as int) == spec_skip_elements(s@, i as int),
        decreases s@.len() - i,
    {
        let w = match skip_scalar_at(s, i) {
            Some(w) => w,
            None => {
                return None;
            },
        };
        let e = skip_ws(s, w);
        if e < s.len() && s[e] == ',' {
            i = skip_ws(s, e + 1);
        } else if e < s.len() && s[e] == ']' {
            proof {
                assert(spec_skip_elements(s@, i as int) == Some((e + 1) as int));
                assert(start < e + 1 && e + 1 <= s@.len());
            }
            return Some(e + 1);
        } else {
            return None;
        }
    }
}

/// The position after an array of scalar values read from position `i`, at
/// its opening bracket.
fn skip_array_at(s: &Vec<char>, i: usize) -> (r: Option<usize>)
    requires
        i <= s@.len(),
    ensures
        (match spec_skip_array(s@, i as int) {
            Some(j) => r matches Some(rj) && rj as int == j && i < j <= s@.len(),
            None => r is None,
        }),
{
    proof {
        lemma_skip_array_bounds(s@, i as int);
    }
    if !(i < s.len() && s[i] == '[') {
        return None;
    }
    let j = skip_ws(s, i + 1);
    if j < s.len() && s[j] == ']' {
        return Some(j + 1);
    }
    skip_elements_at(s, j)
}

/// Whether `v` holds exactly the characters of `lit`.
fn chars_eq_str(v: &Vec<char>, lit: &str) -> (r: bool)
    ensures
        r == (v@ == lit@),
{
    let p = str_to_chars(lit);
    if v.len() != p.len() {
        proof {
            assert(v@ != lit@) by {
                if v@ == lit@ {
                    assert(v@.len() == lit@.len());
                }
            }
        }
        return false;
    }
    let r = matches_at(v, 0, &p);
    proof {
        assert(v@.subrange(0, p@.len() as int) =~= v@);
    }
    r
}

/// The view of the collected members.
pub open spec fn st_of(
    tt: Option<String>,
    ei: Option<u64>,
    xi: Option<u64>,
    at: Option<String>,
) -> FieldsState {
    FieldsState {
        token_type: match tt {
            Some(s) => Some(s@),
            None => None,
        },
        expires_in: ei,
        ext_expires_in: xi,
        access_token: match at {
            Some(s) => Some(s@),
            None => None,
        },
    }
}

/// The members of the response object, read from position `i` to just after
/// the closing brace.
fn parse_members(s: &Vec<char>, start: usize) -> (r: Option<
    (Option<String>, Option<u64>, Option<u64>, Option<String>, usize),
>)
    requires
        start <= s@.len(),
    ensures
        (match spec_parse_members(s@, start as int, empty_fields()) {
            Some((st, k)) => r matches Some(p) && st_of(p.0, p.1, p.2, p.3) == st && p.4 as int
                == k && p.4 <= s@.len(),
            None => r is None,
        }),
{
    let mut tt: Option<String> = None;
    let mut ei: Option<u64> = None;
    let mut xi: Option<u64> = None;
    let mut at: Option<String> = None;
    let mut i = start;
    loop
        invariant
            i <= s@.len(),
            spec_parse_members(s@, start as int, empty_fields()) == spec_parse_members(
                s@,
                i as int,
                st_of(tt, ei, xi, at),
            ),
        decreases s@.len() - i,
    {
        let ghost st = st_of(tt, ei, xi, at);
        if !(i < s.len() && s[i] == '"') {
            return None;
        }
        proof {
            lemma_string_body_bounds(s@, i + 1);
        }
        let key = match parse_string_body(s, i + 1) {
            Some(p) => p,
            None => {
                return None;
            },
        };
        let j = key.1;
        let c = skip_ws(s, j);
        if !(c < s.len() && s[c] == ':') {
            return None;
        }
        let v = skip_ws(s, c + 1);
        proof {
            lemma_member_value_bounds(s@, v as int, key.0@, st);
        }
        // parse the member's value into the collected state
        let w: usize;
        if chars_eq_str(&key.0, "token_type") {
            if tt.is_some() {
                return None;
            }
            if !(v < s.len() && s[v] == '"') {
                return None;
            }
            match parse_string_body(s, v + 1) {
                Some(p) => {
                    tt = Some(chars_to_string(&p.0));
                    w = p.1;
                },
                None => {
                    return None;
                },
            }
        } else if chars_eq_str(&key.0, "expires_in") {
            if ei.is_some() {
                return None;
            }
            match parse_u64_at(s, v) {
                Some(p) => {
                    ei = Some(p.0);
                    w = p.1;
                },
                None => {
                    return None;
                },
            }
        } else if chars_eq_str(&key.0, "ext_expires_in") {
            if xi.is_some() {
                return None;
            }
            match parse_u64_at(s, v) {
                Some(p) => {
                    xi = Some(p.0);
                    w = p.1;
                },
                None => {
                    return None;
                },
            }
        } else if chars_eq_str(&key.0, "access_token") {
            if at.is_some() {
                return None;
            }
            if !(v < s.len() && s[v] == '"') {
                return None;
            }
            match parse_string_body(s, v + 1) {
                Some(p) => {
                    at = Some(chars_to_string(&p.0));
                    w = p.1;
                },
                None => {
                    return None;
                },
            }
        } else if v < s.len() && s[v] == '[' {
            match skip_array_at(s, v) {
                Some(j2) => {
                    w = j2;
                },
                None => {
                    return None;
                },
            }
        } else {
            match skip_scalar_at(s, v) {
                Some(j2) => {
                    w = j2;
                },
                None => {
                    return None;
                },
            }
        }
        proof {
            assert(spec_parse_member_value(s@, v as int, key.0@, st) == Some(
                (st_of(tt, ei, xi, at), w as int),
            ));
        }
        let e = skip_ws(s, w);
        if e < s.len() && s[e] == ',' {
            i = skip_ws(s, e + 1);
        } else if e < s.len() && s[e] == '}' {
            return Some((tt, ei, xi, at, e + 1));
        } else {
            return None;
        }
    }
}

/// Decodes the token endpoint's response body. Exactly the bodies the
/// response grammar accepts yield `Ok`; every other body yields a
/// `ResponseDecodeError` that carries the body text verbatim.
pub fn parse_token_response(body: &str) -> (r: Result<AccessTokenResponse, TokenError>)
    ensures
        r is Ok <==> spec_parse_response(body@) is Some,
        r matches Ok(t) ==> spec_parse_response(body@) == Some(
            (t.token_type@, t.expires_in, t.ext_expires_in, t.access_token@),
        ),
        r matches Err(e) ==> e matches TokenError::ResponseDecodeError { cause: _, body: b }
            && b@ == body@,
{
    let s = str_to_chars(body);
    let parsed = parse_response_chars(&s);
    match parsed {
        Some(t) => Ok(t),
        None => Err(
            TokenError::ResponseDecodeError {
                cause: "the body is not an access-token response object".to_owned(),
                body: body.to_owned(),
            },
        ),
    }
}

/// Decodes the response text given as characters.
fn parse_response_chars(s: &Vec<char>) -> (r: Option<AccessTokenResponse>)
    ensures
        (match spec_parse_response(s@) {
            Some((tt, ei, xi, at)) => r matches Some(t) && t.token_type@ == tt && t.expires_in
                == ei && t.ext_expires_in == xi && t.access_token@ == at,
            None => r is None,
        }),
{
    let i = skip_ws(s, 0);
    if !(i < s.len() && s[i] == '{') {
        return None;
    }
    let j = skip_ws(s, i + 1);
    let m = match parse_members(s, j) {
        Some(p) => p,
        None => {
            return None;
        },
    };
    let k = m.4;
    if skip_ws(s, k) != s.len() {
        return None;
    }
    match (m.0, m.1, m.2, m.3) {
        (Some(tt), Some(ei), Some(xi), Some(at)) => Some(
            AccessTokenResponse {
                token_type: tt,
                expires_in: ei,
                ext_expires_in: xi,
                access_token: at,
            },
        ),
        _ => None,
    }
}

} // verus!
