use vstd::prelude::*;
use crate::value::{Val, ValS};

verus! {

/// One character of decimal text.
pub open spec fn is_dig(c: char) -> bool {
    '0' as int <= c as int && c as int <= '9' as int
}

pub open spec fn strip_minus(s: Seq<char>) -> Seq<char> {
    if s.len() > 0 && s[0] == '-' {
        s.drop_first()
    } else {
        s
    }
}

/// Whether `s` opens like a decimal fraction: an optional minus, one or more
/// digits, then a literal dot.
pub open spec fn spec_float_prefix(s: Seq<char>) -> bool {
    let t = strip_minus(s);
    exists|k: int|
        1 <= k < t.len() && (#[trigger] t[k]) == '.' && (forall|i: int| 0 <= i < k ==> is_dig(#[trigger] t[i]))
}

/// Whether `s` opens like a number: an optional minus, then a digit or a dot.
pub open spec fn spec_numeric_start(s: Seq<char>) -> bool {
    let t = strip_minus(s);
    t.len() > 0 && (is_dig(t[0]) || t[0] == '.')
}

/// Value of a run of decimal digits.
pub open spec fn digs_val(s: Seq<char>) -> int
    decreases s.len(),
{
    if s.len() == 0 {
        0
    } else {
        digs_val(s.drop_last()) * 10 + (s.last() as int - '0' as int)
    }
}

pub open spec fn all_digs(s: Seq<char>) -> bool {
    s.len() > 0 && (forall|i: int| 0 <= i < s.len() ==> is_dig(#[trigger] s[i]))
}

/// Exactly which strings `str::parse::<i64>` accepts, and the value it
/// yields: an optional sign, then one or more decimal digits, rejecting
/// anything else and values outside `i64`'s range.
pub open spec fn spec_parse_i64(s: Seq<char>) -> Option<i64> {
    let neg = s.len() > 0 && s[0] == '-';
    let t = if s.len() > 0 && (s[0] == '-' || s[0] == '+') {
        s.drop_first()
    } else {
        s
    };
    if all_digs(t) {
        if neg {
            if -digs_val(t) >= i64::MIN {
                Some((-digs_val(t)) as i64)
            } else {
                None
            }
        } else {
            if digs_val(t) <= i64::MAX {
                Some(digs_val(t) as i64)
            } else {
                None
            }
        }
    } else {
        None
    }
}

/// Lexicographic order on character sequences, by character value. For UTF-8
/// text this coincides with byte-wise lexicographic order on the encoding.
pub open spec fn lex_lt(a: Seq<char>, b: Seq<char>) -> bool
    decreases a.len(),
{
    if b.len() == 0 {
        false
    } else if a.len() == 0 {
        true
    } else if (a[0] as int) < (b[0] as int) {
        true
    } else if (a[0] as int) > (b[0] as int) {
        false
    } else {
        lex_lt(a.drop_first(), b.drop_first())
    }
}

/// What decoding a float-looking string yields: `None` when the text does not
/// parse as a float; otherwise the resolved value (the number's canonical
/// text, or null when the parse is not finite).
pub uninterp spec fn float_decode_of(s: Seq<char>) -> Option<ValS>;

/// Relies on regex::Regex::is_match with the fixed pattern `^-?[0-9]+\.`: an
/// optional leading minus, one or more ASCII digits, then a literal dot.
#[verifier::external_body]
pub(crate) fn float_pattern_matches(s: &str) -> (r: bool)
    ensures
        r == spec_float_prefix(s@),
{
    regex::Regex::new(r"^-?[0-9]+\.").unwrap().is_match(s)
}

/// Relies on regex::Regex::is_match with the fixed pattern `^-?[0-9\.]`: an
/// optional leading minus, then one character that is a digit or a dot.
#[verifier::external_body]
pub(crate) fn numeric_start_matches(s: &str) -> (r: bool)
    ensures
        r == spec_numeric_start(s@),
{
    regex::Regex::new(r"^-?[0-9\.]").unwrap().is_match(s)
}

/// Relies on str::parse::<i64>: an optional sign followed by decimal digits,
/// rejecting empty or non-digit text and values outside `i64`'s range.
#[verifier::external_body]
pub(crate) fn parse_i64_str(s: &str) -> (r: Option<i64>)
    ensures
        r == spec_parse_i64(s@),
{
    s.parse::<i64>().ok()
}

/// Relies on str::parse::<f64> and serde_json's canonical number rendering:
/// both depend on the characters alone. A finite parse yields the number's
/// canonical text; a non-finite parse yields null, as serde_json's number
/// conversion does.
#[verifier::external_body]
pub(crate) fn parse_float_value(s: &str) -> (r: Option<Val>)
    ensures
        (match r {
            Some(v) => float_decode_of(s@) == Some(v@) && (v@ is Num || v@ is Null),
            None => float_decode_of(s@) is None,
        }),
{
    match s.parse() {
        Ok(f) => match serde_json::Number::from_f64(f) {
            Some(n) => Some(Val::Num(serde_json::Value::Number(n).to_string())),
            None => Some(Val::Null),
        },
        Err(_) => None,
    }
}

/// Relies on str's Ord implementation: byte-wise lexicographic order, which
/// on UTF-8 text coincides with lexicographic order by character value.
#[verifier::external_body]
pub(crate) fn str_lt(a: &str, b: &str) -> (r: bool)
    ensures
        r == lex_lt(a@, b@),
{
    a < b
}

} // verus!
