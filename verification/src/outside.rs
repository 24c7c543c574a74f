use vstd::prelude::*;

use crate::value::Number;
use crate::value::NumberV;
use crate::value::is_float_text;
use crate::value::num_wf;

verus! {

/// What approx's relative comparison answers for two numbers and an epsilon
/// text, all read as doubles: the name for the outcome of
/// `relative_eq_numbers` below.
pub uninterp spec fn approx_num_eq_of(s: NumberV, t: NumberV, eps: Seq<char>) -> bool;

/// Approximate equality of two numbers under an epsilon text. Two identical
/// well-formed numbers compare equal outright, whatever the epsilon: approx's
/// relative comparison returns true as soon as the two doubles are equal, and
/// identical numbers read as the same double, which a well-formed text keeps
/// from being a NaN. Every other outcome goes by its name alone.
pub open spec fn approx_num_eq(s: NumberV, t: NumberV, eps: Seq<char>) -> bool {
    if s == t && num_wf(s) && is_float_text(eps) {
        true
    } else {
        approx_num_eq_of(s, t, eps)
    }
}

/// Relies on approx's relative equality for doubles —
/// `Relative::default().epsilon(..).eq(..)`, the expansion of `relative_eq!`
/// with an explicit epsilon — after the two numbers and the epsilon text are
/// read as doubles: integers through serde_json::Number::as_f64, decimal
/// texts through str::parse. approx returns true outright when the two
/// doubles are equal, which is the stated outcome for identical well-formed
/// arguments.
#[verifier::external_body]
pub(crate) fn relative_eq_numbers(s: &Number, t: &Number, eps: &str) -> (r: bool)
    ensures
        r == approx_num_eq_of(s.deep_view(), t.deep_view(), eps@),
        s.deep_view() == t.deep_view() && num_wf(s.deep_view()) && is_float_text(eps@) ==> r,
{
    let f = |n: &Number| match n {
        Number::UInt(v) => serde_json::Number::from(*v).as_f64(),
        Number::Int(v) => serde_json::Number::from(*v).as_f64(),
        Number::Float(txt) => txt.as_str().parse().ok(),
    };
    match (f(s), f(t), eps.parse().ok()) {
        (Some(x), Some(y), Some(e)) => approx::Relative::default().epsilon(e).eq(&x, &y),
        _ => false,
    }
}

/// What chrono reads from an RFC 3339 timestamp text: the seconds since the
/// Unix epoch and the subsecond nanoseconds of the instant the text denotes,
/// or nothing when the text does not parse. The name for the outcome of
/// `parse_rfc3339` below.
pub uninterp spec fn rfc3339_of(s: Seq<char>) -> Option<(i64, u32)>;

/// Relies on chrono's DateTime::parse_from_rfc3339 to read a timestamp text,
/// and on DateTime::timestamp and DateTime::timestamp_subsec_nanos to turn
/// the parsed instant into plain values.
#[verifier::external_body]
pub(crate) fn parse_rfc3339(s: &str) -> (r: Option<(i64, u32)>)
    ensures
        r == rfc3339_of(s@),
{
    match chrono::DateTime::parse_from_rfc3339(s) {
        Ok(dt) => Some((dt.timestamp(), dt.timestamp_subsec_nanos())),
        Err(_) => None,
    }
}

/// Whether a character counts as alphanumeric in Unicode: the name for the
/// outcome of `is_alphanumeric_char` below.
pub uninterp spec fn unicode_alphanumeric(c: char) -> bool;

/// Relies on char::is_alphanumeric of std, which vstd gives no
/// specification.
#[verifier::external_body]
pub(crate) fn is_alphanumeric_char(c: char) -> (r: bool)
    ensures
        r == unicode_alphanumeric(c),
{
    c.is_alphanumeric()
}

} // verus!
