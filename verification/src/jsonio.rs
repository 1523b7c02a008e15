//! Decoding an embedded payload, through the `json` crate.

use vstd::prelude::*;
use crate::value::Value;

verus! {

/// What `json::parse` yields for a given text, rebuilt as a `Value`:
/// `None` when the text is not well-formed.  The parse is a function of
/// the text alone.
pub uninterp spec fn json_decoded(s: Seq<char>) -> Option<Value>;

/// The rendering of the error `json::parse` refuses a text with; a
/// function of the text alone.
pub uninterp spec fn json_err_text(s: Seq<char>) -> Seq<char>;

#[verifier::external_type_specification]
#[verifier::external_body]
pub struct ExJsonValue(json::JsonValue);

#[verifier::external_type_specification]
#[verifier::external_body]
pub struct ExJsonNumber(json::number::Number);

/// Serves `value_from` alone: the integer a parsed number denotes, read
/// from `json::number::Number::as_parts` by a checked fit into `i64` —
/// `Some` exactly when the number is integral and its value fits.  (The
/// crate's own `as_i64` negates the magnitude unchecked, which overflows
/// on the smallest `i64`.)  Nothing is claimed of the result.
#[verifier::external_body]
fn int_of_number(n: &json::number::Number) -> Option<i64> {
    let (positive, mantissa, exponent) = n.as_parts();
    if exponent != 0 {
        None
    } else if positive {
        i64::try_from(mantissa).ok()
    } else if mantissa <= 9223372036854775808u64 {
        Some((mantissa as i64).wrapping_neg())
    } else {
        None
    }
}

/// Serves the body of `decode_payload` alone: rebuilds the tree that
/// `json::parse` produced as a `Value`, variant for variant, a number
/// keeping both its integer reading (see `int_of_number`) and its
/// printed text.  Nothing is claimed of the result; `decode_payload`'s
/// own contract covers it.
#[verifier::external_body]
fn value_from(j: &json::JsonValue) -> Value {
    match j {
        json::JsonValue::Null => Value::Null,
        json::JsonValue::Boolean(b) => Value::Bool(*b),
        json::JsonValue::Number(n) => Value::Num {
            int_val: int_of_number(n),
            text: n.to_string(),
        },
        json::JsonValue::Short(t) => Value::Str(t.as_str().to_string()),
        json::JsonValue::String(t) => Value::Str(t.clone()),
        json::JsonValue::Array(a) => Value::Arr(a.iter().map(value_from).collect()),
        json::JsonValue::Object(o) => Value::Obj(
            o.iter().map(|(k, v)| (k.to_string(), value_from(v))).collect(),
        ),
    }
}

/// Relies on `json::parse`: whether a text parses, the tree it parses to,
/// and the message it is refused with depend on the text alone.  The
/// message is `json::Error`'s rendering; the tree comes back rebuilt as a
/// `Value` by `value_from`.
#[verifier::external_body]
pub(crate) fn decode_payload(s: &str) -> (r: Result<Value, String>)
    ensures
        (r is Ok) == (json_decoded(s@) is Some),
        r matches Ok(v) ==> json_decoded(s@) == Some(v),
        r matches Err(m) ==> m@ == json_err_text(s@),
{
    match json::parse(s) {
        Ok(j) => Ok(value_from(&j)),
        Err(e) => Err(e.to_string()),
    }
}

} // verus!
