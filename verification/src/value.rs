//! Run-time values as the interpreters see them, and their text.
use crate::money::{Amount, decimal_text};
use vstd::prelude::*;
use vstd::string::*;

verus! {

/// A run-time value: an amount of a currency, or a truth value.
pub enum Value {
    Money { amount: Amount, currency: Seq<char> },
    Boolean(bool),
}

/// The text of a truth value.
pub open spec fn bool_text(b: bool) -> Seq<char> {
    if b {
        "true"@
    } else {
        "false"@
    }
}

/// How a value is shown in a memory report: `amount currency`, or `true` / `false`.
pub open spec fn value_text(v: Value) -> Seq<char> {
    match v {
        Value::Money { amount, currency } => decimal_text(amount) + " "@ + currency,
        Value::Boolean(b) => bool_text(b),
    }
}

/// What `str`'s `Debug` writes for a string: the string quoted, with its
/// special characters escaped.
pub uninterp spec fn debug_text(s: Seq<char>) -> Seq<char>;

/// Calls `str`'s `Debug` (through `format!("{:?}", ..)`). Claims that the text
/// is the named `debug_text`, and that a string of ASCII letters, digits and
/// underscores is written between double quotes unchanged.
#[verifier::external_body]
pub(crate) fn debug_string(s: &str) -> (r: String)
    ensures
        r@ == debug_text(s@),
        (forall|i: int| 0 <= i < s@.len() ==> plain_char(#[trigger] s@[i])) ==> r@ == seq!['"'] + s@
            + seq!['"'],
{
    format!("{:?}", s)
}

/// A character that `Debug` writes as itself.
pub open spec fn plain_char(c: char) -> bool {
    ('a' <= c && c <= 'z') || ('A' <= c && c <= 'Z') || ('0' <= c && c <= '9') || c == '_'
}

/// The text of a truth value.
pub fn bool_to_text(b: bool) -> (r: String)
    ensures
        r@ == bool_text(b),
{
    if b {
        String::from_str("true")
    } else {
        String::from_str("false")
    }
}

} // verus!
