use vstd::prelude::*;

verus! {

/// What `format!("{:#5}", value)` writes: the number in decimal, filled up
/// with blanks on the left to five signs.
pub uninterp spec fn padded_number(value: i64) -> Seq<char>;

/// Formats a number with `format!("{:#5}", ..)`.
///
/// Claimed of it: the text depends on the number alone.
#[verifier::external_body]
pub(crate) fn number_text(value: i64) -> (text: String)
    ensures
        text@ == padded_number(value),
{
    format!("{:#5}", value)
}

/// Calls `String::push`. Claimed of it: the sign is added at the end.
#[verifier::external_body]
pub(crate) fn push_char(text: &mut String, sign: char)
    ensures
        final(text)@ == old(text)@.push(sign),
{
    text.push(sign)
}

/// Calls `String::push_str`. Claimed of it: the other text is added at the end.
#[verifier::external_body]
pub(crate) fn push_text(text: &mut String, more: &str)
    ensures
        final(text)@ == old(text)@ + more@,
{
    text.push_str(more)
}

} // verus!
