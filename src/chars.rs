use vstd::prelude::*;

verus! {

/// Whether `c` has the Unicode `White_Space` property.
pub uninterp spec fn is_whitespace_char(c: char) -> bool;

/// Whether `c` has the Unicode `Alphabetic` property.
pub uninterp spec fn is_alphabetic_char(c: char) -> bool;

/// Relies on `char::is_whitespace`: a function of the character alone.
#[verifier::external_body]
pub(crate) fn char_is_whitespace(c: char) -> (r: bool)
    ensures
        r == is_whitespace_char(c),
{
    c.is_whitespace()
}

/// Relies on `char::is_alphabetic`: a function of the character alone.
#[verifier::external_body]
pub(crate) fn char_is_alphabetic(c: char) -> (r: bool)
    ensures
        r == is_alphabetic_char(c),
{
    c.is_alphabetic()
}

/// Rule for the value of an `id` attribute: not empty, no whitespace, and at
/// least one alphabetic character anywhere.
pub open spec fn valid_id_value(v: Seq<char>) -> bool {
    &&& v.len() > 0
    &&& forall|i: int| 0 <= i < v.len() ==> !is_whitespace_char(#[trigger] v[i])
    &&& exists|i: int| 0 <= i < v.len() && is_alphabetic_char(#[trigger] v[i])
}

/// Checks `value` against the rule for `id` attribute values.
pub fn validate_id_value(value: &str) -> (r: bool)
    ensures
        r == valid_id_value(value@),
{
    let n = value.unicode_len();
    let mut i: usize = 0;
    let mut alpha = false;
    while i < n
        invariant
            n == value@.len(),
            i <= n,
            forall|j: int| 0 <= j < i ==> !is_whitespace_char(#[trigger] value@[j]),
            alpha == exists|j: int| 0 <= j < i && is_alphabetic_char(#[trigger] value@[j]),
        decreases n - i,
    {
        let c = value.get_char(i);
        if char_is_whitespace(c) {
            return false;
        }
        if char_is_alphabetic(c) {
            alpha = true;
        }
        i = i + 1;
    }
    n > 0 && alpha
}

} // verus!
