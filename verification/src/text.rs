//! Letter case, as the standard library folds it.

use vstd::prelude::*;

verus! {

/// The lower case form of a text.
pub uninterp spec fn lower_case(text: Seq<char>) -> Seq<char>;

/// The lower case form of an ASCII character.
pub open spec fn ascii_lower_case(c: char) -> char {
    if 'A' <= c && c <= 'Z' {
        (c as int + 32) as char
    } else {
        c
    }
}

/// `str::to_lowercase`: the lower case form of the text by the rules of Unicode.
/// Of a text that is all ASCII, it is the text with each of the letters `A` to
/// `Z` replaced by its small form.
#[verifier::external_body]
pub(crate) fn to_lower_case(text: &str) -> (lower: String)
    ensures
        lower@ == lower_case(text@),
        (forall|i: int| 0 <= i < text@.len() ==> #[trigger] text@[i] as int <= 127) ==> lower@
            == Seq::new(text@.len(), |i: int| ascii_lower_case(text@[i])),
{
    text.to_lowercase()
}

} // verus!
