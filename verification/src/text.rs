//! Lower-casing of text, as gauge names need it for units.

use vstd::prelude::*;
use vstd::utf8::is_ascii_chars;

verus! {

/// The lower-case counterpart of an ASCII upper-case letter; any other
/// character is left as it is.
pub open spec fn ascii_lower(c: char) -> char {
    if 'A' <= c && c <= 'Z' {
        ((c as u8) + 32) as char
    } else {
        c
    }
}

/// A string with each of its characters replaced by [`ascii_lower`] of it.
pub open spec fn ascii_lowered(s: Seq<char>) -> Seq<char> {
    s.map_values(|c: char| ascii_lower(c))
}

/// What the standard library's `str::to_lowercase` returns for a string: its
/// lower-case form by the Unicode rules.
pub uninterp spec fn unicode_lowercased(s: Seq<char>) -> Seq<char>;

/// The lower-case form of a string. For a string of ASCII characters this is
/// spelled out: the letters `A` to `Z` become `a` to `z` and nothing else
/// changes. For any other string it is what the Unicode rules give.
pub open spec fn lowercased(s: Seq<char>) -> Seq<char> {
    if is_ascii_chars(s) {
        ascii_lowered(s)
    } else {
        unicode_lowercased(s)
    }
}

/// Trusted: calls `str::to_lowercase` of the standard library.
///
/// The contract claims that the call returns the Unicode lower-case form of
/// `s`, and that on a string made of ASCII characters alone this form is the
/// string with its letters `A` to `Z` replaced by `a` to `z`.
#[verifier::external_body]
fn std_to_lowercase(s: &str) -> (r: String)
    ensures
        r@ == unicode_lowercased(s@),
        is_ascii_chars(s@) ==> r@ == ascii_lowered(s@),
{
    s.to_lowercase()
}

/// Lower-cases a string.
pub fn lowercase(s: &str) -> (r: String)
    ensures
        r@ == lowercased(s@),
{
    std_to_lowercase(s)
}

/// Lower-casing keeps the length of an ASCII string and leaves no ASCII
/// upper-case letter in it.
pub proof fn lemma_lowercased_ascii(s: Seq<char>)
    requires
        is_ascii_chars(s),
    ensures
        lowercased(s).len() == s.len(),
        forall|i: int| 0 <= i < s.len() ==> lowercased(s)[i] == ascii_lower(s[i]),
        forall|i: int|
            0 <= i < s.len() ==> !('A' <= #[trigger] lowercased(s)[i] && lowercased(s)[i] <= 'Z'),
{
    assert forall|i: int| 0 <= i < s.len() implies !('A' <= #[trigger] lowercased(s)[i]
        && lowercased(s)[i] <= 'Z') by {
        assert(lowercased(s)[i] == ascii_lower(s[i]));
    }
}

} // verus!
