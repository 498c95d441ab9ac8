//! Small helpers on text.

use vstd::prelude::*;
use vstd::string::StringExecFns;

verus! {

/// What `str::trim` of the standard library returns on `text`: `text`
/// without its leading and trailing white space.
pub uninterp spec fn trimmed(text: Seq<char>) -> Seq<char>;

/// What `str::to_lowercase` of the standard library returns on `text`: each
/// character replaced by its lower-case form.
pub uninterp spec fn lowercased(text: Seq<char>) -> Seq<char>;

/// The form under which a configured name is looked up: trimmed, then in
/// lower case.
pub open spec fn normal_form(text: Seq<char>) -> Seq<char> {
    lowercased(trimmed(text))
}

/// `str::trim` of the standard library.
#[verifier::external_body]
fn trim(text: &str) -> (r: String)
    ensures
        r@ == trimmed(text@),
{
    text.trim().to_string()
}

/// `str::to_lowercase` of the standard library.
#[verifier::external_body]
fn to_lowercase(text: &str) -> (r: String)
    ensures
        r@ == lowercased(text@),
{
    text.to_lowercase()
}

/// `text` trimmed and in lower case.
pub fn normalize(text: &str) -> (r: String)
    ensures
        r@ == normal_form(text@),
{
    let inner = trim(text);
    to_lowercase(inner.as_str())
}

/// Whether `text` is exactly `word`.
pub fn is_word(text: &str, word: &str) -> (r: bool)
    ensures
        r == (text@ == word@),
{
    let a = String::from_str(text);
    let b = String::from_str(word);
    a == b
}

/// Whether `text` has no character at all.
pub fn is_blank(text: &str) -> (r: bool)
    ensures
        r == (text@.len() == 0),
{
    text.is_empty()
}

} // verus!
