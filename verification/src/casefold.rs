//! Lower-casing through the standard library, and filter normalization.

use crate::text::{trim_dots, trim_leading_dots, lemma_trim_dots_drops_leading_dot};
use vstd::prelude::*;

verus! {

/// The characters that `str::to_lowercase` returns for `s`. The result is a
/// function of the characters alone; nothing further is assumed of it.
pub uninterp spec fn lower_of(s: Seq<char>) -> Seq<char>;

/// Relies on str::to_lowercase: the result depends only on the characters of
/// the input, and an empty string stays empty.
#[verifier::external_body]
pub(crate) fn lowercase(s: &str) -> (r: String)
    ensures
        r@ == lower_of(s@),
        s@.len() == 0 ==> r@.len() == 0,
{
    s.to_lowercase()
}

/// The normalized form of a raw filter string: leading dots stripped, then
/// lower-cased.
pub open spec fn normalize_spec(raw: Seq<char>) -> Seq<char> {
    lower_of(trim_dots(raw))
}

/// The normalized form of the raw extension filter, as supplied on the
/// command line: with or without leading dots, in any case.
pub fn normalize_filter(raw: &str) -> (r: String)
    ensures
        r@ == normalize_spec(raw@),
{
    lowercase(trim_leading_dots(raw))
}

/// A filter supplied with a leading dot normalizes exactly as one supplied
/// without it.
pub proof fn lemma_leading_dot_ignored(raw: Seq<char>)
    ensures
        normalize_spec(seq!['.'] + raw) == normalize_spec(raw),
{
    lemma_trim_dots_drops_leading_dot(raw);
}

} // verus!
