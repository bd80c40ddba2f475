//! The canonical spelling of a declared name.

use vstd::prelude::*;
use convert_case::Case;
use convert_case::Casing;

verus! {

/// The kebab-case spelling of a text: what `convert_case` makes of it. The
/// words of the text are set in lower case and joined by hyphens.
pub uninterp spec fn kebab_case(text: Seq<char>) -> Seq<char>;

/// `Casing::to_case` of `convert_case`, called with `Case::Kebab`. The result
/// depends on the text alone; nothing more is claimed of it than that it is
/// the kebab-case spelling.
#[verifier::external_body]
pub(crate) fn to_kebab(text: &str) -> (kebab: String)
    ensures
        kebab@ == kebab_case(text@),
{
    text.to_case(Case::Kebab)
}

} // verus!
