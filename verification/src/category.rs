//! The Unicode general category of a character, which decides whether a printable-looking
//! character is shown as it is.

use unicode_general_category::get_general_category;
use vstd::prelude::*;

verus! {

/// The two-letter abbreviation of the general category that the `unicode-general-category` tables
/// assign to `c` (`Lu`, `Cc`, `Zs`, ...).
pub uninterp spec fn unicode_category(c: char) -> Seq<char>;

/// `unicode_general_category::get_general_category`, its result carried over by the crate's own
/// one-for-one `GeneralCategory::abbreviation`. The contract claims that the result is the fixed
/// table lookup named `unicode_category`, applied to `c`, and that it is two letters long, as every
/// abbreviation the crate returns is; the tables themselves (Unicode 16.0.0 in the version used)
/// are not written out.
#[verifier::external_body]
pub(crate) fn category(c: char) -> (r: &'static str)
    ensures
        r@ == unicode_category(c),
        r@.len() == 2,
{
    get_general_category(c).abbreviation()
}

} // verus!
