//! The changelog of a deck.
use vstd::prelude::*;

use crate::outside;

verus! {

/// What is stored of a message of the changelog.
pub fn insert_new_changelog(message: &str) -> (r: String)
    ensures
        r@ == outside::sanitized_html(message@),
{
    outside::sanitize_html(message)
}

} // verus!
