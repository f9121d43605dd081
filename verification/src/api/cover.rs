//! Cover art

use vstd::prelude::*;

verus! {

/// Which cover is asked for: a thumbnail or the full size
pub struct CoverQuery {
    pub size: String,
}

/// The size that is served where none is asked for.
pub fn default_size() -> (r: String)
    ensures
        r@ == "thumb"@,
{
    "thumb".to_owned()
}

} // verus!
