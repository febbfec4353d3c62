//! Types that several parts share.

use vstd::prelude::*;

verus! {

/// A tag of an nhentai gallery: its kind and its name.
#[derive(Debug, Clone)]
pub struct NhTag {
    pub tag_type: String,
    pub name: String,
}

} // verus!
