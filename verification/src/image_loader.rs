use vstd::prelude::*;

use crate::text::str_starts_with;

verus! {

/// Whether an image URI uses the `raw-bytes://` scheme this loader serves.
pub fn is_supported_uri(uri: &str) -> (r: bool)
    ensures
        r == "raw-bytes://"@.is_prefix_of(uri@),
{
    str_starts_with(uri, "raw-bytes://")
}

} // verus!
