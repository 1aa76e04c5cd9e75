//! Which header of a file holds a requested layer.
use vstd::prelude::*;
use crate::text::{chars_eq_ignore_case, eq_ignore_case, str_chars, str_eq};

verus! {

/// A header with layer name `header_name` holds the layer `target`: the
/// names are equal ignoring ASCII case, and "Beauty" is also held by a
/// header without a layer name or with an empty one.
pub open spec fn header_holds_layer(target: Seq<char>, header_name: Option<Seq<char>>) -> bool {
    match header_name {
        None => target == "Beauty"@,
        Some(h) => (target == "Beauty"@ && h.len() == 0) || eq_ignore_case(target, h),
    }
}

/// Whether the header with layer name `header_name` holds the layer
/// `target`.
pub fn layer_matches(target: &str, header_name: Option<&str>) -> (r: bool)
    ensures
        r == header_holds_layer(target@, match header_name {
            Some(h) => Some(h@),
            None => None,
        }),
{
    let beauty = str_eq(target, "Beauty");
    match header_name {
        None => beauty,
        Some(h) => {
            let hc = str_chars(h);
            if beauty && hc.len() == 0 {
                return true;
            }
            let tc = str_chars(target);
            chars_eq_ignore_case(tc.as_slice(), hc.as_slice())
        },
    }
}

} // verus!
