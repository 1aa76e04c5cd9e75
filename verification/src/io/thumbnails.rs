//! Which files of a folder get thumbnails.
use vstd::prelude::*;
use crate::text::{chars_eq_ignore_case, eq_ignore_case, str_chars};

verus! {

/// The extension marks an image the viewer opens: "exr" or "hdr" in any
/// ASCII case.
pub open spec fn is_image_extension(ext: Seq<char>) -> bool {
    eq_ignore_case(ext, "exr"@) || eq_ignore_case(ext, "hdr"@)
}

/// Whether a file with extension `ext` (none when the file has no
/// extension that is valid Unicode) gets a thumbnail.
pub fn has_image_extension(ext: Option<&str>) -> (r: bool)
    ensures
        r == (ext matches Some(e) && is_image_extension(e@)),
{
    match ext {
        Some(e) => {
            let cs = str_chars(e);
            let exr = str_chars("exr");
            let hdr = str_chars("hdr");
            chars_eq_ignore_case(cs.as_slice(), exr.as_slice()) || chars_eq_ignore_case(
                cs.as_slice(),
                hdr.as_slice(),
            )
        },
        None => false,
    }
}

} // verus!
