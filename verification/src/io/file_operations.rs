//! File names shown to the user.
use vstd::prelude::*;
use crate::text::owned;

verus! {

/// The text shown for a file whose name is `name`, when it has one that is
/// valid Unicode; "Nieznany plik" (unknown file) otherwise.
pub fn file_name_text(name: Option<&str>) -> (r: String)
    ensures
        match name {
            Some(n) => r@ == n@,
            None => r@ == "Nieznany plik"@,
        },
{
    match name {
        Some(n) => owned(n),
        None => owned("Nieznany plik"),
    }
}

} // verus!
