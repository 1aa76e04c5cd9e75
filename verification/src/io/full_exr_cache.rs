//! Looking up a layer of a fully loaded image by a loosely written name.
use vstd::prelude::*;
use crate::text::{chars_eq, contains_block, str_chars, to_lowercase, unicode_lowercase};

verus! {

/// Lower-cased layer name `lname` answers the lower-cased request
/// `wanted`: both empty, or both non-empty and equal or one containing
/// the other.
pub open spec fn lower_names_match(lname: Seq<char>, wanted: Seq<char>) -> bool {
    if wanted.len() == 0 && lname.len() == 0 {
        true
    } else if wanted.len() == 0 || lname.len() == 0 {
        false
    } else {
        lname == wanted || contains_block(lname, wanted) || contains_block(wanted, lname)
    }
}

/// Whether `hay` holds `needle` as a contiguous run.
fn chars_contain(hay: &[char], needle: &[char]) -> (r: bool)
    ensures
        r == contains_block(hay@, needle@),
{
    if needle.len() > hay.len() {
        return false;
    }
    let hay_len = hay.len();
    let last = hay.len() - needle.len();
    let mut k: usize = 0;
    while k <= last
        invariant
            hay_len == hay@.len(),
            last + needle@.len() == hay@.len(),
            k <= last + 1,
            forall|j: int| 0 <= j < k ==> #[trigger] hay@.subrange(j, j + needle@.len()) != needle@,
        ensures
            forall|j: int| 0 <= j <= last ==> #[trigger] hay@.subrange(j, j + needle@.len()) != needle@,
        decreases last + 1 - k,
    {
        let mut i: usize = 0;
        let mut same = true;
        while i < needle.len()
            invariant
                hay_len == hay@.len(),
                last + needle@.len() == hay@.len(),
                k <= last,
                i <= needle@.len(),
                same == (forall|t: int| 0 <= t < i ==> hay@[k + t] == needle@[t]),
            decreases needle.len() - i,
        {
            if hay[k + i] != needle[i] {
                same = false;
            }
            i = i + 1;
        }
        if same {
            proof {
                assert(hay@.subrange(k as int, k + needle@.len()) =~= needle@);
            }
            return true;
        }
        proof {
            let t = choose|t: int| 0 <= t < needle@.len() && hay@[k + t] != needle@[t];
            assert(hay@.subrange(k as int, k + needle@.len())[t] != needle@[t]);
        }
        if k == last {
            break;
        }
        k = k + 1;
    }
    false
}

/// Whether a layer whose lower-cased name is `lname` answers the
/// lower-cased request `wanted`.
pub fn lower_names_answer(lname: &[char], wanted: &[char]) -> (r: bool)
    ensures
        r == lower_names_match(lname@, wanted@),
{
    if wanted.len() == 0 && lname.len() == 0 {
        return true;
    }
    if wanted.len() == 0 || lname.len() == 0 {
        return false;
    }
    chars_eq(lname, wanted) || chars_contain(lname, wanted) || chars_contain(wanted, lname)
}

/// Position of the first layer that answers a request for `wanted`, names
/// compared in Unicode lower case.
pub fn find_layer_by_name(names: &[String], wanted: &str) -> (r: Option<usize>)
    ensures
        match r {
            Some(i) => i < names@.len() && lower_names_match(
                unicode_lowercase(names@[i as int]@),
                unicode_lowercase(wanted@),
            ) && forall|j: int|
                0 <= j < i ==> !lower_names_match(
                    unicode_lowercase(#[trigger] names@[j]@),
                    unicode_lowercase(wanted@),
                ),
            None => forall|j: int|
                0 <= j < names@.len() ==> !lower_names_match(
                    unicode_lowercase(#[trigger] names@[j]@),
                    unicode_lowercase(wanted@),
                ),
        },
{
    let wanted_lower = to_lowercase(wanted);
    let w = str_chars(wanted_lower.as_str());
    let mut i: usize = 0;
    while i < names.len()
        invariant
            i <= names@.len(),
            w@ == unicode_lowercase(wanted@),
            forall|j: int|
                0 <= j < i ==> !lower_names_match(
                    unicode_lowercase(#[trigger] names@[j]@),
                    unicode_lowercase(wanted@),
                ),
        decreases names.len() - i,
    {
        let lname = to_lowercase(names[i].as_str());
        let l = str_chars(lname.as_str());
        if lower_names_answer(l.as_slice(), w.as_slice()) {
            return Some(i);
        }
        i = i + 1;
    }
    None
}

} // verus!
