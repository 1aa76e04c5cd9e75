//! Operations over collections of layer descriptors.
use vstd::prelude::*;
use crate::io::image_cache::names_contain;
use crate::io::metadata_traits::{
    best_position, descriptor_channel_names, first_with, LayerDescriptor,
};

verus! {

/// The layer best suited for display: the first with R, G, B and A
/// channels, else the first with R, G and B, else the first layer.
pub fn find_best_layer<T: LayerDescriptor>(layers: &[T]) -> (r: Option<&T>)
    ensures
        match best_position(descriptor_channel_names(layers@)) {
            Some(i) => r == Some(&layers@[i]),
            None => r is None,
        },
{
    let ghost all = descriptor_channel_names(layers@);
    proof {
        reveal_strlit("R");
        reveal_strlit("G");
        reveal_strlit("B");
        reveal_strlit("A");
        assert("R"@ =~= seq!['R']);
        assert("G"@ =~= seq!['G']);
        assert("B"@ =~= seq!['B']);
        assert("A"@ =~= seq!['A']);
    }
    let n = layers.len();
    let mut i: usize = 0;
    while i < n
        invariant
            n == layers@.len(),
            all == descriptor_channel_names(layers@),
            i <= n,
            "R"@ =~= seq!['R'],
            "G"@ =~= seq!['G'],
            "B"@ =~= seq!['B'],
            "A"@ =~= seq!['A'],
            first_with(all, true, 0) == first_with(all, true, i as int),
        decreases n - i,
    {
        let names = layers[i].channel_names();
        if names_contain(&names, "R") && names_contain(&names, "G") && names_contain(&names, "B")
            && names_contain(&names, "A") {
            return Some(&layers[i]);
        }
        i = i + 1;
    }
    let mut k: usize = 0;
    while k < n
        invariant
            n == layers@.len(),
            all == descriptor_channel_names(layers@),
            k <= n,
            "R"@ =~= seq!['R'],
            "G"@ =~= seq!['G'],
            "B"@ =~= seq!['B'],
            first_with(all, true, 0) is None,
            first_with(all, false, 0) == first_with(all, false, k as int),
        decreases n - k,
    {
        let names = layers[k].channel_names();
        if names_contain(&names, "R") && names_contain(&names, "G") && names_contain(&names, "B") {
            return Some(&layers[k]);
        }
        k = k + 1;
    }
    if n > 0 {
        Some(&layers[0])
    } else {
        None
    }
}

} // verus!
