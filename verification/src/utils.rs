//! Splitting full channel names into layer and short channel name.
use vstd::prelude::*;
use crate::text::{owned, str_chars, string_from_chars};

verus! {

/// Position of the last dot among the first `n` characters of `s`.
pub open spec fn last_dot_before(s: Seq<char>, n: int) -> Option<int>
    decreases n,
{
    if n <= 0 || n > s.len() {
        None
    } else if s[n - 1] == '.' {
        Some(n - 1)
    } else {
        last_dot_before(s, n - 1)
    }
}

/// Layer and short name of a channel named `full` in a header whose layer
/// name is `base`: a name with a dot is split at its last dot (layer before
/// it, short name after it); a name without a dot belongs to the header's
/// layer (the unnamed layer when the header has none).
pub open spec fn split_channel(full: Seq<char>, base: Option<Seq<char>>) -> (Seq<char>, Seq<char>) {
    match last_dot_before(full, full.len() as int) {
        Some(i) => (full.subrange(0, i), full.subrange(i + 1, full.len() as int)),
        None => (
            match base {
                Some(b) => b,
                None => Seq::empty(),
            },
            full,
        ),
    }
}

fn chars_range(cs: &[char], a: usize, b: usize) -> (r: Vec<char>)
    requires
        a <= b <= cs@.len(),
    ensures
        r@ == cs@.subrange(a as int, b as int),
{
    let mut out: Vec<char> = Vec::new();
    let mut i = a;
    while i < b
        invariant
            a <= i <= b <= cs@.len(),
            out@ == cs@.subrange(a as int, i as int),
        decreases b - i,
    {
        out.push(cs[i]);
        proof {
            assert(cs@.subrange(a as int, i + 1) =~= cs@.subrange(a as int, i as int).push(cs@[i as int]));
        }
        i = i + 1;
    }
    out
}

/// Splits a full channel name into its layer and short name (see
/// [`split_channel`]).
pub fn split_layer_and_short(full: &str, base_layer: Option<&str>) -> (r: (String, String))
    ensures
        (r.0@, r.1@) == split_channel(full@, match base_layer {
            Some(b) => Some(b@),
            None => None,
        }),
{
    let cs = str_chars(full);
    let n = cs.len();
    let mut k = n;
    while k > 0
        invariant
            k <= n == cs@.len(),
            cs@ == full@,
            last_dot_before(full@, n as int) == last_dot_before(full@, k as int),
        decreases k,
    {
        if cs[k - 1] == '.' {
            let layer = chars_range(cs.as_slice(), 0, k - 1);
            let short = chars_range(cs.as_slice(), k, n);
            return (string_from_chars(layer.as_slice()), string_from_chars(short.as_slice()));
        }
        k = k - 1;
    }
    let layer = match base_layer {
        Some(b) => owned(b),
        None => String::new(),
    };
    (layer, owned(full))
}

} // verus!
