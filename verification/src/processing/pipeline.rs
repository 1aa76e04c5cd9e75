//! Choice of what an image is processed into, and of the source level it
//! is read from.
use vstd::prelude::*;

verus! {

/// What an image is processed into.
#[derive(Debug, Clone, Copy, PartialEq, Eq, Structural)]
pub enum ProcessingTarget {
    FullImage,
    Composite,
    Thumbnail,
    DepthImage,
}

/// The image processing pipeline.
pub struct ProcessingPipeline;

/// The longer side of a level.
pub open spec fn longer_side(size: (u32, u32)) -> u32 {
    if size.0 >= size.1 {
        size.0
    } else {
        size.1
    }
}

/// First level at or after `i` whose longer side reaches `target`.
pub open spec fn first_level_at_least(levels: Seq<(u32, u32)>, target: u32, i: int) -> Option<int>
    decreases levels.len() - i,
{
    if i < 0 || i >= levels.len() {
        None
    } else if longer_side(levels[i]) >= target {
        Some(i)
    } else {
        first_level_at_least(levels, target, i + 1)
    }
}

proof fn lemma_first_level_at_least(levels: Seq<(u32, u32)>, target: u32, i: int)
    requires
        0 <= i,
    ensures
        first_level_at_least(levels, target, i) matches Some(j) ==> i <= j < levels.len() && (
        levels[j].0 >= target || levels[j].1 >= target) && forall|k: int|
            i <= k < j ==> (#[trigger] levels[k]).0 < target && levels[k].1 < target,
        first_level_at_least(levels, target, i) is None ==> forall|k: int|
            i <= k < levels.len() ==> (#[trigger] levels[k]).0 < target && levels[k].1 < target,
    decreases levels.len() - i,
{
    if i < levels.len() && longer_side(levels[i]) < target {
        lemma_first_level_at_least(levels, target, i + 1);
    }
}

/// A level is chosen exactly when some level has a side at least as long as
/// the target; the chosen level is the first such, every level before it
/// having both sides shorter than the target.
pub proof fn lemma_mip_source_choice(levels: Seq<(u32, u32)>, target: u32)
    ensures
        (exists|i: int| 0 <= i < levels.len() && ((#[trigger] levels[i]).0 >= target || levels[i].1 >= target))
            <==> first_level_at_least(levels, target, 0) is Some,
        first_level_at_least(levels, target, 0) matches Some(j) ==> 0 <= j < levels.len() && (
        levels[j].0 >= target || levels[j].1 >= target) && forall|k: int|
            0 <= k < j ==> (#[trigger] levels[k]).0 < target && levels[k].1 < target,
{
    lemma_first_level_at_least(levels, target, 0);
}

impl ProcessingPipeline {
    /// The MIP level to read a thumbnail of longer side `target_size` from,
    /// given the sizes of the levels: the first whose longer side is at
    /// least `target_size`; `None` means the full-resolution image.
    pub fn select_mip_source(level_sizes: &[(u32, u32)], target_size: u32) -> (r: Option<usize>)
        ensures
            match first_level_at_least(level_sizes@, target_size, 0) {
                Some(i) => r == Some(i as usize),
                None => r is None,
            },
            r is Some <==> exists|i: int|
                0 <= i < level_sizes@.len() && ((#[trigger] level_sizes@[i]).0 >= target_size
                    || level_sizes@[i].1 >= target_size),
            r matches Some(j) ==> j < level_sizes@.len() && (level_sizes@[j as int].0 >= target_size
                || level_sizes@[j as int].1 >= target_size) && forall|k: int|
                0 <= k < j ==> (#[trigger] level_sizes@[k]).0 < target_size && level_sizes@[k].1
                    < target_size,
    {
        proof {
            lemma_mip_source_choice(level_sizes@, target_size);
        }
        let mut i: usize = 0;
        while i < level_sizes.len()
            invariant
                i <= level_sizes@.len(),
                first_level_at_least(level_sizes@, target_size, 0) == first_level_at_least(
                    level_sizes@,
                    target_size,
                    i as int,
                ),
            decreases level_sizes.len() - i,
        {
            let (w, h) = level_sizes[i];
            let longer = if w >= h {
                w
            } else {
                h
            };
            if longer >= target_size {
                proof {
                    lemma_mip_source_choice(level_sizes@, target_size);
                    assert(first_level_at_least(level_sizes@, target_size, 0) == Some(i as int));
                    assert forall|k: int| 0 <= k < i implies (#[trigger] level_sizes@[k]).0 < target_size
                        && level_sizes@[k].1 < target_size by {}
                }
                return Some(i);
            }
            i = i + 1;
        }
        None
    }
}

} // verus!
