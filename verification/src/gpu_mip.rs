//! Planning of MIP chains: the size of each level and the parameters that
//! the GPU pass for one level receives.
use vstd::prelude::*;

verus! {

/// Parameters of one MIP pass, laid out as the shader expects them.
#[derive(Clone, Copy, Debug)]
pub struct MipParamsStd140 {
    pub src_width: u32,
    pub src_height: u32,
    pub dst_width: u32,
    pub dst_height: u32,
    pub mip_level: u32,
    pub filter_mode: u32,
    pub preserve_alpha: u32,
    pub _pad0: u32,
}

/// How a MIP level is filtered from the one above it.
#[derive(Clone, Copy, Debug, PartialEq, Eq, Structural)]
pub enum MipFilterMode {
    /// Mean of each 2x2 block.
    Average,
}

/// Settings of MIP chain generation.
#[derive(Clone, Debug)]
pub struct MipConfig {
    pub filter_mode: MipFilterMode,
    pub preserve_alpha: bool,
    pub max_levels: Option<u32>,
}

impl Default for MipConfig {
    /// Averaging, alpha preserved, no limit on the number of levels.
    fn default() -> (r: Self)
        ensures
            r.filter_mode == MipFilterMode::Average,
            r.preserve_alpha,
            r.max_levels is None,
    {
        Self { filter_mode: MipFilterMode::Average, preserve_alpha: true, max_levels: None }
    }
}

/// Why a MIP level cannot be generated.
#[derive(Debug, Clone, Copy, PartialEq, Eq, Structural)]
pub enum MipError {
    /// The pixel buffer holds fewer than four values per source pixel.
    InputTooSmall,
    /// The pixel buffer is larger than a storage binding may be.
    InputTooLarge,
}

/// Half of a side, but at least one.
pub open spec fn half_or_one(x: u32) -> u32 {
    if x / 2 >= 1 {
        (x / 2) as u32
    } else {
        1
    }
}

/// Size of the level below a level of the given size.
pub open spec fn next_mip_size(size: (u32, u32)) -> (u32, u32) {
    (half_or_one(size.0), half_or_one(size.1))
}

/// The shader's number for a filter mode.
pub open spec fn filter_code(mode: MipFilterMode) -> u32 {
    match mode {
        MipFilterMode::Average => 0,
    }
}

/// After `levels` levels, the last of the given size, another level follows:
/// the last is not 1x1 and the limit on levels, if any, is not reached.
pub open spec fn chain_continues(size: (u32, u32), levels: int, max_levels: Option<u32>) -> bool {
    !(size.0 == 1 && size.1 == 1) && !(max_levels matches Some(m) && levels >= m)
}

/// `chain` lists the sizes of the MIP chain of a `width` x `height` image:
/// the image itself, then each level half the size of the one before
/// (each side at least one), up to a 1x1 level or the limit on levels.
pub open spec fn is_mip_chain(chain: Seq<(u32, u32)>, width: u32, height: u32, max_levels: Option<u32>) -> bool {
    &&& chain.len() >= 1
    &&& chain[0] == (width, height)
    &&& forall|k: int|
        0 <= k < chain.len() - 1 ==> chain_continues(#[trigger] chain[k], k + 1, max_levels)
            && chain[k + 1] == next_mip_size(chain[k])
    &&& !chain_continues(chain[chain.len() - 1], chain.len() as int, max_levels)
}

/// Without a limit on levels the chain ends at a 1x1 level; with a limit
/// of `m` levels it holds at most `m` levels (at least the image itself).
pub proof fn lemma_mip_chain_end(chain: Seq<(u32, u32)>, width: u32, height: u32, max_levels: Option<u32>)
    requires
        is_mip_chain(chain, width, height, max_levels),
    ensures
        max_levels is None ==> chain.last() == (1u32, 1u32),
        max_levels matches Some(m) ==> chain.len() <= (if m >= 1 {
            m as int
        } else {
            1
        }),
{
    let n = chain.len();
    if let Some(m) = max_levels {
        if n > 1 && n > m {
            assert(chain_continues(chain[n - 2], n - 1, max_levels));
        }
    }
}

/// Every level below the image is at least 1x1 and half the size of the
/// level above it, rounded down.
pub proof fn lemma_mip_levels_halve(chain: Seq<(u32, u32)>, width: u32, height: u32, max_levels: Option<u32>, k: int)
    requires
        is_mip_chain(chain, width, height, max_levels),
        1 <= k < chain.len(),
    ensures
        chain[k].0 >= 1 && chain[k].1 >= 1,
        chain[k].0 == (if chain[k - 1].0 / 2 >= 1 { chain[k - 1].0 / 2 } else { 1 }),
        chain[k].1 == (if chain[k - 1].1 / 2 >= 1 { chain[k - 1].1 / 2 } else { 1 }),
{
    assert(chain_continues(chain[k - 1], k, max_levels));
}

/// Distance of a side from one, counted in halvings (zero counts as one step).
spec fn side_measure(x: u32) -> int {
    if x == 0 {
        1
    } else if x == 1 {
        0
    } else {
        x + 1
    }
}

/// Size of the level below: each side halved, at least one.
pub fn mip_level_size(width: u32, height: u32) -> (r: (u32, u32))
    ensures
        r == next_mip_size((width, height)),
{
    let w = if width / 2 >= 1 {
        width / 2
    } else {
        1
    };
    let h = if height / 2 >= 1 {
        height / 2
    } else {
        1
    };
    (w, h)
}

/// The sizes of the levels of the MIP chain of a `width` x `height` image,
/// the image itself first.
pub fn mip_chain_sizes(width: u32, height: u32, config: &MipConfig) -> (r: Vec<(u32, u32)>)
    ensures
        is_mip_chain(r@, width, height, config.max_levels),
{
    let mut chain: Vec<(u32, u32)> = Vec::new();
    chain.push((width, height));
    let mut w = width;
    let mut h = height;
    let mut level: u64 = 1;
    loop
        invariant
            chain@.len() == level,
            1 <= level,
            level + side_measure(w) + side_measure(h) <= side_measure(width) + side_measure(height)
                + 1,
            chain@[0] == (width, height),
            chain@[chain@.len() - 1] == (w, h),
            forall|k: int|
                0 <= k < chain@.len() - 1 ==> chain_continues(#[trigger] chain@[k], k + 1, config.max_levels)
                    && chain@[k + 1] == next_mip_size(chain@[k]),
        ensures
            is_mip_chain(chain@, width, height, config.max_levels),
        decreases side_measure(w) + side_measure(h),
    {
        if w == 1 && h == 1 {
            break;
        }
        if let Some(m) = config.max_levels {
            if level >= m as u64 {
                break;
            }
        }
        let ghost before = chain@;
        let (nw, nh) = mip_level_size(w, h);
        chain.push((nw, nh));
        proof {
            assert(chain_continues(before[before.len() - 1], before.len() as int, config.max_levels));
            assert(forall|k: int| 0 <= k < before.len() ==> chain@[k] == before[k]);
        }
        w = nw;
        h = nh;
        level = level + 1;
    }
    chain
}

/// The level before level `k` of a CPU chain: the image for the first.
pub open spec fn level_before(chain: Seq<(u32, u32)>, width: u32, height: u32, k: int) -> (u32, u32) {
    if k == 0 {
        (width, height)
    } else {
        chain[k - 1]
    }
}

/// `chain` lists the sizes of the levels the CPU builds below a
/// `width` x `height` image: each half the size of the one before (each
/// side at least one), at most `max_levels` of them, none made from a
/// level of at most 1x1, and none after the first level of at most 32x32.
pub open spec fn is_cpu_mip_chain(chain: Seq<(u32, u32)>, width: u32, height: u32, max_levels: nat) -> bool {
    &&& chain.len() <= max_levels
    &&& forall|k: int|
        0 <= k < chain.len() ==> {
            let p = #[trigger] level_before(chain, width, height, k);
            &&& !(p.0 <= 1 && p.1 <= 1)
            &&& chain[k] == next_mip_size(p)
            &&& (k < chain.len() - 1 ==> !(chain[k].0 <= 32 && chain[k].1 <= 32))
        }
    &&& (chain.len() == max_levels || ({
        let p = level_before(chain, width, height, chain.len() as int);
        p.0 <= 1 && p.1 <= 1
    }) || (chain.len() > 0 && chain.last().0 <= 32 && chain.last().1 <= 32))
}

/// Sizes of the levels the CPU builds below a `width` x `height` image,
/// first level first.
pub fn cpu_mip_chain_sizes(width: u32, height: u32, max_levels: usize) -> (r: Vec<(u32, u32)>)
    ensures
        is_cpu_mip_chain(r@, width, height, max_levels as nat),
{
    let mut chain: Vec<(u32, u32)> = Vec::new();
    let mut w = width;
    let mut h = height;
    let mut n: usize = 0;
    while n < max_levels
        invariant_except_break
            n > 0 ==> !(w <= 32 && h <= 32),
        invariant
            n == chain@.len(),
            n <= max_levels,
            (w, h) == level_before(chain@, width, height, n as int),
            forall|k: int|
                0 <= k < chain@.len() ==> {
                    let p = #[trigger] level_before(chain@, width, height, k);
                    &&& !(p.0 <= 1 && p.1 <= 1)
                    &&& chain@[k] == next_mip_size(p)
                    &&& (k < chain@.len() - 1 ==> !(chain@[k].0 <= 32 && chain@[k].1 <= 32))
                },
        ensures
            is_cpu_mip_chain(chain@, width, height, max_levels as nat),
        decreases max_levels - n,
    {
        if w <= 1 && h <= 1 {
            break;
        }
        let ghost before = chain@;
        let (nw, nh) = mip_level_size(w, h);
        chain.push((nw, nh));
        proof {
            assert forall|k: int| 0 <= k < chain@.len() implies #[trigger] level_before(chain@, width, height, k)
                == level_before(before, width, height, k) by {}
            assert(level_before(chain@, width, height, n as int) == (w, h));
            assert(chain@[n as int] == next_mip_size((w, h)));
            if n > 0 {
                assert(level_before(before, width, height, n as int) == before[n - 1]);
                assert(chain@[n - 1] == before[n - 1]);
            }
            assert(level_before(chain@, width, height, n + 1) == (nw, nh));
            assert forall|k: int| 0 <= k < chain@.len() implies {
                let p = #[trigger] level_before(chain@, width, height, k);
                &&& !(p.0 <= 1 && p.1 <= 1)
                &&& chain@[k] == next_mip_size(p)
                &&& (k < chain@.len() - 1 ==> !(chain@[k].0 <= 32 && chain@[k].1 <= 32))
            } by {
                if k < n {
                    assert(level_before(before, width, height, k) == level_before(chain@, width, height, k));
                    assert(chain@[k] == before[k]);
                }
            }
        }
        w = nw;
        h = nh;
        n = n + 1;
        if nw <= 32 && nh <= 32 {
            break;
        }
    }
    chain
}

/// Parameters of the pass that makes level `mip_level` from a level of
/// `src_width` x `src_height` pixels held as `src_len` RGBA values, given
/// the largest storage binding in bytes. Fails when the buffer holds fewer
/// than four values per pixel, or more bytes than a binding may hold.
pub fn plan_mip_level(
    src_len: usize,
    src_width: u32,
    src_height: u32,
    mip_level: u32,
    config: &MipConfig,
    max_storage_binding: u64,
) -> (r: Result<MipParamsStd140, MipError>)
    requires
        4 * (src_width as int) * (src_height as int) <= usize::MAX,
    ensures
        match r {
            Ok(p) => {
                &&& src_len >= 4 * (src_width as int) * (src_height as int)
                &&& 4 * (src_len as int) <= max_storage_binding
                &&& (p.dst_width, p.dst_height) == next_mip_size((src_width, src_height))
                &&& p.src_width == src_width && p.src_height == src_height
                &&& p.mip_level == mip_level
                &&& p.filter_mode == filter_code(config.filter_mode)
                &&& p.preserve_alpha == (if config.preserve_alpha {
                    1u32
                } else {
                    0u32
                })
                &&& p._pad0 == 0
            },
            Err(MipError::InputTooSmall) => src_len < 4 * (src_width as int) * (src_height as int),
            Err(MipError::InputTooLarge) => src_len >= 4 * (src_width as int) * (src_height as int)
                && 4 * (src_len as int) > max_storage_binding,
        },
{
    let (dst_width, dst_height) = mip_level_size(src_width, src_height);
    let w = src_width as u128;
    let h = src_height as u128;
    assert(w * h <= 0xffff_ffff_ffff_ffff_ffff_ffff) by (nonlinear_arith)
        requires
            w <= 0xffff_ffff,
            h <= 0xffff_ffff,
    ;
    let needed = w * h * 4;
    assert(needed == 4 * (src_width as int) * (src_height as int)) by (nonlinear_arith)
        requires
            needed == w * h * 4,
            w == src_width,
            h == src_height,
    ;
    if (src_len as u128) < needed {
        return Err(MipError::InputTooSmall);
    }
    let input_size = (src_len as u128) * 4;
    if input_size > max_storage_binding as u128 {
        return Err(MipError::InputTooLarge);
    }
    let filter_mode: u32 = match config.filter_mode {
        MipFilterMode::Average => 0,
    };
    Ok(MipParamsStd140 {
        src_width,
        src_height,
        dst_width,
        dst_height,
        mip_level,
        filter_mode,
        preserve_alpha: if config.preserve_alpha {
            1
        } else {
            0
        },
        _pad0: 0,
    })
}

} // verus!
