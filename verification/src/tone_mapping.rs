//! Tone-mapping modes, selected by their number in the user interface.
use vstd::prelude::*;

verus! {

/// How scene-referred values are mapped to display range.
#[derive(Debug, Clone, Copy, PartialEq, Eq, Structural)]
pub enum ToneMapMode {
    ACES,
    Reinhard,
    Linear,
    Filmic,
    Hable,
    Local,
}

/// The mode selected by a number: 1 to 5 pick Reinhard, Linear, Filmic,
/// Hable and Local; every other number picks ACES.
pub open spec fn mode_of_number(value: i32) -> ToneMapMode {
    if value == 1 {
        ToneMapMode::Reinhard
    } else if value == 2 {
        ToneMapMode::Linear
    } else if value == 3 {
        ToneMapMode::Filmic
    } else if value == 4 {
        ToneMapMode::Hable
    } else if value == 5 {
        ToneMapMode::Local
    } else {
        ToneMapMode::ACES
    }
}

/// Distinct numbers from 0 to 5 select distinct modes.
pub proof fn lemma_mode_numbers_distinct(a: i32, b: i32)
    requires
        0 <= a <= 5,
        0 <= b <= 5,
        a != b,
    ensures
        mode_of_number(a) != mode_of_number(b),
{
}

impl From<i32> for ToneMapMode {
    fn from(value: i32) -> (r: Self) {
        match value {
            1 => Self::Reinhard,
            2 => Self::Linear,
            3 => Self::Filmic,
            4 => Self::Hable,
            5 => Self::Local,
            _ => Self::ACES,
        }
    }
}

impl vstd::std_specs::convert::FromSpecImpl<i32> for ToneMapMode {
    open spec fn obeys_from_spec() -> bool {
        true
    }

    open spec fn from_spec(v: i32) -> Self {
        mode_of_number(v)
    }
}

} // verus!
