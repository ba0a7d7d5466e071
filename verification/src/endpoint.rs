//! Endpoint-level volume and metering: the device's own slider.
//!
//! Distinct from [`crate::session`], which is about individual applications.
//! Levels are linear, 0.0 – 1.0, and travel as the bits of an `f32`.

use crate::float::{self, clamped};
use vstd::prelude::*;

verus! {

/// A device's current state, read in one pass.
#[derive(Debug, Clone, Copy, PartialEq, Eq, Structural)]
pub struct EndpointLevels {
    pub volume: u32,
    pub muted: bool,
    pub peak: u32,
}

/// The level that is handed to Windows when the device's volume is set.
///
/// A slider drag can momentarily leave the range, and the system rejects such
/// a value outright.
pub fn set_volume(level: u32) -> (r: u32)
    ensures
        r == clamped(level, float::ZERO, float::ONE),
        !float::is_nan(level) ==> !float::below(r, float::ZERO) && !float::below(float::ONE, r),
        !float::below(level, float::ZERO) && !float::below(float::ONE, level) ==> r == level,
{
    float::clamp(level, float::ZERO, float::ONE)
}

/// What the readings of one endpoint come to.
pub open spec fn levels_of(
    opened: bool,
    volume: Option<u32>,
    muted: Option<bool>,
    peak: Option<u32>,
) -> Option<EndpointLevels> {
    if opened {
        Some(
            EndpointLevels {
                volume: (match volume {
                    Some(level) => level,
                    None => 0x3f80_0000,
                }),
                muted: muted == Some(true),
                peak: (match peak {
                    Some(level) => level,
                    None => 0,
                }),
            },
        )
    } else {
        None
    }
}

/// Puts together the readings of one endpoint, tolerating partial failures.
///
/// A device that cannot be opened at all yields `None`; a device that opens
/// but refuses a particular reading yields that field's default.
pub fn levels(opened: bool, volume: Option<u32>, muted: Option<bool>, peak: Option<u32>) -> (r:
    Option<EndpointLevels>)
    ensures
        r == levels_of(opened, volume, muted, peak),
{
    if !opened {
        return None;
    }
    Some(
        EndpointLevels {
            volume: match volume {
                Some(level) => level,
                None => float::ONE,
            },
            muted: match muted {
                Some(flag) => flag,
                None => false,
            },
            peak: match peak {
                Some(level) => level,
                None => float::ZERO,
            },
        },
    )
}

/// Each reading of a device shows where it belongs, whatever the others are; a
/// reading that failed shows as full volume, not muted and silent.
pub proof fn readings_are_shown(volume: Option<u32>, muted: Option<bool>, peak: Option<u32>)
    ensures
        levels_of(false, volume, muted, peak) is None,
        levels_of(true, volume, muted, peak) is Some,
        ({
            let shown = levels_of(true, volume, muted, peak)->0;
            &&& volume is Some ==> shown.volume == volume->0
            &&& volume is None ==> shown.volume == float::ONE
            &&& muted is Some ==> shown.muted == muted->0
            &&& muted is None ==> !shown.muted
            &&& peak is Some ==> shown.peak == peak->0
            &&& peak is None ==> shown.peak == float::ZERO
        }),
{
}

} // verus!
