//! What the library knows of the DSP engine's interface.

use crate::text::opt_text;
use crate::wide::{from_utf16_lossy, to_wide, utf16, utf16_round_trips, utf16_text};
use vstd::prelude::*;
use vstd::string::*;

verus! {

pub const DFXDSP_OK: i32 = 0;

pub const DFXDSP_ERR: i32 = -1;

/// Sound effect slots, kept as plain integers so that a value arriving from
/// the engine is always one of the type.
pub type DfxEffectId = i32;

pub const DFX_EFFECT_FIDELITY: DfxEffectId = 0;

pub const DFX_EFFECT_AMBIENCE: DfxEffectId = 1;

pub const DFX_EFFECT_SURROUND: DfxEffectId = 2;

pub const DFX_EFFECT_DYNAMIC_BOOST: DfxEffectId = 3;

pub const DFX_EFFECT_BASS: DfxEffectId = 4;

pub const DFX_EFFECT_COUNT: DfxEffectId = 5;

/// Whether the engine reports success.
pub fn succeeded(code: i32) -> (r: bool)
    ensures
        r == (code == 0),
{
    code == DFXDSP_OK
}

/// Whether a preset may be saved under `name` in a place that is, or is not,
/// an existing directory.
///
/// The engine joins the two and appends `.fac` itself. Handed a file, it may
/// never return, so anything but a directory is refused beforehand.
pub fn may_save_preset(name: &str, is_directory: bool) -> (r: bool)
    ensures
        r == (name@.len() > 0 && is_directory),
{
    !name.is_empty() && is_directory
}

/// The text in the first code units of a buffer, as many as were written; none
/// where the count is negative.
pub open spec fn written_text(buffer: Seq<u16>, written: int) -> Option<Seq<char>> {
    if written < 0 {
        None
    } else {
        Some(
            utf16_text(
                if written < buffer.len() {
                    buffer.take(written)
                } else {
                    buffer
                },
            ),
        )
    }
}

/// The display name that the engine wrote into a buffer. A negative count
/// means that it could not read the file.
pub fn preset_name(buffer: &[u16], written: i32) -> (r: Option<String>)
    ensures
        opt_text(r) == written_text(buffer@, written as int),
{
    if written < 0 {
        return None;
    }
    let count: usize = if (written as u64) < buffer.len() as u64 {
        written as usize
    } else {
        buffer.len()
    };
    let text = vstd::slice::slice_subrange(buffer, 0, count);
    assert(written < buffer@.len() ==> text@ =~= buffer@.take(written as int));
    assert(written >= buffer@.len() ==> text@ =~= buffer@);
    Some(from_utf16_lossy(text))
}

/// A text as the engine takes it: NUL-terminated UTF-16.
pub fn to_wide_str(value: &str) -> (r: Vec<u16>)
    ensures
        r@ == utf16(value@).push(0),
{
    to_wide(value)
}

/// A name that was written reads back, whatever the buffer held behind it; and
/// without a name that was written there is none.
pub proof fn a_written_name_reads_back(name: Seq<char>, rest: Seq<u16>, failure: int)
    requires
        failure < 0,
    ensures
        written_text(utf16(name) + rest, utf16(name).len() as int) == Some(name),
        written_text(utf16(name), utf16(name).len() + rest.len() as int) == Some(name),
        written_text(rest, failure) is None,
{
    let units = utf16(name);
    assert((units + rest).take(units.len() as int) =~= units);
    if rest.len() == 0 {
        assert(units + rest =~= units);
    }
    utf16_round_trips(name);
}

} // verus!
