//! What the control side and the audio thread share: stream formats, the
//! parameters, the status, and the commands.
//!
//! Levels are carried as the bits of an `f32`, which is exact.

use crate::device::DeviceInfo;
use crate::ffi::DFX_EFFECT_COUNT;
use crate::float;
use crate::preset::FacPreset;
use crate::text::{copy_opt, decimal, opt_str, opt_text, to_decimal};
use vstd::prelude::*;
use vstd::string::*;

verus! {

// ---------------------------------------------------------------------------
// Stream formats
// ---------------------------------------------------------------------------

/// The tag of formats that carry a sub-format.
pub const WAVE_FORMAT_EXTENSIBLE: u16 = 0xfffe;

pub const WAVE_FORMAT_PCM: u16 = 1;

pub const WAVE_FORMAT_IEEE_FLOAT: u16 = 3;

/// `KSDATAFORMAT_SUBTYPE_PCM`.
pub const KSDATAFORMAT_SUBTYPE_PCM: u128 = 0x00000001_0000_0010_8000_00aa00389b71;

/// `KSDATAFORMAT_SUBTYPE_IEEE_FLOAT`.
pub const KSDATAFORMAT_SUBTYPE_IEEE_FLOAT: u128 = 0x00000003_0000_0010_8000_00aa00389b71;

/// The encodings that are converted between.
#[derive(Debug, Clone, Copy, PartialEq, Eq, Structural)]
pub enum SampleKind {
    Float32,
    /// 16-bit signed, container 16.
    Pcm16,
    /// 24 bits of audio in a 32-bit container. Common for studio hardware.
    Pcm24In32,
    /// 32-bit signed, container 32.
    Pcm32,
}

/// A sample format as the system describes it.
#[derive(Debug, Clone, Copy, PartialEq, Eq, Structural)]
pub struct StreamFormat {
    pub rate: u32,
    pub channels: u16,
    pub container_bits: u16,
    pub valid_bits: u16,
    /// The encoding, narrowed to those that actually occur.
    pub kind: SampleKind,
}

/// The fields of the system's own description. The last two count only for
/// formats that carry a sub-format.
#[derive(Debug, Clone, Copy, PartialEq, Eq, Structural)]
pub struct RawFormat {
    pub tag: u16,
    pub channels: u16,
    pub rate: u32,
    pub bits: u16,
    pub valid_bits: u16,
    pub sub_format: u128,
}

/// The integer encoding of a container with so many valid bits.
pub open spec fn pcm_kind(container_bits: u16, valid_bits: u16) -> Option<SampleKind> {
    if container_bits == 16 {
        Some(SampleKind::Pcm16)
    } else if container_bits == 32 {
        if valid_bits == 24 {
            Some(SampleKind::Pcm24In32)
        } else {
            Some(SampleKind::Pcm32)
        }
    } else {
        None
    }
}

/// The bits of a format that carry audio.
pub open spec fn format_valid_bits(raw: RawFormat) -> u16 {
    if raw.tag == 0xfffe {
        raw.valid_bits
    } else {
        raw.bits
    }
}

/// The encoding of a format, if it can be converted.
pub open spec fn format_kind(raw: RawFormat) -> Option<SampleKind> {
    let is_float = if raw.tag == 0xfffe {
        raw.sub_format == KSDATAFORMAT_SUBTYPE_IEEE_FLOAT
    } else {
        raw.tag == 3
    };
    let is_pcm = if raw.tag == 0xfffe {
        raw.sub_format == KSDATAFORMAT_SUBTYPE_PCM
    } else {
        raw.tag == 1
    };
    if is_float {
        Some(SampleKind::Float32)
    } else if is_pcm {
        pcm_kind(raw.bits, format_valid_bits(raw))
    } else {
        None
    }
}

fn kind_of_pcm(container_bits: u16, valid_bits: u16) -> (r: Option<SampleKind>)
    ensures
        r == pcm_kind(container_bits, valid_bits),
{
    if container_bits == 16 {
        Some(SampleKind::Pcm16)
    } else if container_bits == 32 {
        if valid_bits == 24 {
            Some(SampleKind::Pcm24In32)
        } else {
            Some(SampleKind::Pcm32)
        }
    } else {
        None
    }
}

/// A format in words.
pub open spec fn format_text(f: StreamFormat) -> Seq<char> {
    decimal(f.rate as nat) + " Hz, "@ + decimal(f.channels as nat) + " ch, "@ + decimal(
        f.valid_bits as nat,
    ) + "/"@ + decimal(f.container_bits as nat) + (if f.kind == SampleKind::Float32 {
        " float"@
    } else {
        " int"@
    })
}

impl StreamFormat {
    /// Bytes per frame.
    pub fn frame_bytes(&self) -> (r: usize)
        ensures
            r == (self.container_bits as int / 8) * self.channels,
    {
        let bytes: u32 = (self.container_bits / 8) as u32;
        let channels: u32 = self.channels as u32;
        assert(bytes * channels <= 0x2000 * 0x10000) by (nonlinear_arith)
            requires
                0 <= bytes < 0x2000,
                0 <= channels < 0x10000,
        ;
        (bytes * channels) as usize
    }

    /// Narrows the system's description. Other encodings than float and PCM
    /// cannot be converted.
    pub fn from_raw(raw: RawFormat) -> (r: Option<StreamFormat>)
        ensures
            r == (match format_kind(raw) {
                Some(kind) => Some(
                    StreamFormat {
                        rate: raw.rate,
                        channels: raw.channels,
                        container_bits: raw.bits,
                        valid_bits: format_valid_bits(raw),
                        kind,
                    },
                ),
                None => None,
            }),
    {
        let mut valid_bits: u16 = raw.bits;
        let kind: Option<SampleKind> = if raw.tag == WAVE_FORMAT_EXTENSIBLE {
            valid_bits = raw.valid_bits;
            if raw.sub_format == KSDATAFORMAT_SUBTYPE_IEEE_FLOAT {
                Some(SampleKind::Float32)
            } else if raw.sub_format == KSDATAFORMAT_SUBTYPE_PCM {
                kind_of_pcm(raw.bits, valid_bits)
            } else {
                None
            }
        } else if raw.tag == WAVE_FORMAT_IEEE_FLOAT {
            Some(SampleKind::Float32)
        } else if raw.tag == WAVE_FORMAT_PCM {
            kind_of_pcm(raw.bits, valid_bits)
        } else {
            None
        };
        match kind {
            Some(kind) => Some(
                StreamFormat {
                    rate: raw.rate,
                    channels: raw.channels,
                    container_bits: raw.bits,
                    valid_bits,
                    kind,
                },
            ),
            None => None,
        }
    }

    /// The format in words.
    pub fn describe(&self) -> (r: String)
        ensures
            r@ == format_text(*self),
    {
        let mut out: String = to_decimal(self.rate as u64);
        out.append(" Hz, ");
        let channels = to_decimal(self.channels as u64);
        out.append(channels.as_str());
        out.append(" ch, ");
        let valid = to_decimal(self.valid_bits as u64);
        out.append(valid.as_str());
        out.append("/");
        let container = to_decimal(self.container_bits as u64);
        out.append(container.as_str());
        match self.kind {
            SampleKind::Float32 => {
                out.append(" float");
            },
            _ => {
                out.append(" int");
            },
        }
        out
    }
}

// ---------------------------------------------------------------------------
// Parameters
// ---------------------------------------------------------------------------

/// Upper bound on EQ bands.
pub const MAX_BANDS: usize = 31;

/// Number of spectrum bars published to the UI.
pub const SPECTRUM_BANDS: usize = 10;

/// The number behind `n` on a counter that wraps around.
pub open spec fn next_count(n: u64) -> u64 {
    if n == 0xffff_ffff_ffff_ffff {
        0
    } else {
        (n + 1) as u64
    }
}

/// A counter after `by` more counts, wrapping around.
pub open spec fn counted(n: u64, by: int) -> u64 {
    ((n + by) % 0x1_0000_0000_0000_0000) as u64
}

fn count_one(n: u64) -> (r: u64)
    ensures
        r == next_count(n),
        r == counted(n, 1),
{
    if n == 0xffff_ffff_ffff_ffff {
        0
    } else {
        n + 1
    }
}

pub fn count_more(n: u64, by: u64) -> (r: u64)
    ensures
        r == counted(n, by as int),
{
    let sum: u128 = n as u128 + by as u128;
    if sum >= 0x1_0000_0000_0000_0000 {
        (sum - 0x1_0000_0000_0000_0000) as u64
    } else {
        sum as u64
    }
}

/// Parameters the UI writes and the audio thread reads.
pub struct SharedParams {
    pub enabled: bool,
    pub eq_on: bool,
    /// Effect levels on the 0..=10 slider scale, by effect.
    pub effects: [u32; 5],
    /// Band gains in dB, by band.
    pub band_gains: [u32; 31],
    /// Centre frequencies in Hz, by band.
    pub band_freqs: [u32; 31],
    pub num_bands: usize,
    pub balance: u32,
    pub master_gain: u32,
    pub normalization: u32,
    pub volume_leveling: u32,
    pub filter_q: u32,
    /// Bumped whenever any of the above changes, so the audio thread can skip
    /// re-applying unchanged values.
    pub generation: u64,
}

impl Default for SharedParams {
    fn default() -> (r: Self)
        ensures
            r.wf(),
            r.enabled,
            r.eq_on,
            forall|i: int| 0 <= i < 5 ==> #[trigger] r.effects@[i] == 0,
            forall|i: int| 0 <= i < 31 ==> #[trigger] r.band_gains@[i] == 0,
            forall|i: int| 0 <= i < 31 ==> #[trigger] r.band_freqs@[i] == 0,
            r.num_bands == 10,
            r.balance == 0,
            r.master_gain == 0,
            r.normalization == 0,
            r.volume_leveling == 0,
            r.filter_q == 0x3f80_0000,
            r.generation == 1,
    {
        SharedParams {
            enabled: true,
            eq_on: true,
            effects: [0;5],
            band_gains: [0;31],
            band_freqs: [0;31],
            num_bands: 10,
            balance: float::ZERO,
            master_gain: float::ZERO,
            normalization: float::ZERO,
            volume_leveling: float::ZERO,
            filter_q: float::ONE,
            generation: 1,
        }
    }
}

/// A number of bands that the engine can have.
pub open spec fn clamped_bands(bands: usize) -> usize {
    if bands < 1 {
        1
    } else if bands > 31 {
        31
    } else {
        bands
    }
}

impl SharedParams {
    /// There is always at least one band and never more than there is room
    /// for.
    pub open spec fn wf(&self) -> bool {
        1 <= self.num_bands <= 31
    }

    pub fn set_enabled(&mut self, on: bool)
        ensures
            *final(self) == (SharedParams {
                enabled: on,
                generation: next_count(old(self).generation),
                ..*old(self)
            }),
    {
        self.enabled = on;
        self.bump();
    }

    pub fn is_enabled(&self) -> (r: bool)
        ensures
            r == self.enabled,
    {
        self.enabled
    }

    pub fn set_eq_on(&mut self, on: bool)
        ensures
            *final(self) == (SharedParams {
                eq_on: on,
                generation: next_count(old(self).generation),
                ..*old(self)
            }),
    {
        self.eq_on = on;
        self.bump();
    }

    pub fn eq_on(&self) -> (r: bool)
        ensures
            r == self.eq_on,
    {
        self.eq_on
    }

    /// Sets an effect's level. A number that is no effect is ignored.
    pub fn set_effect(&mut self, effect: i32, slider_value: u32)
        ensures
            0 <= effect < 5 ==> *final(self) == (SharedParams {
                effects: final(self).effects,
                generation: next_count(old(self).generation),
                ..*old(self)
            }) && final(self).effects@ == old(self).effects@.update(effect as int, slider_value),
            !(0 <= effect < 5) ==> *final(self) == *old(self),
    {
        if 0 <= effect && effect < DFX_EFFECT_COUNT {
            self.effects[effect as usize] = slider_value;
            self.bump();
        }
    }

    pub fn effect(&self, effect: i32) -> (r: u32)
        ensures
            r == (if 0 <= effect < 5 {
                self.effects@[effect as int]
            } else {
                0
            }),
    {
        if 0 <= effect && effect < DFX_EFFECT_COUNT {
            self.effects[effect as usize]
        } else {
            0
        }
    }

    /// Sets a band's gain. A band there is no room for is ignored.
    pub fn set_band_gain(&mut self, band: usize, db: u32)
        ensures
            band < 31 ==> *final(self) == (SharedParams {
                band_gains: final(self).band_gains,
                generation: next_count(old(self).generation),
                ..*old(self)
            }) && final(self).band_gains@ == old(self).band_gains@.update(band as int, db),
            band >= 31 ==> *final(self) == *old(self),
    {
        if band < MAX_BANDS {
            self.band_gains[band] = db;
            self.bump();
        }
    }

    pub fn band_gain(&self, band: usize) -> (r: u32)
        ensures
            r == (if band < 31 {
                self.band_gains@[band as int]
            } else {
                0
            }),
    {
        if band < MAX_BANDS {
            self.band_gains[band]
        } else {
            0
        }
    }

    /// Records a band's centre frequency. It is for reading back only, so it
    /// does not mark the parameters dirty.
    pub fn set_band_freq(&mut self, band: usize, hz: u32)
        ensures
            band < 31 ==> *final(self) == (SharedParams {
                band_freqs: final(self).band_freqs,
                ..*old(self)
            }) && final(self).band_freqs@ == old(self).band_freqs@.update(band as int, hz),
            band >= 31 ==> *final(self) == *old(self),
    {
        if band < MAX_BANDS {
            self.band_freqs[band] = hz;
        }
    }

    pub fn band_freq(&self, band: usize) -> (r: u32)
        ensures
            r == (if band < 31 {
                self.band_freqs@[band as int]
            } else {
                0
            }),
    {
        if band < MAX_BANDS {
            self.band_freqs[band]
        } else {
            0
        }
    }

    pub fn set_num_bands(&mut self, bands: usize)
        ensures
            *final(self) == (SharedParams {
                num_bands: clamped_bands(bands),
                generation: next_count(old(self).generation),
                ..*old(self)
            }),
            final(self).wf(),
    {
        self.num_bands =
        if bands < 1 {
            1
        } else if bands > MAX_BANDS {
            MAX_BANDS
        } else {
            bands
        };
        self.bump();
    }

    pub fn num_bands(&self) -> (r: usize)
        ensures
            r == self.num_bands,
    {
        self.num_bands
    }

    pub fn set_balance(&mut self, db: u32)
        ensures
            *final(self) == (SharedParams {
                balance: db,
                generation: next_count(old(self).generation),
                ..*old(self)
            }),
    {
        self.balance = db;
        self.bump();
    }

    pub fn balance(&self) -> (r: u32)
        ensures
            r == self.balance,
    {
        self.balance
    }

    pub fn set_master_gain(&mut self, db: u32)
        ensures
            *final(self) == (SharedParams {
                master_gain: db,
                generation: next_count(old(self).generation),
                ..*old(self)
            }),
    {
        self.master_gain = db;
        self.bump();
    }

    pub fn master_gain(&self) -> (r: u32)
        ensures
            r == self.master_gain,
    {
        self.master_gain
    }

    pub fn set_normalization(&mut self, db: u32)
        ensures
            *final(self) == (SharedParams {
                normalization: db,
                generation: next_count(old(self).generation),
                ..*old(self)
            }),
    {
        self.normalization = db;
        self.bump();
    }

    pub fn normalization(&self) -> (r: u32)
        ensures
            r == self.normalization,
    {
        self.normalization
    }

    pub fn set_volume_leveling(&mut self, db: u32)
        ensures
            *final(self) == (SharedParams {
                volume_leveling: db,
                generation: next_count(old(self).generation),
                ..*old(self)
            }),
    {
        self.volume_leveling = db;
        self.bump();
    }

    pub fn volume_leveling(&self) -> (r: u32)
        ensures
            r == self.volume_leveling,
    {
        self.volume_leveling
    }

    pub fn set_filter_q(&mut self, q: u32)
        ensures
            *final(self) == (SharedParams {
                filter_q: q,
                generation: next_count(old(self).generation),
                ..*old(self)
            }),
    {
        self.filter_q = q;
        self.bump();
    }

    pub fn filter_q(&self) -> (r: u32)
        ensures
            r == self.filter_q,
    {
        self.filter_q
    }

    /// Marks the parameters dirty.
    pub fn bump(&mut self)
        ensures
            *final(self) == (SharedParams {
                generation: next_count(old(self).generation),
                ..*old(self)
            }),
    {
        self.generation = count_one(self.generation);
    }

    pub fn generation(&self) -> (r: u64)
        ensures
            r == self.generation,
    {
        self.generation
    }
}

// ---------------------------------------------------------------------------
// Status
// ---------------------------------------------------------------------------

/// What the tray and panel display.
pub struct EngineStatus {
    pub running: bool,
    /// Whether the virtual card is present, i.e. whether the graph can work.
    pub virtual_present: bool,
    /// Frames captured since the graph was built.
    pub captured_frames: u64,
    /// Frames rendered since the graph was built.
    pub rendered_frames: u64,
    /// Frames the renderer wanted that the capture side had not produced.
    pub underruns: u64,
    /// Captured frames discarded because the ring was full.
    pub overruns: u64,
    /// Graph rebuilds since start.
    pub rebuilds: u64,
    /// Samples the DSP pushed past full scale and had to be clamped.
    pub clipped_samples: u64,
    /// Ring occupancy in milliseconds, updated once per render cycle.
    pub latency_ms: u32,
    /// Peak output level, linear 0.0..=1.0, decayed each render cycle.
    pub peak_level: u32,
    /// Spectrum magnitudes, each 0.0..=1.0.
    pub spectrum: [u32; 10],
    /// Format descriptions, set at build time.
    pub source: Option<String>,
    pub sink: Option<String>,
    /// The `.fac` file the user has selected.
    pub active_preset: Option<String>,
    /// Bumped every time a preset file is written into the preset folder.
    pub presets_revision: u64,
    /// Outcome of the most recent save: file name and whether it succeeded.
    pub last_save: Option<(String, bool)>,
    /// Last error worth showing the user.
    pub last_error: Option<String>,
}

impl Default for EngineStatus {
    fn default() -> (r: Self)
        ensures
            !r.running && !r.virtual_present,
            r.captured_frames == 0 && r.rendered_frames == 0 && r.underruns == 0 && r.overruns == 0,
            r.rebuilds == 0 && r.clipped_samples == 0 && r.latency_ms == 0 && r.peak_level == 0,
            forall|i: int| 0 <= i < 10 ==> #[trigger] r.spectrum@[i] == 0,
            r.source is None && r.sink is None && r.active_preset is None,
            r.presets_revision == 0 && r.last_save is None && r.last_error is None,
    {
        EngineStatus {
            running: false,
            virtual_present: false,
            captured_frames: 0,
            rendered_frames: 0,
            underruns: 0,
            overruns: 0,
            rebuilds: 0,
            clipped_samples: 0,
            latency_ms: 0,
            peak_level: 0,
            spectrum: [0;10],
            source: None,
            sink: None,
            active_preset: None,
            presets_revision: 0,
            last_save: None,
            last_error: None,
        }
    }
}

/// The summary of a status.
pub open spec fn summary_text(s: EngineStatus) -> Seq<char> {
    if !s.running {
        "stopped"@
    } else if !s.virtual_present {
        "no virtual sound card"@
    } else if s.underruns == 0 {
        decimal(s.rendered_frames as nat) + " frames rendered, clean"@
    } else {
        decimal(s.rendered_frames as nat) + " frames rendered, "@ + decimal(s.underruns as nat)
            + " underrun frame(s)"@
    }
}

impl EngineStatus {
    pub fn is_running(&self) -> (r: bool)
        ensures
            r == self.running,
    {
        self.running
    }

    pub fn virtual_present(&self) -> (r: bool)
        ensures
            r == self.virtual_present,
    {
        self.virtual_present
    }

    pub fn captured_frames(&self) -> (r: u64)
        ensures
            r == self.captured_frames,
    {
        self.captured_frames
    }

    pub fn rendered_frames(&self) -> (r: u64)
        ensures
            r == self.rendered_frames,
    {
        self.rendered_frames
    }

    pub fn underruns(&self) -> (r: u64)
        ensures
            r == self.underruns,
    {
        self.underruns
    }

    pub fn overruns(&self) -> (r: u64)
        ensures
            r == self.overruns,
    {
        self.overruns
    }

    pub fn rebuilds(&self) -> (r: u64)
        ensures
            r == self.rebuilds,
    {
        self.rebuilds
    }

    pub fn clipped_samples(&self) -> (r: u64)
        ensures
            r == self.clipped_samples,
    {
        self.clipped_samples
    }

    pub fn latency_ms(&self) -> (r: u32)
        ensures
            r == self.latency_ms,
    {
        self.latency_ms
    }

    /// Peak output level, linear 0.0..=1.0.
    pub fn peak_level(&self) -> (r: u32)
        ensures
            r == self.peak_level,
    {
        self.peak_level
    }

    /// One spectrum bar, 0.0..=1.0.
    pub fn spectrum(&self, index: usize) -> (r: u32)
        ensures
            r == (if index < 10 {
                self.spectrum@[index as int]
            } else {
                0
            }),
    {
        if index < SPECTRUM_BANDS {
            self.spectrum[index]
        } else {
            0
        }
    }

    pub fn source_description(&self) -> (r: Option<String>)
        ensures
            r == self.source,
    {
        copy_opt(&self.source)
    }

    pub fn sink_description(&self) -> (r: Option<String>)
        ensures
            r == self.sink,
    {
        copy_opt(&self.sink)
    }

    /// The `.fac` file currently selected.
    pub fn active_preset(&self) -> (r: Option<String>)
        ensures
            r == self.active_preset,
    {
        copy_opt(&self.active_preset)
    }

    /// Records a new selection.
    pub fn set_active_preset(&mut self, path: Option<&str>)
        ensures
            opt_text(final(self).active_preset) == opt_str(path),
            *final(self) == (EngineStatus {
                active_preset: final(self).active_preset,
                ..*old(self)
            }),
    {
        self.active_preset =
        match path {
            Some(p) => Some(p.to_owned()),
            None => None,
        };
    }

    /// How many times a preset was written.
    pub fn presets_revision(&self) -> (r: u64)
        ensures
            r == self.presets_revision,
    {
        self.presets_revision
    }

    /// Publishes the outcome of a preset save and bumps the folder revision.
    pub fn note_preset_written(&mut self, filename: String, ok: bool)
        ensures
            *final(self) == (EngineStatus {
                last_save: Some((filename, ok)),
                presets_revision: next_count(old(self).presets_revision),
                ..*old(self)
            }),
    {
        self.last_save = Some((filename, ok));
        self.presets_revision = count_one(self.presets_revision);
    }

    /// The outcome of the most recent save, if there has been one.
    pub fn last_save(&self) -> (r: Option<(String, bool)>)
        ensures
            r == self.last_save,
    {
        match &self.last_save {
            Some((name, ok)) => Some((name.clone(), *ok)),
            None => None,
        }
    }

    pub fn last_error(&self) -> (r: Option<String>)
        ensures
            r == self.last_error,
    {
        copy_opt(&self.last_error)
    }

    pub fn set_error(&mut self, message: String)
        ensures
            *final(self) == (EngineStatus { last_error: Some(message), ..*old(self) }),
    {
        self.last_error = Some(message);
    }

    pub fn clear_error(&mut self)
        ensures
            *final(self) == (EngineStatus { last_error: None, ..*old(self) }),
    {
        self.last_error = None;
    }

    /// A compact summary for logs and the tray tooltip.
    pub fn summary(&self) -> (r: String)
        ensures
            r@ == summary_text(*self),
    {
        if !self.running {
            return "stopped".to_owned();
        }
        if !self.virtual_present {
            return "no virtual sound card".to_owned();
        }
        let mut out: String = to_decimal(self.rendered_frames);
        if self.underruns == 0 {
            out.append(" frames rendered, clean");
        } else {
            out.append(" frames rendered, ");
            let count = to_decimal(self.underruns);
            out.append(count.as_str());
            out.append(" underrun frame(s)");
        }
        out
    }
}

// ---------------------------------------------------------------------------
// Commands
// ---------------------------------------------------------------------------

/// Commands the control side sends to the audio thread.
#[derive(Debug)]
pub enum EngineCommand {
    SetEnabled(bool),
    SetEqOn(bool),
    SetNumBands(usize),
    SetBandGain { band: usize, db: u32 },
    SetEffect { effect: i32, slider: u32 },
    SetBalance(u32),
    SetMasterGain(u32),
    SetNormalization(u32),
    SetVolumeLeveling(u32),
    SetFilterQ(u32),
    /// Apply a `.fac` file, parsed already.
    LoadPreset { path: String, preset: FacPreset },
    /// Persist the engine's current state to a `.fac` file. `path` is the
    /// directory to write into: the engine builds the file name from `name`.
    SavePreset { name: String, path: String },
    /// Tear the graph down and build it again.
    Rebuild,
    /// Stop the thread.
    Shutdown,
}

/// Why a rebuild happened, for logging.
#[derive(Debug, Clone, Copy, PartialEq, Eq, Structural)]
pub enum RebuildReason {
    Startup,
    Requested,
    DefaultDeviceChanged,
    DeviceUnplugged,
    Error,
}

pub open spec fn reason_text(reason: RebuildReason) -> Seq<char> {
    match reason {
        RebuildReason::Startup => "startup"@,
        RebuildReason::Requested => "requested"@,
        RebuildReason::DefaultDeviceChanged => "default device changed"@,
        RebuildReason::DeviceUnplugged => "device removed"@,
        RebuildReason::Error => "recovering from an error"@,
    }
}

impl RebuildReason {
    /// The reason in words.
    pub fn describe(&self) -> (r: &'static str)
        ensures
            r@ == reason_text(*self),
    {
        match self {
            RebuildReason::Startup => "startup",
            RebuildReason::Requested => "requested",
            RebuildReason::DefaultDeviceChanged => "default device changed",
            RebuildReason::DeviceUnplugged => "device removed",
            RebuildReason::Error => "recovering from an error",
        }
    }
}

/// Formats an endpoint as a log-friendly string.
pub fn describe(device: &DeviceInfo) -> (r: String)
    ensures
        r@ == crate::device::display_text(device.name@, opt_text(device.adapter)) + " ["@
            + device.id@ + "]"@,
{
    let mut out: String = device.display();
    out.append(" [");
    out.append(device.id.as_str());
    out.append("]");
    out
}

// ---------------------------------------------------------------------------
// What holds of formats, parameters and words
// ---------------------------------------------------------------------------

/// A format is converted exactly if it is floating point, or PCM in a container
/// of 16 or 32 bits; and it is read as what it is.
pub proof fn formats_are_read_as_they_are(raw: RawFormat)
    ensures
        ({
            let carries = raw.tag == WAVE_FORMAT_EXTENSIBLE;
            let float = (!carries && raw.tag == WAVE_FORMAT_IEEE_FLOAT) || (carries
                && raw.sub_format == KSDATAFORMAT_SUBTYPE_IEEE_FLOAT);
            let pcm = (!carries && raw.tag == WAVE_FORMAT_PCM) || (carries && raw.sub_format
                == KSDATAFORMAT_SUBTYPE_PCM);
            let valid = if carries {
                raw.valid_bits
            } else {
                raw.bits
            };
            &&& (format_kind(raw) == Some(SampleKind::Float32)) == float
            &&& (format_kind(raw) == Some(SampleKind::Pcm16)) == (pcm && raw.bits == 16)
            &&& (format_kind(raw) == Some(SampleKind::Pcm24In32)) == (pcm && raw.bits == 32
                && valid == 24)
            &&& (format_kind(raw) == Some(SampleKind::Pcm32)) == (pcm && raw.bits == 32 && valid
                != 24)
            &&& format_valid_bits(raw) == valid
        }),
{
}

/// Both ways of describing an encoding are read alike.
pub proof fn both_descriptions_agree(raw: RawFormat)
    ensures
        format_kind(RawFormat { tag: WAVE_FORMAT_IEEE_FLOAT, ..raw }) == format_kind(
            RawFormat {
                tag: WAVE_FORMAT_EXTENSIBLE,
                sub_format: KSDATAFORMAT_SUBTYPE_IEEE_FLOAT,
                ..raw
            },
        ),
        format_kind(RawFormat { tag: WAVE_FORMAT_PCM, ..raw }) == format_kind(
            RawFormat {
                tag: WAVE_FORMAT_EXTENSIBLE,
                sub_format: KSDATAFORMAT_SUBTYPE_PCM,
                valid_bits: raw.bits,
                ..raw
            },
        ),
{
}

/// A number of bands that the engine can have is left alone, and any other
/// becomes the nearest one that it can.
pub proof fn bands_are_kept_in_range(bands: usize)
    ensures
        1 <= clamped_bands(bands) <= 31,
        1 <= bands <= 31 ==> clamped_bands(bands) == bands,
        bands < 1 ==> clamped_bands(bands) == 1,
        bands > 31 ==> clamped_bands(bands) == 31,
{
}

/// Counters count: by as many as there are, until they wrap around.
pub proof fn counters_count(n: u64, by: int)
    requires
        0 <= by,
        n + by < 0x1_0000_0000_0000_0000,
    ensures
        counted(n, by) == n + by,
        by == 1 ==> next_count(n) == counted(n, by),
{
}

/// A status in words tells stopped, without a card, clean and interrupted
/// apart, and gives the figures.
pub proof fn a_summary_gives_the_figures(s: EngineStatus)
    ensures
        s.running && s.virtual_present ==> crate::text::starts_with(
            summary_text(s),
            decimal(s.rendered_frames as nat),
        ),
        s.running && s.virtual_present && s.underruns > 0 ==> crate::text::occurs(
            summary_text(s),
            decimal(s.underruns as nat),
        ),
        s.running && s.virtual_present && s.underruns == 0 ==> crate::text::ends_with(
            summary_text(s),
            "clean"@,
        ),
        !s.running ==> summary_text(s) == "stopped"@,
        s.running && !s.virtual_present ==> summary_text(s) == "no virtual sound card"@,
{
    let frames = decimal(s.rendered_frames as nat);
    if s.running && s.virtual_present {
        if s.underruns == 0 {
            let clean = " frames rendered, clean"@;
            crate::text::a_part_occurs(Seq::empty(), frames, clean);
            assert(crate::text::ends_with(summary_text(s), "clean"@)) by {
                reveal_strlit(" frames rendered, clean");
                reveal_strlit("clean");
                let n = summary_text(s).len() as int;
                assert(summary_text(s).skip(n - 5) =~= "clean"@);
            }
        } else {
            let mid = " frames rendered, "@;
            let count = decimal(s.underruns as nat);
            let end = " underrun frame(s)"@;
            assert(summary_text(s) =~= frames + (mid + count + end));
            assert(summary_text(s) =~= (frames + mid) + count + end);
            crate::text::a_part_occurs(Seq::empty(), frames, mid + count + end);
            crate::text::a_part_occurs(frames + mid, count, end);
        }
    }
}

/// No two reasons for a rebuild are told in the same words.
pub proof fn reasons_are_told_apart(a: RebuildReason, b: RebuildReason)
    ensures
        reason_text(a) == reason_text(b) ==> a == b,
        reason_text(a).len() > 0,
{
    reveal_strlit("startup");
    reveal_strlit("requested");
    reveal_strlit("default device changed");
    reveal_strlit("device removed");
    reveal_strlit("recovering from an error");
    assert(reason_text(RebuildReason::Startup).len() == 7);
    assert(reason_text(RebuildReason::Requested).len() == 9);
    assert(reason_text(RebuildReason::DefaultDeviceChanged).len() == 22);
    assert(reason_text(RebuildReason::DeviceUnplugged).len() == 14);
    assert(reason_text(RebuildReason::Error).len() == 24);
}

/// A format in words gives its figures, in the order of rate, channels, valid
/// bits and container, and tells floating point from integers.
pub proof fn a_format_is_shown_whole(f: StreamFormat)
    ensures
        crate::text::starts_with(format_text(f), decimal(f.rate as nat)),
        (f.kind == SampleKind::Float32) == crate::text::ends_with(format_text(f), " float"@),
{
    reveal_strlit(" float");
    reveal_strlit(" int");
    reveal_strlit(" Hz, ");
    let rest = " Hz, "@ + decimal(f.channels as nat) + " ch, "@ + decimal(f.valid_bits as nat)
        + "/"@ + decimal(f.container_bits as nat) + (if f.kind == SampleKind::Float32 {
        " float"@
    } else {
        " int"@
    });
    assert(format_text(f) =~= decimal(f.rate as nat) + rest);
    crate::text::a_part_occurs(Seq::empty(), decimal(f.rate as nat), rest);
    let text = format_text(f);
    let n = text.len() as int;
    if f.kind == SampleKind::Float32 {
        assert(text.skip(n - 6) =~= " float"@);
    } else if crate::text::ends_with(text, " float"@) {
        assert(text.skip(n - 6).last() == text.last());
        assert(text[n - 2] == 'n');
        assert(text.skip(n - 6)[4] == text[n - 2]);
        assert(" float"@[4] == 'a');
    }
}

} // verus!
