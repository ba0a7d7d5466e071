use fxtrumpet::applier::{
    mirror_preset, DspOp, ParamApplier, PresetReadback, RoundStep,
};
use fxtrumpet::engine::{
    EngineStatus, RawFormat, RebuildReason, SampleKind, SharedParams, StreamFormat,
    KSDATAFORMAT_SUBTYPE_IEEE_FLOAT, KSDATAFORMAT_SUBTYPE_PCM,
};
use fxtrumpet::ffi;
use fxtrumpet::ring::{map_channels, RingBuffer};

fn average(frame: &[f32]) -> f32 {
    frame.iter().sum::<f32>() / frame.len() as f32
}

#[test]
fn ring_buffer_reports_the_oldest_frame_when_full() {
    let mut ring = RingBuffer::new(2, 1, 0.0f32);
    assert!(ring.push_frame(&[1.0]));
    assert!(ring.push_frame(&[2.0]));
    // Third push must evict 1.0 and report the drop.
    assert!(!ring.push_frame(&[3.0]));

    let mut out = [0.0f32; 2];
    assert_eq!(ring.pop_frames(2, &mut out), 2);
    assert_eq!(out, [2.0, 3.0]);
}

#[test]
fn a_ring_keeps_the_newest_frames_in_order() {
    let mut ring = RingBuffer::new(3, 2, 0i32);
    for i in 0..7 {
        ring.push_frame(&[i, -i]);
    }
    assert_eq!(ring.available(), 3);
    let mut out = [9; 6];
    assert_eq!(ring.pop_frames(2, &mut out), 2);
    assert_eq!(out, [4, -4, 5, -5, 9, 9]);
    assert!(ring.push_frame(&[8, 8]));
    assert_eq!(ring.pop_frames(9, &mut out), 2);
    assert_eq!(out, [6, -6, 8, 8, 9, 9]);
    assert_eq!(ring.available(), 0);
    assert_eq!(ring.pop_frames(1, &mut out), 0);
}

#[test]
fn mono_to_stereo_duplicates() {
    let mut out = Vec::new();
    map_channels(&[0.5, 0.25], 1, 2, average, &mut out);
    assert_eq!(out, [0.5, 0.5, 0.25, 0.25]);
}

#[test]
fn stereo_to_mono_averages() {
    let mut out = Vec::new();
    map_channels(&[1.0, 0.0, 0.5, 0.5], 2, 1, average, &mut out);
    assert_eq!(out, [0.5, 0.5]);
}

#[test]
fn wider_outputs_repeat_the_first_channel() {
    let mut out = vec![9.0f32];
    map_channels(&[1.0, 2.0, 3.0, 4.0, 5.0], 2, 4, average, &mut out);
    assert_eq!(out, [9.0, 1.0, 2.0, 1.0, 1.0, 3.0, 4.0, 3.0, 3.0]);
    let mut same = Vec::new();
    map_channels(&[1.0, 2.0, 3.0], 2, 2, average, &mut same);
    assert_eq!(same, [1.0, 2.0, 3.0]);
    let mut narrow = Vec::new();
    map_channels(&[1.0, 2.0, 3.0, 6.0, 6.0, 6.0], 3, 2, average, &mut narrow);
    assert_eq!(narrow, [2.0, 2.0, 6.0, 6.0]);
}

#[test]
fn params_round_trip_through_atomics() {
    let mut params = SharedParams::default();
    params.set_effect(ffi::DFX_EFFECT_BASS, 6.5f32.to_bits());
    assert!((f32::from_bits(params.effect(ffi::DFX_EFFECT_BASS)) - 6.5).abs() < f32::EPSILON);

    params.set_band_gain(3, (-4.25f32).to_bits());
    assert!((f32::from_bits(params.band_gain(3)) + 4.25).abs() < f32::EPSILON);

    // Out-of-range indices must be ignored rather than panic: the audio
    // thread reads these.
    params.set_effect(99, 1.0f32.to_bits());
    params.set_band_gain(999, 1.0f32.to_bits());
    assert_eq!(params.effect(99), 0);
    assert_eq!(params.effect(-1), 0);
    assert_eq!(params.band_gain(999), 0);
    assert_eq!(params.generation(), 3);
}

#[test]
fn parameters_mark_themselves_dirty() {
    let mut params = SharedParams::default();
    assert!(params.is_enabled() && params.eq_on());
    assert_eq!((params.num_bands(), params.generation()), (10, 1));
    assert_eq!(f32::from_bits(params.filter_q()), 1.0);
    params.set_enabled(false);
    params.set_eq_on(false);
    params.set_num_bands(99);
    assert_eq!(params.num_bands(), 31);
    params.set_num_bands(0);
    assert_eq!(params.num_bands(), 1);
    params.set_balance(1);
    params.set_master_gain(2);
    params.set_normalization(3);
    params.set_volume_leveling(4);
    params.set_filter_q(5);
    params.bump();
    assert_eq!(params.generation(), 11);
    params.set_band_freq(30, 7);
    params.set_band_freq(31, 7);
    assert_eq!((params.band_freq(30), params.band_freq(31)), (7, 0));
    assert_eq!(params.generation(), 11, "a frequency is for reading back only");
    assert_eq!(
        (params.balance(), params.master_gain(), params.normalization()),
        (1, 2, 3)
    );
    assert_eq!((params.volume_leveling(), params.filter_q()), (4, 5));
    assert!(!params.is_enabled() && !params.eq_on());
}

#[test]
fn only_changed_parameters_reach_the_engine() {
    let mut params = SharedParams::default();
    let mut applier = ParamApplier::new();
    let first =
        vec![DspOp::SetPower(true), DspOp::SetEqOn(true), DspOp::SetNumBands(10)];
    assert_eq!(applier.apply(&params), RoundStep::ReadGrid { ops: first, bands: 10 });
    // Until the grid has come, nothing else does.
    assert_eq!(applier.apply(&params), RoundStep::ReadGrid { ops: vec![], bands: 10 });
    let freqs: Vec<u32> = (0..10).map(|i| (100.0f32 * (i + 1) as f32).to_bits()).collect();
    let ops = applier.conclude(&mut params, &freqs, &vec![0; 10]);
    assert_eq!(f32::from_bits(params.band_freq(9)), 1000.0);
    assert_eq!(ops.len(), 5 + 10 + 5);
    assert_eq!(ops[0], DspOp::SetEffect { effect: 0, level: 0 });
    assert_eq!(ops[14], DspOp::SetBandGain { band: 9, gain: 0 });
    assert_eq!(ops[19], DspOp::SetFilterQ(1.0f32.to_bits()));

    // Publishing the grid marked the parameters dirty, but nothing changed.
    assert_eq!(applier.apply(&params), RoundStep::Calls(vec![]));
    assert_eq!(applier.apply(&params), RoundStep::Settled);

    params.set_master_gain(3.0f32.to_bits());
    params.set_band_gain(2, (-0.0f32).to_bits());
    // -0.0 is the level that the engine has already.
    let ops = vec![DspOp::SetMasterGain(3.0f32.to_bits())];
    assert_eq!(applier.apply(&params), RoundStep::Calls(ops));

    // What is not a number is never there already.
    params.set_balance(f32::NAN.to_bits());
    for _ in 0..2 {
        params.bump();
        let ops = vec![DspOp::SetBalance(f32::NAN.to_bits())];
        assert_eq!(applier.apply(&params), RoundStep::Calls(ops));
    }
    applier.refresh();
    assert!(applier.apply(&params) != RoundStep::Settled);
}

/// An engine that spaces its bands evenly.
struct Spaced {
    bands: usize,
    gains: Vec<u32>,
}

impl Spaced {
    fn freq(&self, band: usize) -> f32 {
        20_000.0 * (band + 1) as f32 / self.bands as f32
    }

    fn perform(&mut self, op: DspOp) {
        match op {
            DspOp::SetNumBands(bands) => {
                self.bands = bands;
                self.gains.resize(bands, 0);
            }
            DspOp::SetBandGain { band, gain } => self.gains[band] = gain,
            _ => {}
        }
    }
}

fn apply(applier: &mut ParamApplier, dsp: &mut Spaced, params: &mut SharedParams) {
    match applier.apply(params) {
        RoundStep::Settled => {}
        RoundStep::ReadGrid { ops, bands } => {
            ops.into_iter().for_each(|op| dsp.perform(op));
            let freqs: Vec<u32> = (0..bands).map(|band| dsp.freq(band).to_bits()).collect();
            let gains = dsp.gains[..bands].to_vec();
            for op in applier.conclude(params, &freqs, &gains) {
                dsp.perform(op);
            }
        }
        RoundStep::Calls(ops) => ops.into_iter().for_each(|op| dsp.perform(op)),
    }
}

#[test]
fn band_counts_round_trip_with_a_full_grid() {
    let mut dsp = Spaced { bands: 10, gains: vec![0; 10] };
    let mut params = SharedParams::default();
    let mut applier = ParamApplier::new();
    // The forward pass, then a backward pass, then a few revisits.
    let choices = [5usize, 10, 15, 20, 31];
    let walk: Vec<usize> = choices
        .iter()
        .copied()
        .chain(choices.iter().rev().copied())
        .chain([5, 10, 5, 31, 31, 15, 5])
        .collect();
    for (step, chosen) in walk.iter().copied().enumerate() {
        params.set_num_bands(chosen);
        apply(&mut applier, &mut dsp, &mut params);

        let bands = params.num_bands();
        assert_eq!(bands, chosen, "step {step}: the applier clamped {chosen} away");
        let freqs: Vec<f32> =
            (0..bands).map(|band| f32::from_bits(params.band_freq(band))).collect();
        assert!(freqs.iter().all(|hz| *hz > 0.0), "step {step}, {chosen} bands: {freqs:?}");
        assert!(
            freqs.windows(2).all(|pair| pair[0] < pair[1]),
            "step {step}, {chosen} bands are not ascending: {freqs:?}"
        );
        assert_eq!(dsp.bands, chosen, "step {step}: the applier never pushed {chosen} bands on");
        for (band, hz) in freqs.iter().enumerate() {
            assert!((hz - dsp.freq(band)).abs() < 0.5, "step {step}, band {band}: {hz}");
        }
    }
}

#[test]
fn a_new_band_count_refreshes_every_gain() {
    let mut params = SharedParams::default();
    let mut applier = ParamApplier::new();
    for chosen in [5usize, 10, 15, 20, 31, 31, 20, 5] {
        params.set_num_bands(chosen);
        let before = applier.applied_bands;
        let ops = match applier.apply(&params) {
            RoundStep::ReadGrid { ops, bands } => {
                assert_eq!(ops.last(), Some(&DspOp::SetNumBands(chosen)));
                assert_eq!(bands, chosen);
                applier.conclude(&mut params, &vec![7; bands], &vec![8; bands])
            }
            RoundStep::Calls(ops) => ops,
            RoundStep::Settled => panic!("dirty"),
        };
        assert_eq!((params.band_freq(chosen - 1), params.band_gain(0)), (7, 8));
        let gains = ops.iter().filter(|op| matches!(op, DspOp::SetBandGain { .. })).count();
        assert_eq!(gains, if before == chosen { 0 } else { chosen });
    }
}

#[test]
fn a_loaded_preset_is_mirrored() {
    let mut params = SharedParams::default();
    params.set_eq_on(false);
    params.set_band_gain(5, 77);
    let readback = PresetReadback {
        effects: [1, 2, 3, 4, 5],
        num_bands: 3,
        gains: vec![10, 11, 12],
        freqs: vec![20, 21, 22],
        balance: 30,
        master_gain: 31,
        normalization: 32,
        volume_leveling: 33,
        filter_q: 34,
    };
    let before = params.generation();
    mirror_preset(&mut params, &readback);
    assert!(params.eq_on());
    assert_eq!((0..5).map(|e| params.effect(e)).collect::<Vec<_>>(), vec![1, 2, 3, 4, 5]);
    assert_eq!(params.num_bands(), 3);
    assert_eq!((params.band_gain(2), params.band_gain(5)), (12, 77));
    assert_eq!((params.band_freq(0), params.band_freq(3)), (20, 0));
    assert_eq!((params.balance(), params.filter_q()), (30, 34));
    assert_eq!(params.generation(), before + 15);
    let negative = PresetReadback {
        num_bands: -1,
        gains: vec![0; 31],
        freqs: vec![0; 31],
        ..readback
    };
    mirror_preset(&mut params, &negative);
    assert_eq!(params.num_bands(), 31);
}

fn raw(tag: u16, bits: u16, valid_bits: u16, sub_format: u128) -> RawFormat {
    RawFormat { tag, channels: 2, rate: 48_000, bits, valid_bits, sub_format }
}

#[test]
fn formats_are_narrowed_to_those_that_can_be_converted() {
    let kind = |r| StreamFormat::from_raw(r).map(|f| f.kind);
    assert_eq!(kind(raw(3, 32, 0, 0)), Some(SampleKind::Float32));
    assert_eq!(kind(raw(1, 16, 0, 0)), Some(SampleKind::Pcm16));
    assert_eq!(kind(raw(1, 32, 24, 0)), Some(SampleKind::Pcm32));
    assert_eq!(kind(raw(1, 24, 0, 0)), None);
    assert_eq!(kind(raw(2, 16, 0, 0)), None);
    let ext = 0xfffe;
    assert_eq!(kind(raw(ext, 32, 32, KSDATAFORMAT_SUBTYPE_IEEE_FLOAT)), Some(SampleKind::Float32));
    assert_eq!(kind(raw(ext, 32, 24, KSDATAFORMAT_SUBTYPE_PCM)), Some(SampleKind::Pcm24In32));
    assert_eq!(kind(raw(ext, 32, 32, KSDATAFORMAT_SUBTYPE_PCM)), Some(SampleKind::Pcm32));
    assert_eq!(kind(raw(ext, 16, 16, KSDATAFORMAT_SUBTYPE_PCM)), Some(SampleKind::Pcm16));
    assert_eq!(kind(raw(ext, 24, 24, KSDATAFORMAT_SUBTYPE_PCM)), None);
    assert_eq!(kind(raw(ext, 32, 32, 7)), None);
    let format = StreamFormat::from_raw(raw(ext, 32, 24, KSDATAFORMAT_SUBTYPE_PCM)).unwrap();
    assert_eq!(format.describe(), "48000 Hz, 2 ch, 24/32 int");
    assert_eq!(format.frame_bytes(), 8);
    let format = StreamFormat::from_raw(raw(3, 32, 0, 0)).unwrap();
    assert_eq!(format.describe(), "48000 Hz, 2 ch, 32/32 float");
}

#[test]
fn the_status_is_summed_up() {
    let mut status = EngineStatus::default();
    assert_eq!(status.summary(), "stopped");
    status.running = true;
    assert_eq!(status.summary(), "no virtual sound card");
    status.virtual_present = true;
    status.rendered_frames = 480;
    assert_eq!(status.summary(), "480 frames rendered, clean");
    status.underruns = 3;
    assert_eq!(status.summary(), "480 frames rendered, 3 underrun frame(s)");
    status.note_preset_written("x.fac".to_owned(), true);
    assert_eq!(status.presets_revision(), 1);
    assert_eq!(status.last_save(), Some(("x.fac".to_owned(), true)));
    status.set_active_preset(Some("p"));
    assert_eq!(status.active_preset(), Some("p".to_owned()));
    status.set_active_preset(None);
    assert_eq!(status.active_preset(), None);
    status.set_error("e".to_owned());
    assert_eq!(status.last_error(), Some("e".to_owned()));
    status.clear_error();
    assert_eq!(status.last_error(), None);
    assert_eq!(status.spectrum(10), 0);
}

#[test]
fn reasons_have_words() {
    let words: Vec<&str> = [
        RebuildReason::Startup,
        RebuildReason::Requested,
        RebuildReason::DefaultDeviceChanged,
        RebuildReason::DeviceUnplugged,
        RebuildReason::Error,
    ]
    .iter()
    .map(|r| r.describe())
    .collect();
    assert_eq!(
        words,
        vec![
            "startup",
            "requested",
            "default device changed",
            "device removed",
            "recovering from an error"
        ]
    );
}

#[test]
fn the_engine_takes_wide_text() {
    assert_eq!(ffi::to_wide_str("aé😀"), vec![0x61, 0xe9, 0xd83d, 0xde00, 0]);
    assert!(ffi::may_save_preset("x", true));
    assert!(!ffi::may_save_preset("", true));
    assert!(!ffi::may_save_preset("x", false));
    assert_eq!(ffi::preset_name(&[0x97f3, 0x4e50, 0], 2), Some("音乐".to_owned()));
    assert_eq!(ffi::preset_name(&[0x41], 5), Some("A".to_owned()));
    assert_eq!(ffi::preset_name(&[0x41], -1), None);
    assert!(ffi::succeeded(ffi::DFXDSP_OK));
    assert!(!ffi::succeeded(ffi::DFXDSP_ERR));
}
