//! Hands the shared parameters to the DSP engine, but only what changed.
//!
//! Changing the number of bands makes the engine compute a new grid, which has
//! to be read back before the gains are compared. [`ParamApplier::apply`] then
//! asks for the grid, and goes on asking until [`ParamApplier::conclude`] has
//! got it.

use crate::engine::{next_count, SharedParams, MAX_BANDS};
use crate::ffi::DFX_EFFECT_COUNT;
use crate::float::{self, is_nan, same};
use vstd::prelude::*;

verus! {

/// One call into the DSP engine. Levels are the bits of an `f32`.
#[derive(Debug, Clone, Copy, PartialEq, Eq, Structural)]
pub enum DspOp {
    SetPower(bool),
    SetEqOn(bool),
    SetNumBands(usize),
    SetEffect { effect: i32, level: u32 },
    SetBandGain { band: usize, gain: u32 },
    SetBalance(u32),
    SetMasterGain(u32),
    SetNormalization(u32),
    SetVolumeLeveling(u32),
    SetFilterQ(u32),
}

/// What a round asks for next.
#[derive(Debug, PartialEq, Eq)]
pub enum RoundStep {
    /// Nothing changed since the last round, and there is none.
    Settled,
    /// Make these calls, read the grid of so many bands back, and hand it to
    /// [`ParamApplier::conclude`].
    ReadGrid { ops: Vec<DspOp>, bands: usize },
    /// Make these calls, and the round is over.
    Calls(Vec<DspOp>),
}

/// What the DSP engine was last told.
pub struct ParamApplier {
    pub last_generation: u64,
    /// The number of bands was handed over, and its grid not read back yet.
    pub grid_due: bool,
    pub applied_power: Option<bool>,
    pub applied_eq_on: Option<bool>,
    pub applied_bands: usize,
    pub applied_effects: [Option<u32>; 5],
    pub applied_gains: [Option<u32>; 31],
    pub applied_balance: Option<u32>,
    pub applied_master: Option<u32>,
    pub applied_normalization: Option<u32>,
    pub applied_volume_leveling: Option<u32>,
    pub applied_filter_q: Option<u32>,
}

/// Whether the engine already has a level. Levels compare as numbers: what is
/// not a number is never there already.
pub open spec fn is_applied(applied: Option<u32>, value: u32) -> bool {
    applied is Some && same(applied->0, value)
}

/// What is remembered once a level has been handed over.
pub open spec fn synced(applied: Option<u32>, value: u32) -> Option<u32> {
    if is_applied(applied, value) {
        applied
    } else {
        Some(value)
    }
}

/// The call that a level asks for, if the engine does not have it.
pub open spec fn sync_op(applied: Option<u32>, value: u32, op: DspOp) -> Seq<DspOp> {
    if is_applied(applied, value) {
        Seq::empty()
    } else {
        seq![op]
    }
}

/// The calls that the first `n` effects ask for.
pub open spec fn effect_ops(applied: Seq<Option<u32>>, values: Seq<u32>, n: int) -> Seq<DspOp>
    decreases n,
{
    if n <= 0 {
        Seq::empty()
    } else {
        effect_ops(applied, values, n - 1) + sync_op(
            applied[n - 1],
            values[n - 1],
            DspOp::SetEffect { effect: (n - 1) as i32, level: values[n - 1] },
        )
    }
}

/// The calls that the gains of the first `n` bands ask for.
pub open spec fn gain_ops(applied: Seq<Option<u32>>, values: Seq<u32>, n: int) -> Seq<DspOp>
    decreases n,
{
    if n <= 0 {
        Seq::empty()
    } else {
        gain_ops(applied, values, n - 1) + sync_op(
            applied[n - 1],
            values[n - 1],
            DspOp::SetBandGain { band: (n - 1) as usize, gain: values[n - 1] },
        )
    }
}

/// What is remembered of the first `n` levels once they have been handed over.
pub open spec fn all_synced(applied: Seq<Option<u32>>, values: Seq<u32>, n: int) -> Seq<
    Option<u32>,
> {
    Seq::new(
        applied.len(),
        |i: int|
            if i < n {
                synced(applied[i], values[i])
            } else {
                applied[i]
            },
    )
}

/// The calls of the first half of a round.
pub open spec fn begin_ops(a: ParamApplier, p: SharedParams) -> Seq<DspOp> {
    (if a.applied_power == Some(p.enabled) {
        Seq::empty()
    } else {
        seq![DspOp::SetPower(p.enabled)]
    }) + (if a.applied_eq_on == Some(p.eq_on) {
        Seq::empty()
    } else {
        seq![DspOp::SetEqOn(p.eq_on)]
    }) + (if a.applied_bands == p.num_bands {
        Seq::empty()
    } else {
        seq![DspOp::SetNumBands(p.num_bands)]
    })
}

/// How many bands have a gain.
pub open spec fn gain_count(bands: usize) -> int {
    if bands < 31 {
        bands as int
    } else {
        31
    }
}

/// The calls of the second half of a round.
pub open spec fn finish_ops(a: ParamApplier, p: SharedParams) -> Seq<DspOp> {
    effect_ops(a.applied_effects@, p.effects@, 5) + gain_ops(
        a.applied_gains@,
        p.band_gains@,
        gain_count(a.applied_bands),
    ) + sync_op(a.applied_balance, p.balance, DspOp::SetBalance(p.balance)) + sync_op(
        a.applied_master,
        p.master_gain,
        DspOp::SetMasterGain(p.master_gain),
    ) + sync_op(
        a.applied_normalization,
        p.normalization,
        DspOp::SetNormalization(p.normalization),
    ) + sync_op(
        a.applied_volume_leveling,
        p.volume_leveling,
        DspOp::SetVolumeLeveling(p.volume_leveling),
    ) + sync_op(a.applied_filter_q, p.filter_q, DspOp::SetFilterQ(p.filter_q))
}

/// Whether a round needs the grid: the number of bands is new, or its grid is
/// still to be read back.
pub open spec fn needs_grid(a: ParamApplier, p: SharedParams) -> bool {
    a.grid_due || a.applied_bands != p.num_bands
}

/// What is remembered after the first half of a round that needs no grid.
pub open spec fn switched(a: ParamApplier, p: SharedParams) -> ParamApplier {
    ParamApplier {
        last_generation: p.generation,
        applied_power: Some(p.enabled),
        applied_eq_on: Some(p.eq_on),
        ..a
    }
}

/// What is remembered once the grid is there.
pub open spec fn with_grid(a: ParamApplier) -> ParamApplier {
    ParamApplier { grid_due: false, ..a }
}

/// Whether `b` is what is remembered after the first half of a round.
pub open spec fn begun(a: ParamApplier, p: SharedParams, b: ParamApplier) -> bool {
    &&& if a.applied_bands == p.num_bands {
        b.applied_gains == a.applied_gains
    } else {
        b.applied_gains@ == Seq::new(31, |i: int| None::<u32>)
    }
    &&& b == (ParamApplier {
        last_generation: p.generation,
        grid_due: needs_grid(a, p),
        applied_power: Some(p.enabled),
        applied_eq_on: Some(p.eq_on),
        applied_bands: p.num_bands,
        applied_gains: b.applied_gains,
        ..a
    })
}

/// Whether `b` is what is remembered after the second half of a round.
pub open spec fn finished(a: ParamApplier, p: SharedParams, b: ParamApplier) -> bool {
    &&& b.applied_effects@ == all_synced(a.applied_effects@, p.effects@, 5)
    &&& b.applied_gains@ == all_synced(
        a.applied_gains@,
        p.band_gains@,
        gain_count(a.applied_bands),
    )
    &&& b == (ParamApplier {
        applied_effects: b.applied_effects,
        applied_gains: b.applied_gains,
        applied_balance: synced(a.applied_balance, p.balance),
        applied_master: synced(a.applied_master, p.master_gain),
        applied_normalization: synced(a.applied_normalization, p.normalization),
        applied_volume_leveling: synced(a.applied_volume_leveling, p.volume_leveling),
        applied_filter_q: synced(a.applied_filter_q, p.filter_q),
        ..a
    })
}

/// Remembers a level, and asks for the call if the engine does not have it.
fn sync(applied: &mut Option<u32>, value: u32, op: DspOp, ops: &mut Vec<DspOp>)
    ensures
        *final(applied) == synced(*old(applied), value),
        final(ops)@ == old(ops)@ + sync_op(*old(applied), value, op),
{
    let there: bool = match *applied {
        Some(level) => float::equal(level, value),
        None => false,
    };
    if there {
        assert(ops@ + Seq::<DspOp>::empty() =~= ops@);
    } else {
        ops.push(op);
        *applied = Some(value);
        assert(ops@ =~= old(ops)@ + seq![op]);
    }
}

impl ParamApplier {
    /// The engine has been told nothing yet.
    pub fn new() -> (r: Self)
        ensures
            r.last_generation == 0,
            !r.grid_due,
            r.applied_power is None,
            r.applied_eq_on is None,
            r.applied_bands == 0,
            forall|i: int| 0 <= i < 5 ==> (#[trigger] r.applied_effects@[i]) is None,
            forall|i: int| 0 <= i < 31 ==> (#[trigger] r.applied_gains@[i]) is None,
            r.applied_balance is None,
            r.applied_master is None,
            r.applied_normalization is None,
            r.applied_volume_leveling is None,
            r.applied_filter_q is None,
    {
        ParamApplier {
            last_generation: 0,
            grid_due: false,
            applied_power: None,
            applied_eq_on: None,
            applied_bands: 0,
            applied_effects: [None;5],
            applied_gains: [None;31],
            applied_balance: None,
            applied_master: None,
            applied_normalization: None,
            applied_volume_leveling: None,
            applied_filter_q: None,
        }
    }

    /// Makes the next round look at everything again.
    pub fn refresh(&mut self)
        ensures
            *final(self) == (ParamApplier { last_generation: 0, ..*old(self) }),
    {
        self.last_generation = 0;
    }

    /// Goes through a round: what changed since the last one is handed over.
    ///
    /// Cheap in the common case: nothing changed, and there is no round. Where
    /// the number of bands is new, the round stops for the grid; until that has
    /// come, every round asks for it.
    pub fn apply(&mut self, params: &SharedParams) -> (r: RoundStep)
        ensures
            (match r {
                RoundStep::Settled => {
                    &&& params.generation == old(self).last_generation && !old(self).grid_due
                    &&& *final(self) == *old(self)
                },
                RoundStep::ReadGrid { ops, bands } => {
                    &&& params.generation != old(self).last_generation || old(self).grid_due
                    &&& needs_grid(*old(self), *params)
                    &&& ops@ == begin_ops(*old(self), *params)
                    &&& bands == gain_count(params.num_bands)
                    &&& begun(*old(self), *params, *final(self))
                },
                RoundStep::Calls(ops) => {
                    &&& params.generation != old(self).last_generation
                    &&& !needs_grid(*old(self), *params)
                    &&& ops@ == begin_ops(*old(self), *params) + finish_ops(
                        switched(*old(self), *params),
                        *params,
                    )
                    &&& finished(switched(*old(self), *params), *params, *final(self))
                },
            }),
    {
        if params.generation == self.last_generation && !self.grid_due {
            return RoundStep::Settled;
        }
        let mut ops = self.begin(params);
        if self.grid_due {
            let bands: usize = if params.num_bands < MAX_BANDS {
                params.num_bands
            } else {
                MAX_BANDS
            };
            return RoundStep::ReadGrid { ops, bands };
        }
        assert(*self == switched(*old(self), *params));
        let mut rest = self.finish(params);
        ops.append(&mut rest);
        RoundStep::Calls(ops)
    }

    /// Takes the grid that the engine computed for a new number of bands, and
    /// ends the round: the centre frequencies and gains are published, and then
    /// everything else is handed over.
    pub fn conclude(
        &mut self,
        params: &mut SharedParams,
        freqs: &Vec<u32>,
        gains: &Vec<u32>,
    ) -> (r: Vec<DspOp>)
        requires
            freqs@.len() == gains@.len() == gain_count(old(self).applied_bands),
        ensures
            published(*old(params), freqs@, gains@, *final(params)),
            final(params).band_freqs@.take(gain_count(old(self).applied_bands)) == freqs@,
            final(params).band_gains@.take(gain_count(old(self).applied_bands)) == gains@,
            r@ == finish_ops(with_grid(*old(self)), *final(params)),
            finished(with_grid(*old(self)), *final(params), *final(self)),
    {
        publish_grid(params, freqs, gains);
        assert(params.band_freqs@.take(freqs@.len() as int) =~= freqs@);
        assert(params.band_gains@.take(gains@.len() as int) =~= gains@);
        self.grid_due = false;
        self.finish(params)
    }

    /// Begins a round: the switches and the number of bands.
    fn begin(&mut self, params: &SharedParams) -> (r: Vec<DspOp>)
        ensures
            r@ == begin_ops(*old(self), *params),
            begun(*old(self), *params, *final(self)),
    {
        self.last_generation = params.generation;
        let mut ops: Vec<DspOp> = Vec::new();
        let power_known: bool = match self.applied_power {
            Some(on) => on == params.enabled,
            None => false,
        };
        if !power_known {
            ops.push(DspOp::SetPower(params.enabled));
            self.applied_power = Some(params.enabled);
        }
        let eq_known: bool = match self.applied_eq_on {
            Some(on) => on == params.eq_on,
            None => false,
        };
        if !eq_known {
            ops.push(DspOp::SetEqOn(params.eq_on));
            self.applied_eq_on = Some(params.eq_on);
        }
        if self.applied_bands != params.num_bands {
            ops.push(DspOp::SetNumBands(params.num_bands));
            self.applied_bands = params.num_bands;
            self.grid_due = true;
            // The band count changed the grid, so every gain is refreshed.
            self.applied_gains = [None;31];
            assert(self.applied_gains@ =~= Seq::new(31, |i: int| None::<u32>));
        }
        assert(ops@ =~= begin_ops(*old(self), *params));
        ops
    }

    /// Ends a round: the effects, the gains and the other levels.
    fn finish(&mut self, params: &SharedParams) -> (r: Vec<DspOp>)
        ensures
            r@ == finish_ops(*old(self), *params),
            finished(*old(self), *params, *final(self)),
    {
        let ghost a = *self;
        let mut ops: Vec<DspOp> = Vec::new();
        let mut effect: i32 = 0;
        assert(self.applied_effects@ =~= all_synced(a.applied_effects@, params.effects@, 0));
        while effect < DFX_EFFECT_COUNT
            invariant
                0 <= effect <= 5,
                *self == (ParamApplier { applied_effects: self.applied_effects, ..a }),
                self.applied_effects@ == all_synced(
                    a.applied_effects@,
                    params.effects@,
                    effect as int,
                ),
                ops@ == effect_ops(a.applied_effects@, params.effects@, effect as int),
            decreases 5 - effect,
        {
            let value: u32 = params.effects[effect as usize];
            let mut slot: Option<u32> = self.applied_effects[effect as usize];
            sync(&mut slot, value, DspOp::SetEffect { effect, level: value }, &mut ops);
            self.applied_effects[effect as usize] = slot;
            assert(self.applied_effects@ =~= all_synced(
                a.applied_effects@,
                params.effects@,
                effect + 1,
            ));
            effect = effect + 1;
        }
        let ghost b = *self;
        let ghost first = ops@;
        let count: usize = if self.applied_bands < MAX_BANDS {
            self.applied_bands
        } else {
            MAX_BANDS
        };
        let mut band: usize = 0;
        assert(self.applied_gains@ =~= all_synced(a.applied_gains@, params.band_gains@, 0));
        assert(ops@ =~= first + gain_ops(a.applied_gains@, params.band_gains@, 0));
        while band < count
            invariant
                band <= count <= 31,
                a.applied_gains == b.applied_gains,
                *self == (ParamApplier { applied_gains: self.applied_gains, ..b }),
                self.applied_gains@ == all_synced(
                    a.applied_gains@,
                    params.band_gains@,
                    band as int,
                ),
                ops@ == first + gain_ops(a.applied_gains@, params.band_gains@, band as int),
            decreases count - band,
        {
            let value: u32 = params.band_gains[band];
            let mut slot: Option<u32> = self.applied_gains[band];
            let ghost before = ops@;
            sync(&mut slot, value, DspOp::SetBandGain { band, gain: value }, &mut ops);
            self.applied_gains[band] = slot;
            proof {
                assert(self.applied_gains@ =~= all_synced(
                    a.applied_gains@,
                    params.band_gains@,
                    band + 1,
                ));
                assert(ops@ =~= first + gain_ops(a.applied_gains@, params.band_gains@, band + 1));
            }
            band = band + 1;
        }
        sync(
            &mut self.applied_balance,
            params.balance,
            DspOp::SetBalance(params.balance),
            &mut ops,
        );
        sync(
            &mut self.applied_master,
            params.master_gain,
            DspOp::SetMasterGain(params.master_gain),
            &mut ops,
        );
        sync(
            &mut self.applied_normalization,
            params.normalization,
            DspOp::SetNormalization(params.normalization),
            &mut ops,
        );
        sync(
            &mut self.applied_volume_leveling,
            params.volume_leveling,
            DspOp::SetVolumeLeveling(params.volume_leveling),
            &mut ops,
        );
        sync(
            &mut self.applied_filter_q,
            params.filter_q,
            DspOp::SetFilterQ(params.filter_q),
            &mut ops,
        );
        ops
    }
}

/// The counter after `n` changes.
pub open spec fn after_changes(generation: u64, n: int) -> u64
    decreases n,
{
    if n <= 0 {
        generation
    } else {
        next_count(after_changes(generation, n - 1))
    }
}

proof fn lemma_changes_add(generation: u64, m: int, n: int)
    requires
        0 <= m,
        0 <= n,
    ensures
        after_changes(after_changes(generation, m), n) == after_changes(generation, m + n),
    decreases n,
{
    if n > 0 {
        lemma_changes_add(generation, m, n - 1);
    }
}

/// `values` with the first of them replaced by those of `grid`.
pub open spec fn overlaid(values: Seq<u32>, grid: Seq<u32>, n: int) -> Seq<u32> {
    Seq::new(
        values.len(),
        |i: int|
            if i < n {
                grid[i]
            } else {
                values[i]
            },
    )
}

/// Whether `q` is `p` with a grid published in it.
pub open spec fn published(p: SharedParams, freqs: Seq<u32>, gains: Seq<u32>, q: SharedParams) -> bool {
    &&& q.band_freqs@ == overlaid(p.band_freqs@, freqs, freqs.len() as int)
    &&& q.band_gains@ == overlaid(p.band_gains@, gains, gains.len() as int)
    &&& q == (SharedParams {
        band_freqs: q.band_freqs,
        band_gains: q.band_gains,
        generation: after_changes(p.generation, gains.len() as int),
        ..p
    })
}

/// Publishes the grid that the engine computed for a new number of bands:
/// centre frequencies and gains, as read back for each band.
fn publish_grid(params: &mut SharedParams, freqs: &Vec<u32>, gains: &Vec<u32>)
    requires
        freqs@.len() == gains@.len() <= 31,
    ensures
        published(*old(params), freqs@, gains@, *final(params)),
{
    let ghost p = *params;
    let mut band: usize = 0;
    assert(params.band_freqs@ =~= overlaid(p.band_freqs@, freqs@, 0));
    assert(params.band_gains@ =~= overlaid(p.band_gains@, gains@, 0));
    while band < freqs.len()
        invariant
            band <= freqs@.len() == gains@.len() <= 31,
            params.band_freqs@ == overlaid(p.band_freqs@, freqs@, band as int),
            params.band_gains@ == overlaid(p.band_gains@, gains@, band as int),
            *params == (SharedParams {
                band_freqs: params.band_freqs,
                band_gains: params.band_gains,
                generation: after_changes(p.generation, band as int),
                ..p
            }),
        decreases freqs@.len() - band,
    {
        params.set_band_freq(band, freqs[band]);
        params.set_band_gain(band, gains[band]);
        assert(params.band_freqs@ =~= overlaid(p.band_freqs@, freqs@, band + 1));
        assert(params.band_gains@ =~= overlaid(p.band_gains@, gains@, band + 1));
        band = band + 1;
    }
}

/// What is read back from the engine once it has loaded a preset.
#[derive(Debug)]
pub struct PresetReadback {
    /// Effect levels on the slider scale.
    pub effects: [u32; 5],
    /// The number of bands that the engine reports.
    pub num_bands: i32,
    /// Gain and centre frequency of each band.
    pub gains: Vec<u32>,
    pub freqs: Vec<u32>,
    pub balance: u32,
    pub master_gain: u32,
    pub normalization: u32,
    pub volume_leveling: u32,
    pub filter_q: u32,
}

/// How many bands a read-back number stands for.
pub open spec fn reported_bands(n: i32) -> int {
    if n < 0 || n > 31 {
        31
    } else {
        n as int
    }
}

/// Mirrors a loaded preset into the shared parameters, so that the UI shows
/// what is actually playing: the engine, and not the file, is the source of
/// truth for the result.
pub fn mirror_preset(params: &mut SharedParams, readback: &PresetReadback)
    requires
        readback.gains@.len() == readback.freqs@.len() == reported_bands(readback.num_bands),
    ensures
        final(params).wf(),
        final(params).enabled == old(params).enabled,
        final(params).eq_on,
        final(params).effects@ == readback.effects@,
        final(params).num_bands == (if readback.num_bands == 0 {
            1
        } else {
            reported_bands(readback.num_bands)
        }),
        final(params).band_gains@ == overlaid(
            old(params).band_gains@,
            readback.gains@,
            reported_bands(readback.num_bands),
        ),
        final(params).band_freqs@ == overlaid(
            old(params).band_freqs@,
            readback.freqs@,
            reported_bands(readback.num_bands),
        ),
        final(params).balance == readback.balance,
        final(params).master_gain == readback.master_gain,
        final(params).normalization == readback.normalization,
        final(params).volume_leveling == readback.volume_leveling,
        final(params).filter_q == readback.filter_q,
        final(params).generation == after_changes(
            old(params).generation,
            12 + reported_bands(readback.num_bands),
        ),
{
    let ghost p = *params;
    let ghost g = p.generation;
    let ghost n = reported_bands(readback.num_bands);
    proof {
        lemma_changes_add(g, 1, 5);
        lemma_changes_add(g, 6, 1);
        lemma_changes_add(g, 7, n);
        lemma_changes_add(g, 7 + n, 1);
        lemma_changes_add(g, 8 + n, 1);
        lemma_changes_add(g, 9 + n, 1);
        lemma_changes_add(g, 10 + n, 1);
        lemma_changes_add(g, 11 + n, 1);
        reveal_with_fuel(after_changes, 2);
    }
    params.set_eq_on(true);
    let mut effect: i32 = 0;
    assert(params.effects@ =~= overlaid(p.effects@, readback.effects@, 0));
    while effect < DFX_EFFECT_COUNT
        invariant
            0 <= effect <= 5,
            params.effects@ == overlaid(p.effects@, readback.effects@, effect as int),
            *params == (SharedParams {
                eq_on: true,
                effects: params.effects,
                generation: after_changes(g, 1 + effect),
                ..p
            }),
        decreases 5 - effect,
    {
        params.set_effect(effect, readback.effects[effect as usize]);
        assert(params.effects@ =~= overlaid(p.effects@, readback.effects@, effect + 1));
        effect = effect + 1;
    }
    assert(params.effects@ =~= readback.effects@);
    let bands: usize = if readback.num_bands < 0 {
        MAX_BANDS
    } else {
        readback.num_bands as usize
    };
    params.set_num_bands(bands);
    publish_grid(params, &readback.freqs, &readback.gains);
    params.set_balance(readback.balance);
    params.set_master_gain(readback.master_gain);
    params.set_normalization(readback.normalization);
    params.set_volume_leveling(readback.volume_leveling);
    params.set_filter_q(readback.filter_q);
}

// ---------------------------------------------------------------------------
// What holds of rounds
// ---------------------------------------------------------------------------

/// Whether all levels are numbers.
pub open spec fn all_numbers(p: SharedParams) -> bool {
    &&& forall|i: int| 0 <= i < 5 ==> !is_nan(#[trigger] p.effects@[i])
    &&& forall|i: int| 0 <= i < 31 ==> !is_nan(#[trigger] p.band_gains@[i])
    &&& !is_nan(p.balance)
    &&& !is_nan(p.master_gain)
    &&& !is_nan(p.normalization)
    &&& !is_nan(p.volume_leveling)
    &&& !is_nan(p.filter_q)
}

proof fn lemma_synced_levels(applied: Seq<Option<u32>>, values: Seq<u32>, n: int, k: int)
    requires
        0 <= k <= n <= applied.len() == values.len(),
        forall|i: int| 0 <= i < n ==> !is_nan(#[trigger] values[i]),
    ensures
        effect_ops(all_synced(applied, values, n), values, k).len() == 0,
        gain_ops(all_synced(applied, values, n), values, k).len() == 0,
    decreases k,
{
    if k > 0 {
        lemma_synced_levels(applied, values, n, k - 1);
        assert(!is_nan(values[k - 1]));
    }
}

/// Rounds settle: once a round has been carried out, another one with the same
/// parameters asks the engine for nothing. `b` is what is remembered before the
/// second half of the round.
pub proof fn rounds_settle(b: ParamApplier, c: ParamApplier, p: SharedParams)
    requires
        finished(b, p, c),
        !b.grid_due,
        b.applied_power == Some(p.enabled),
        b.applied_eq_on == Some(p.eq_on),
        b.applied_bands == p.num_bands,
        all_numbers(p),
    ensures
        !needs_grid(c, p),
        begin_ops(c, p).len() == 0,
        finish_ops(switched(c, p), p).len() == 0,
{
    lemma_synced_levels(b.applied_effects@, p.effects@, 5, 5);
    let n = gain_count(p.num_bands);
    lemma_synced_levels(b.applied_gains@, p.band_gains@, n, n);
}

/// One whole round, on an engine that computes the grid `grid` for a number of
/// bands: from `a` and `p` to `c` and `q`, with `b` remembered and `gains` read
/// back where it stops for the grid.
pub open spec fn round(
    a: ParamApplier,
    p: SharedParams,
    grid: spec_fn(usize) -> Seq<u32>,
    gains: Seq<u32>,
    b: ParamApplier,
    c: ParamApplier,
    q: SharedParams,
) -> bool {
    if p.generation == a.last_generation && !a.grid_due {
        c == a && q == p
    } else if needs_grid(a, p) {
        &&& begun(a, p, b)
        &&& published(p, grid(b.applied_bands), gains, q)
        &&& finished(with_grid(b), q, c)
    } else {
        finished(switched(a, p), p, c) && q == p
    }
}

/// Whether what is published begins with the grid of the number of bands that
/// was handed over last, if one was.
pub open spec fn in_step(a: ParamApplier, p: SharedParams, grid: spec_fn(usize) -> Seq<u32>) -> bool {
    !a.grid_due && a.applied_bands > 0 ==> p.band_freqs@.take(gain_count(a.applied_bands)) == grid(
        a.applied_bands,
    )
}

/// The grid that is published is the engine's, however often the number of
/// bands changes: every round keeps it in step, and after a round that had
/// something to do it is the grid of the number of bands that is set.
pub proof fn the_grid_is_in_step(
    a: ParamApplier,
    p: SharedParams,
    grid: spec_fn(usize) -> Seq<u32>,
    gains: Seq<u32>,
    b: ParamApplier,
    c: ParamApplier,
    q: SharedParams,
)
    requires
        forall|n: usize| (#[trigger] grid(n)).len() == gain_count(n),
        in_step(a, p, grid),
        p.num_bands > 0,
        round(a, p, grid, gains, b, c, q),
    ensures
        in_step(c, q, grid),
        q.num_bands == p.num_bands,
        p.generation != a.last_generation || a.grid_due ==> {
            &&& c.applied_bands == q.num_bands
            &&& q.band_freqs@.take(gain_count(q.num_bands)) == grid(q.num_bands)
        },
{
    let freqs = grid(p.num_bands);
    if needs_grid(a, p) && !(p.generation == a.last_generation && !a.grid_due) {
        assert(q.band_freqs@.take(gain_count(q.num_bands)) =~= freqs);
    }
}

/// A new number of bands makes the round hand over the gain of every band.
pub proof fn a_new_grid_is_handed_over(a: ParamApplier, b: ParamApplier, p: SharedParams, k: int)
    requires
        a.applied_bands != p.num_bands,
        begun(a, p, b),
        0 <= k <= gain_count(p.num_bands),
    ensures
        begin_ops(a, p).last() == DspOp::SetNumBands(p.num_bands),
        gain_ops(b.applied_gains@, p.band_gains@, k).len() == k,
        forall|i: int|
            0 <= i < k ==> #[trigger] gain_ops(b.applied_gains@, p.band_gains@, k)[i]
                == (DspOp::SetBandGain { band: i as usize, gain: p.band_gains@[i] }),
    decreases k,
{
    if k > 0 {
        a_new_grid_is_handed_over(a, b, p, k - 1);
    }
}

/// After a round the engine has every level, as far as it is a number.
pub proof fn a_round_hands_over_everything(b: ParamApplier, c: ParamApplier, p: SharedParams)
    requires
        finished(b, p, c),
        all_numbers(p),
    ensures
        forall|i: int|
            0 <= i < 5 ==> is_applied(#[trigger] c.applied_effects@[i], p.effects@[i]),
        forall|i: int|
            0 <= i < gain_count(b.applied_bands) ==> is_applied(
                #[trigger] c.applied_gains@[i],
                p.band_gains@[i],
            ),
        is_applied(c.applied_balance, p.balance),
        is_applied(c.applied_master, p.master_gain),
        is_applied(c.applied_normalization, p.normalization),
        is_applied(c.applied_volume_leveling, p.volume_leveling),
        is_applied(c.applied_filter_q, p.filter_q),
{
    assert forall|i: int| 0 <= i < 5 implies is_applied(
        #[trigger] c.applied_effects@[i],
        p.effects@[i],
    ) by {
        assert(!is_nan(p.effects@[i]));
    }
    assert forall|i: int| 0 <= i < gain_count(b.applied_bands) implies is_applied(
        #[trigger] c.applied_gains@[i],
        p.band_gains@[i],
    ) by {
        assert(!is_nan(p.band_gains@[i]));
    }
}

// ---------------------------------------------------------------------------
// What the engine hears
// ---------------------------------------------------------------------------

/// An engine, as far as rounds can change it.
#[verifier::ext_equal]
pub struct Heard {
    pub power: bool,
    pub eq_on: bool,
    pub bands: usize,
    pub effects: Seq<u32>,
    pub gains: Seq<u32>,
    pub balance: u32,
    pub master: u32,
    pub normalization: u32,
    pub leveling: u32,
    pub filter_q: u32,
}

/// An engine after a call.
pub open spec fn called(h: Heard, op: DspOp) -> Heard {
    match op {
        DspOp::SetPower(on) => Heard { power: on, ..h },
        DspOp::SetEqOn(on) => Heard { eq_on: on, ..h },
        DspOp::SetNumBands(bands) => Heard { bands, ..h },
        DspOp::SetEffect { effect, level } => Heard {
            effects: h.effects.update(effect as int, level),
            ..h
        },
        DspOp::SetBandGain { band, gain } => Heard { gains: h.gains.update(band as int, gain), ..h },
        DspOp::SetBalance(level) => Heard { balance: level, ..h },
        DspOp::SetMasterGain(level) => Heard { master: level, ..h },
        DspOp::SetNormalization(level) => Heard { normalization: level, ..h },
        DspOp::SetVolumeLeveling(level) => Heard { leveling: level, ..h },
        DspOp::SetFilterQ(level) => Heard { filter_q: level, ..h },
    }
}

/// An engine after calls, one by one.
pub open spec fn called_all(h: Heard, ops: Seq<DspOp>) -> Heard
    decreases ops.len(),
{
    if ops.len() == 0 {
        h
    } else {
        called(called_all(h, ops.drop_last()), ops.last())
    }
}

/// Whether an engine has room for every effect and every band.
pub open spec fn sized(h: Heard) -> bool {
    h.effects.len() == 5 && h.gains.len() == 31
}

/// Whether a level that is heard is the one that is set: the same bits, or the
/// same number.
pub open spec fn level_is(heard: u32, level: u32) -> bool {
    heard == level || same(heard, level)
}

/// Whether what is heard is what is set.
pub open spec fn hears(h: Heard, p: SharedParams) -> bool {
    &&& h.power == p.enabled
    &&& h.eq_on == p.eq_on
    &&& h.bands == p.num_bands
    &&& forall|e: int| 0 <= e < 5 ==> level_is(#[trigger] h.effects[e], p.effects@[e])
    &&& forall|b: int|
        0 <= b < p.num_bands && b < 31 ==> level_is(#[trigger] h.gains[b], p.band_gains@[b])
    &&& level_is(h.balance, p.balance)
    &&& level_is(h.master, p.master_gain)
    &&& level_is(h.normalization, p.normalization)
    &&& level_is(h.leveling, p.volume_leveling)
    &&& level_is(h.filter_q, p.filter_q)
}

/// Whether a level that is remembered, if one is, is the one that is heard.
pub open spec fn recalls(applied: Option<u32>, heard: u32) -> bool {
    applied is Some ==> applied->0 == heard
}

/// Whether everything that is remembered of an engine is true of it. While a
/// grid is due, nothing is remembered of the gains.
pub open spec fn remembers(a: ParamApplier, h: Heard) -> bool {
    &&& a.applied_power is Some ==> a.applied_power->0 == h.power
    &&& a.applied_eq_on is Some ==> a.applied_eq_on->0 == h.eq_on
    &&& a.applied_bands > 0 ==> a.applied_bands == h.bands
    &&& forall|e: int| 0 <= e < 5 ==> recalls(#[trigger] a.applied_effects@[e], h.effects[e])
    &&& forall|b: int| 0 <= b < 31 ==> recalls(#[trigger] a.applied_gains@[b], h.gains[b])
    &&& a.grid_due ==> forall|b: int| 0 <= b < 31 ==> (#[trigger] a.applied_gains@[b]) is None
    &&& recalls(a.applied_balance, h.balance)
    &&& recalls(a.applied_master, h.master)
    &&& recalls(a.applied_normalization, h.normalization)
    &&& recalls(a.applied_volume_leveling, h.leveling)
    &&& recalls(a.applied_filter_q, h.filter_q)
}

proof fn lemma_called_in_turn(h: Heard, a: Seq<DspOp>, b: Seq<DspOp>)
    ensures
        called_all(h, a + b) == called_all(called_all(h, a), b),
    decreases b.len(),
{
    if b.len() == 0 {
        assert(a + b =~= a);
    } else {
        assert((a + b).drop_last() =~= a + b.drop_last());
        assert((a + b).last() == b.last());
        lemma_called_in_turn(h, a, b.drop_last());
    }
}

proof fn lemma_called_once(h: Heard, op: DspOp)
    ensures
        called_all(h, seq![op]) == called(h, op),
        called_all(h, Seq::<DspOp>::empty()) == h,
{
    assert(seq![op].drop_last() =~= Seq::<DspOp>::empty());
    assert(called_all(h, seq![op].drop_last()) == h);
}

/// Levels after those that the engine did not have were handed over.
spec fn given(heard: Seq<u32>, applied: Seq<Option<u32>>, values: Seq<u32>, n: int) -> Seq<u32> {
    Seq::new(
        heard.len(),
        |i: int|
            if i < n && !is_applied(applied[i], values[i]) {
                values[i]
            } else {
                heard[i]
            },
    )
}

proof fn lemma_effects_called(h: Heard, applied: Seq<Option<u32>>, values: Seq<u32>, n: int)
    requires
        sized(h),
        0 <= n <= 5,
    ensures
        called_all(h, effect_ops(applied, values, n)) == (Heard {
            effects: given(h.effects, applied, values, n),
            ..h
        }),
    decreases n,
{
    if n == 0 {
        assert(given(h.effects, applied, values, 0) =~= h.effects);
    } else {
        lemma_effects_called(h, applied, values, n - 1);
        let op = DspOp::SetEffect { effect: (n - 1) as i32, level: values[n - 1] };
        let before = called_all(h, effect_ops(applied, values, n - 1));
        lemma_called_in_turn(
            h,
            effect_ops(applied, values, n - 1),
            sync_op(applied[n - 1], values[n - 1], op),
        );
        lemma_called_once(before, op);
        assert(called_all(h, effect_ops(applied, values, n)).effects =~= given(
            h.effects,
            applied,
            values,
            n,
        ));
    }
}

proof fn lemma_gains_called(h: Heard, applied: Seq<Option<u32>>, values: Seq<u32>, n: int)
    requires
        sized(h),
        0 <= n <= 31,
    ensures
        called_all(h, gain_ops(applied, values, n)) == (Heard {
            gains: given(h.gains, applied, values, n),
            ..h
        }),
    decreases n,
{
    if n == 0 {
        assert(given(h.gains, applied, values, 0) =~= h.gains);
    } else {
        lemma_gains_called(h, applied, values, n - 1);
        let op = DspOp::SetBandGain { band: (n - 1) as usize, gain: values[n - 1] };
        let before = called_all(h, gain_ops(applied, values, n - 1));
        lemma_called_in_turn(
            h,
            gain_ops(applied, values, n - 1),
            sync_op(applied[n - 1], values[n - 1], op),
        );
        lemma_called_once(before, op);
        assert(called_all(h, gain_ops(applied, values, n)).gains =~= given(
            h.gains,
            applied,
            values,
            n,
        ));
    }
}

proof fn lemma_finish_called(b: ParamApplier, p: SharedParams, c: ParamApplier, h: Heard)
    requires
        sized(h),
        remembers(b, h),
        !b.grid_due,
        b.applied_power == Some(p.enabled),
        b.applied_eq_on == Some(p.eq_on),
        b.applied_bands == p.num_bands,
        p.wf(),
        finished(b, p, c),
    ensures
        sized(called_all(h, finish_ops(b, p))),
        hears(called_all(h, finish_ops(b, p)), p),
        remembers(c, called_all(h, finish_ops(b, p))),
{
    let n = gain_count(b.applied_bands);
    let o1 = effect_ops(b.applied_effects@, p.effects@, 5);
    let o2 = gain_ops(b.applied_gains@, p.band_gains@, n);
    let o3 = sync_op(b.applied_balance, p.balance, DspOp::SetBalance(p.balance));
    let o4 = sync_op(b.applied_master, p.master_gain, DspOp::SetMasterGain(p.master_gain));
    let o5 = sync_op(
        b.applied_normalization,
        p.normalization,
        DspOp::SetNormalization(p.normalization),
    );
    let o6 = sync_op(
        b.applied_volume_leveling,
        p.volume_leveling,
        DspOp::SetVolumeLeveling(p.volume_leveling),
    );
    let o7 = sync_op(b.applied_filter_q, p.filter_q, DspOp::SetFilterQ(p.filter_q));
    lemma_effects_called(h, b.applied_effects@, p.effects@, 5);
    let h1 = called_all(h, o1);
    lemma_called_in_turn(h, o1, o2);
    lemma_gains_called(h1, b.applied_gains@, p.band_gains@, n);
    let h2 = called_all(h1, o2);
    lemma_called_in_turn(h, o1 + o2, o3);
    lemma_called_once(h2, DspOp::SetBalance(p.balance));
    let h3 = called_all(h2, o3);
    lemma_called_in_turn(h, o1 + o2 + o3, o4);
    lemma_called_once(h3, DspOp::SetMasterGain(p.master_gain));
    let h4 = called_all(h3, o4);
    lemma_called_in_turn(h, o1 + o2 + o3 + o4, o5);
    lemma_called_once(h4, DspOp::SetNormalization(p.normalization));
    let h5 = called_all(h4, o5);
    lemma_called_in_turn(h, o1 + o2 + o3 + o4 + o5, o6);
    lemma_called_once(h5, DspOp::SetVolumeLeveling(p.volume_leveling));
    let h6 = called_all(h5, o6);
    lemma_called_in_turn(h, o1 + o2 + o3 + o4 + o5 + o6, o7);
    lemma_called_once(h6, DspOp::SetFilterQ(p.filter_q));
    let h7 = called_all(h6, o7);
    assert(called_all(h, finish_ops(b, p)) == h7);
    assert forall|e: int| 0 <= e < 5 implies level_is(#[trigger] h7.effects[e], p.effects@[e])
        && recalls(c.applied_effects@[e], h7.effects[e]) by {
        assert(recalls(b.applied_effects@[e], h.effects[e]));
    }
    assert forall|k: int| 0 <= k < 31 implies recalls(#[trigger] c.applied_gains@[k], h7.gains[k])
        && (k < p.num_bands ==> level_is(h7.gains[k], p.band_gains@[k])) by {
        assert(recalls(b.applied_gains@[k], h.gains[k]));
    }
    assert forall|k: int| 0 <= k < p.num_bands && k < 31 implies level_is(
        #[trigger] h7.gains[k],
        p.band_gains@[k],
    ) by {
        assert(recalls(c.applied_gains@[k], h7.gains[k]));
    }
}

proof fn lemma_begin_called(a: ParamApplier, p: SharedParams, h: Heard)
    requires
        remembers(a, h),
        p.wf(),
    ensures
        called_all(h, begin_ops(a, p)) == (Heard {
            power: p.enabled,
            eq_on: p.eq_on,
            bands: p.num_bands,
            ..h
        }),
{
    let o1 = if a.applied_power == Some(p.enabled) {
        Seq::empty()
    } else {
        seq![DspOp::SetPower(p.enabled)]
    };
    let o2 = if a.applied_eq_on == Some(p.eq_on) {
        Seq::empty()
    } else {
        seq![DspOp::SetEqOn(p.eq_on)]
    };
    let o3 = if a.applied_bands == p.num_bands {
        Seq::empty()
    } else {
        seq![DspOp::SetNumBands(p.num_bands)]
    };
    lemma_called_once(h, DspOp::SetPower(p.enabled));
    let h1 = called_all(h, o1);
    lemma_called_in_turn(h, o1, o2);
    lemma_called_once(h1, DspOp::SetEqOn(p.eq_on));
    let h2 = called_all(h1, o2);
    lemma_called_in_turn(h, o1 + o2, o3);
    lemma_called_once(h2, DspOp::SetNumBands(p.num_bands));
    assert(begin_ops(a, p) =~= o1 + o2 + o3);
}

/// What is set is what is heard: once the calls of a round have been carried
/// out on an engine that everything remembered is true of, the engine has every
/// switch and every level as it is set, and what is remembered is true again.
pub proof fn what_is_set_is_heard(a: ParamApplier, p: SharedParams, c: ParamApplier, h: Heard)
    requires
        sized(h),
        remembers(a, h),
        p.wf(),
        !needs_grid(a, p),
        finished(switched(a, p), p, c),
    ensures
        hears(called_all(h, begin_ops(a, p) + finish_ops(switched(a, p), p)), p),
        remembers(c, called_all(h, begin_ops(a, p) + finish_ops(switched(a, p), p))),
{
    lemma_begin_called(a, p, h);
    let mid = called_all(h, begin_ops(a, p));
    lemma_called_in_turn(h, begin_ops(a, p), finish_ops(switched(a, p), p));
    lemma_finish_called(switched(a, p), p, c, mid);
}

/// What is set is what is heard when the number of bands is new, too: whatever
/// gains the engine comes up with for the new grid, once they have been
/// published and the round concluded, the engine has everything as it is set.
pub proof fn a_new_number_of_bands_is_heard(
    a: ParamApplier,
    p: SharedParams,
    b: ParamApplier,
    h: Heard,
    regridded: Heard,
    freqs: Seq<u32>,
    gains: Seq<u32>,
    q: SharedParams,
    c: ParamApplier,
)
    requires
        sized(h),
        remembers(a, h),
        p.wf(),
        needs_grid(a, p),
        begun(a, p, b),
        sized(regridded),
        regridded == (Heard { gains: regridded.gains, ..called_all(h, begin_ops(a, p)) }),
        published(p, freqs, gains, q),
        finished(with_grid(b), q, c),
    ensures
        called_all(h, begin_ops(a, p)).bands == p.num_bands,
        hears(called_all(regridded, finish_ops(with_grid(b), q)), q),
        remembers(c, called_all(regridded, finish_ops(with_grid(b), q))),
{
    lemma_begin_called(a, p, h);
    assert forall|k: int| 0 <= k < 31 implies (#[trigger] b.applied_gains@[k]) is None by {
        if a.applied_bands == p.num_bands {
            assert(a.applied_gains@[k] is None);
        }
    }
    lemma_finish_called(with_grid(b), q, c, regridded);
}

/// A call that carries out what a round is for: the parameter it names, with
/// the value that is set, where the engine does not have it yet.
pub open spec fn is_owed(op: DspOp, a: ParamApplier, p: SharedParams) -> bool {
    match op {
        DspOp::SetPower(on) => on == p.enabled && a.applied_power != Some(on),
        DspOp::SetEqOn(on) => on == p.eq_on && a.applied_eq_on != Some(on),
        DspOp::SetNumBands(bands) => bands == p.num_bands && a.applied_bands != bands,
        DspOp::SetEffect { effect, level } => {
            &&& 0 <= effect < 5
            &&& level == p.effects@[effect as int]
            &&& !is_applied(a.applied_effects@[effect as int], level)
        },
        DspOp::SetBandGain { band, gain } => {
            &&& band < p.num_bands && band < 31
            &&& gain == p.band_gains@[band as int]
            &&& !is_applied(a.applied_gains@[band as int], gain)
        },
        DspOp::SetBalance(level) => level == p.balance && !is_applied(a.applied_balance, level),
        DspOp::SetMasterGain(level) => level == p.master_gain && !is_applied(
            a.applied_master,
            level,
        ),
        DspOp::SetNormalization(level) => level == p.normalization && !is_applied(
            a.applied_normalization,
            level,
        ),
        DspOp::SetVolumeLeveling(level) => level == p.volume_leveling && !is_applied(
            a.applied_volume_leveling,
            level,
        ),
        DspOp::SetFilterQ(level) => level == p.filter_q && !is_applied(a.applied_filter_q, level),
    }
}

proof fn lemma_levels_owed(a: ParamApplier, p: SharedParams, n: int, m: int)
    requires
        0 <= n <= 5,
        0 <= m <= 31,
        m <= p.num_bands,
    ensures
        forall|k: int|
            0 <= k < effect_ops(a.applied_effects@, p.effects@, n).len() ==> is_owed(
                #[trigger] effect_ops(a.applied_effects@, p.effects@, n)[k],
                a,
                p,
            ),
        forall|k: int|
            0 <= k < gain_ops(a.applied_gains@, p.band_gains@, m).len() ==> is_owed(
                #[trigger] gain_ops(a.applied_gains@, p.band_gains@, m)[k],
                a,
                p,
            ),
    decreases n + m,
{
    if n > 0 {
        lemma_levels_owed(a, p, n - 1, m);
        let before = effect_ops(a.applied_effects@, p.effects@, n - 1);
        assert forall|k: int| 0 <= k < effect_ops(a.applied_effects@, p.effects@, n).len() implies
            is_owed(#[trigger] effect_ops(a.applied_effects@, p.effects@, n)[k], a, p) by {
            if k < before.len() {
                assert(is_owed(before[k], a, p));
            }
        }
    } else if m > 0 {
        lemma_levels_owed(a, p, n, m - 1);
        let before = gain_ops(a.applied_gains@, p.band_gains@, m - 1);
        assert forall|k: int| 0 <= k < gain_ops(a.applied_gains@, p.band_gains@, m).len() implies
            is_owed(#[trigger] gain_ops(a.applied_gains@, p.band_gains@, m)[k], a, p) by {
            if k < before.len() {
                assert(is_owed(before[k], a, p));
            }
        }
    }
}

/// A round asks for nothing but what changed: every call names a parameter with
/// the value that is set, and one that the engine does not have yet.
pub proof fn only_what_changed_is_called(a: ParamApplier, p: SharedParams, k: int)
    requires
        p.wf(),
        !needs_grid(a, p),
        0 <= k < (begin_ops(a, p) + finish_ops(switched(a, p), p)).len(),
    ensures
        is_owed((begin_ops(a, p) + finish_ops(switched(a, p), p))[k], a, p),
{
    lemma_levels_owed(a, p, 5, gain_count(p.num_bands));
    let n = gain_count(p.num_bands);
    let o1 = effect_ops(a.applied_effects@, p.effects@, 5);
    let o2 = gain_ops(a.applied_gains@, p.band_gains@, n);
    let all = begin_ops(a, p) + finish_ops(switched(a, p), p);
    let from = begin_ops(a, p).len() as int;
    if from <= k < from + o1.len() {
        assert(all[k] == o1[k - from]);
    } else if from + o1.len() <= k < from + o1.len() + o2.len() {
        assert(all[k] == o2[k - from - o1.len()]);
    }
}

/// A preset that was loaded shows as it was read back, band by band, and bands
/// that it does not have keep what they had.
pub proof fn a_grid_is_laid_over(values: Seq<u32>, grid: Seq<u32>, n: int, i: int)
    requires
        0 <= i < values.len(),
        n <= grid.len(),
    ensures
        overlaid(values, grid, n).len() == values.len(),
        i < n ==> overlaid(values, grid, n)[i] == grid[i],
        i >= n ==> overlaid(values, grid, n)[i] == values[i],
{
}

proof fn lemma_changes(generation: u64, n: int)
    requires
        0 <= n,
    ensures
        after_changes(generation, n) as int == (generation + n) % 0x1_0000_0000_0000_0000,
    decreases n,
{
    if n > 0 {
        lemma_changes(generation, n - 1);
    }
}

/// A change is noticed: after any number of changes that the counter can tell
/// apart, the next round is not taken for settled.
pub proof fn changes_are_noticed(generation: u64, n: int)
    requires
        0 < n < 0x1_0000_0000_0000_0000,
    ensures
        after_changes(generation, n) != generation,
        next_count(generation) != generation,
{
    lemma_changes(generation, n);
}

/// A preset's bands are those that the engine reports, as far as there is room
/// for them; a number that makes no sense stands for all.
pub proof fn reported_bands_fit(n: i32)
    ensures
        0 <= reported_bands(n) <= 31,
        0 <= n <= 31 ==> reported_bands(n) == n,
        n < 0 || n > 31 ==> reported_bands(n) == 31,
{
}

} // verus!
