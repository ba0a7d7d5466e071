//! The buffer between the capture clock and the render clock, and the channel
//! map in front of it.

use vstd::prelude::*;
use vstd::slice::slice_subrange;

verus! {

/// A bounded first-in, first-out buffer of interleaved frames.
///
/// Producer and consumer live in one thread, so it needs no synchronisation.
pub struct RingBuffer<T> {
    pub data: Vec<T>,
    pub channels: usize,
    pub read_frame: usize,
    pub len_frames: usize,
    pub capacity_frames: usize,
}

/// The samples of frame slot `slot`.
pub open spec fn slot_frame<T>(data: Seq<T>, channels: int, slot: int) -> Seq<T> {
    data.subrange(slot * channels, slot * channels + channels)
}

/// The frames of an interleaved block, as far as they are whole.
pub open spec fn frames_of<T>(block: Seq<T>, channels: int) -> Seq<Seq<T>> {
    Seq::new((block.len() as int / channels) as nat, |i: int| slot_frame(block, channels, i))
}

proof fn lemma_slot_in_range(slot: int, channels: int, capacity: int)
    by (nonlinear_arith)
    requires
        0 <= slot < capacity,
        0 <= channels,
    ensures
        0 <= slot * channels,
        slot * channels + channels <= capacity * channels,
{
}

proof fn lemma_slots_disjoint(a: int, b: int, channels: int)
    by (nonlinear_arith)
    requires
        a < b,
        0 <= channels,
    ensures
        a * channels + channels <= b * channels,
{
}

/// The frames held, oldest first.
impl<T> View for RingBuffer<T> {
    type V = Seq<Seq<T>>;

    open spec fn view(&self) -> Seq<Seq<T>> {
        Seq::new(
            self.len_frames as nat,
            |k: int|
                slot_frame(
                    self.data@,
                    self.channels as int,
                    (self.read_frame + k) % (self.capacity_frames as int),
                ),
        )
    }
}

impl<T: Copy> RingBuffer<T> {
    /// The buffer never holds more than its capacity, and every slot has room
    /// for one frame.
    pub open spec fn wf(&self) -> bool {
        &&& self.data@.len() == self.capacity_frames * self.channels
        &&& self.len_frames <= self.capacity_frames
        &&& self.capacity_frames > 0 ==> self.read_frame < self.capacity_frames
    }

    /// An empty buffer for `capacity_frames` frames of `channels` samples,
    /// whose storage starts out filled with `silence`.
    pub fn new(capacity_frames: usize, channels: usize, silence: T) -> (r: Self)
        requires
            capacity_frames * channels <= usize::MAX,
        ensures
            r.wf(),
            r@ == Seq::<Seq<T>>::empty(),
            r.channels == channels,
            r.capacity_frames == capacity_frames,
    {
        let data: Vec<T> = vec![silence; capacity_frames * channels];
        let r = RingBuffer { data, channels, read_frame: 0, len_frames: 0, capacity_frames };
        assert(r@ =~= Seq::<Seq<T>>::empty());
        r
    }

    /// How many frames are waiting.
    pub fn available(&self) -> (r: usize)
        ensures
            r == self@.len(),
    {
        self.len_frames
    }

    /// Appends one frame. Returns `false` if the buffer was full and the
    /// oldest frame had to be discarded to make room.
    pub fn push_frame(&mut self, frame: &[T]) -> (had_room: bool)
        requires
            old(self).wf(),
            old(self).capacity_frames > 0,
            frame@.len() == old(self).channels,
        ensures
            final(self).wf(),
            final(self).channels == old(self).channels,
            final(self).capacity_frames == old(self).capacity_frames,
            had_room == (old(self)@.len() < old(self).capacity_frames),
            final(self)@ == (if had_room {
                old(self)@
            } else {
                old(self)@.drop_first()
            }).push(frame@),
    {
        let ghost cap = self.capacity_frames as int;
        let ghost ch = self.channels as int;
        let ghost kept = if self.len_frames < self.capacity_frames {
            self@
        } else {
            self@.drop_first()
        };
        let had_room: bool = self.len_frames < self.capacity_frames;
        if !had_room {
            self.read_frame =
            if self.read_frame + 1 == self.capacity_frames {
                0
            } else {
                self.read_frame + 1
            };
            self.len_frames = self.len_frames - 1;
            proof {
                assert forall|k: int| 0 <= k < self.len_frames implies self@[k] == kept[k] by {
                    let r0 = old(self).read_frame as int;
                    assert(kept[k] == old(self)@[k + 1]);
                    if r0 + 1 == cap {
                        vstd::arithmetic::div_mod::lemma_mod_add_multiples_vanish(k, cap);
                        assert((r0 + (k + 1)) % cap == (0 + k) % cap);
                    } else {
                        assert(self.read_frame + k == r0 + (k + 1));
                    }
                }
            }
        }
        assert(self@ =~= kept);
        let room: usize = self.capacity_frames - self.read_frame;
        let write_frame: usize = if self.len_frames < room {
            self.read_frame + self.len_frames
        } else {
            self.len_frames - room
        };
        proof {
            if self.len_frames < room {
                vstd::arithmetic::div_mod::lemma_small_mod(write_frame as nat, cap as nat);
            } else {
                vstd::arithmetic::div_mod::lemma_mod_add_multiples_vanish(write_frame as int, cap);
                vstd::arithmetic::div_mod::lemma_small_mod(write_frame as nat, cap as nat);
                assert(self.read_frame + self.len_frames == cap + write_frame);
            }
            assert(write_frame == (self.read_frame + self.len_frames) % cap);
            lemma_slot_in_range(write_frame as int, ch, cap);
        }
        let total: usize = self.data.len();
        let base: usize = write_frame * self.channels;
        let ghost before = *self;
        let mut i: usize = 0;
        while i < self.channels
            invariant
                i <= ch,
                ch == self.channels == frame@.len(),
                cap == self.capacity_frames,
                self.read_frame == before.read_frame,
                self.len_frames == before.len_frames,
                self.channels == before.channels,
                self.capacity_frames == before.capacity_frames,
                self.data@.len() == before.data@.len() == cap * ch,
                base == write_frame * ch,
                base + ch <= cap * ch == total,
                forall|j: int| 0 <= j < i ==> self.data@[base + j] == frame@[j],
                forall|p: int|
                    0 <= p < self.data@.len() && !(base <= p < base + i) ==> self.data@[p]
                        == before.data@[p],
            decreases ch - i,
        {
            self.data.set(base + i, frame[i]);
            i = i + 1;
        }
        self.len_frames = self.len_frames + 1;
        proof {
            let n = before.len_frames as int;
            assert(self@.len() == n + 1);
            assert(slot_frame(self.data@, ch, write_frame as int) =~= frame@);
            assert forall|k: int| 0 <= k < n implies self@[k] == kept[k] by {
                let slot = (self.read_frame + k) % cap;
                vstd::arithmetic::div_mod::lemma_mod_bound(self.read_frame + k, cap);
                assert(slot != write_frame) by {
                    let a = self.read_frame + k;
                    let b = self.read_frame + n;
                    if a < cap {
                        vstd::arithmetic::div_mod::lemma_small_mod(a as nat, cap as nat);
                        if b >= cap {
                            vstd::arithmetic::div_mod::lemma_mod_add_multiples_vanish(b - cap, cap);
                            vstd::arithmetic::div_mod::lemma_small_mod((b - cap) as nat, cap as nat);
                        } else {
                            vstd::arithmetic::div_mod::lemma_small_mod(b as nat, cap as nat);
                        }
                    } else {
                        vstd::arithmetic::div_mod::lemma_mod_add_multiples_vanish(a - cap, cap);
                        vstd::arithmetic::div_mod::lemma_small_mod((a - cap) as nat, cap as nat);
                        vstd::arithmetic::div_mod::lemma_mod_add_multiples_vanish(b - cap, cap);
                        vstd::arithmetic::div_mod::lemma_small_mod((b - cap) as nat, cap as nat);
                    }
                }
                lemma_slot_in_range(slot, ch, cap);
                if slot < write_frame {
                    lemma_slots_disjoint(slot, write_frame as int, ch);
                } else {
                    lemma_slots_disjoint(write_frame as int, slot, ch);
                }
                assert(slot_frame(self.data@, ch, slot) =~= slot_frame(before.data@, ch, slot));
                assert(before@[k] == kept[k]);
            }
            assert(self@ =~= kept.push(frame@));
        }
        had_room
    }

    /// Moves up to `count` of the oldest frames into the front of `out`.
    /// Returns how many were written; the rest of `out` is left alone.
    pub fn pop_frames(&mut self, count: usize, out: &mut [T]) -> (taken: usize)
        requires
            old(self).wf(),
            old(self).capacity_frames > 0,
            (if count < old(self)@.len() {
                count as int
            } else {
                old(self)@.len() as int
            }) * old(self).channels <= old(out)@.len(),
        ensures
            final(self).wf(),
            final(self).channels == old(self).channels,
            final(self).capacity_frames == old(self).capacity_frames,
            taken == (if count < old(self)@.len() {
                count as int
            } else {
                old(self)@.len() as int
            }),
            final(self)@ == old(self)@.skip(taken as int),
            final(out)@.len() == old(out)@.len(),
            forall|k: int|
                0 <= k < taken ==> #[trigger] slot_frame(final(out)@, old(self).channels as int, k)
                    == old(self)@[k],
            forall|p: int|
                taken * old(self).channels <= p < old(out)@.len() ==> final(out)@[p] == old(
                    out,
                )@[p],
    {
        let take: usize = if count < self.len_frames {
            count
        } else {
            self.len_frames
        };
        let ghost cap = self.capacity_frames as int;
        let ghost ch = self.channels as int;
        let total: usize = self.data.len();
        let room: usize = out.len();
        let mut index: usize = 0;
        while index < take
            invariant
                self.wf(),
                *self == *old(self),
                cap == self.capacity_frames > 0,
                ch == self.channels,
                total == self.data@.len(),
                room == out@.len() == old(out)@.len(),
                index <= take <= self.len_frames,
                take * ch <= room,
                forall|k: int|
                    0 <= k < index ==> #[trigger] slot_frame(out@, ch, k) == self@[k],
                forall|p: int| index * ch <= p < out@.len() ==> out@[p] == old(out)@[p],
            decreases take - index,
        {
            let left: usize = self.capacity_frames - self.read_frame;
            let frame: usize = if index < left {
                self.read_frame + index
            } else {
                index - left
            };
            proof {
                if index < left {
                    vstd::arithmetic::div_mod::lemma_small_mod(frame as nat, cap as nat);
                } else {
                    vstd::arithmetic::div_mod::lemma_mod_add_multiples_vanish(frame as int, cap);
                    vstd::arithmetic::div_mod::lemma_small_mod(frame as nat, cap as nat);
                    assert(self.read_frame + index == cap + frame);
                }
                assert(frame == (self.read_frame + index) % cap);
                lemma_slot_in_range(frame as int, ch, cap);
                lemma_slot_in_range(index as int, ch, take as int);
            }
            let from: usize = frame * self.channels;
            let to: usize = index * self.channels;
            let ghost before = out@;
            let mut j: usize = 0;
            while j < self.channels
                invariant
                    self.wf(),
                    ch == self.channels,
                    total == self.data@.len(),
                    room == out@.len() == before.len(),
                    j <= ch,
                    from + ch <= total,
                    to + ch <= room,
                    forall|p: int| to <= p < to + j ==> out@[p] == self.data@[from + (p - to)],
                    forall|p: int|
                        0 <= p < room && !(to <= p < to + j) ==> out@[p] == before[p],
                decreases ch - j,
            {
                out[to + j] = self.data[from + j];
                j = j + 1;
            }
            proof {
                assert(slot_frame(out@, ch, index as int) =~= slot_frame(
                    self.data@,
                    ch,
                    frame as int,
                ));
                assert forall|k: int| 0 <= k < index + 1 implies #[trigger] slot_frame(out@, ch, k)
                    == self@[k] by {
                    if k < index {
                        lemma_slots_disjoint(k, index as int, ch);
                        assert(0 <= k * ch) by (nonlinear_arith)
                            requires
                                0 <= k,
                                0 <= ch,
                        ;
                        assert(slot_frame(out@, ch, k) =~= slot_frame(before, ch, k));
                    }
                }
                assert((index + 1) * ch == index * ch + ch) by (nonlinear_arith);
            }
            index = index + 1;
        }
        let left: usize = self.capacity_frames - self.read_frame;
        let ghost r0 = self.read_frame as int;
        self.read_frame =
        if take < left {
            self.read_frame + take
        } else {
            take - left
        };
        self.len_frames = self.len_frames - take;
        proof {
            assert forall|k: int| 0 <= k < self.len_frames implies self@[k] == old(self)@[take + k] by {
                if r0 + take >= cap {
                    vstd::arithmetic::div_mod::lemma_mod_add_multiples_vanish(
                        self.read_frame + k,
                        cap,
                    );
                    assert(r0 + (take + k) == cap + (self.read_frame + k));
                } else {
                    assert(r0 + (take + k) == self.read_frame + k);
                }
            }
            assert(self@ =~= old(self)@.skip(take as int));
        }
        take
    }
}

/// Every sample of `values`, `times` times in a row.
pub open spec fn repeated<T>(values: Seq<T>, times: int) -> Seq<T> {
    Seq::new((values.len() * times) as nat, |p: int| values[p / times])
}

/// Every frame of `from` samples widened to `to`: the extra channels repeat
/// channel 0.
pub open spec fn widened<T>(input: Seq<T>, from: int, to: int) -> Seq<T> {
    Seq::new(
        ((input.len() as int / from) * to) as nat,
        |p: int|
            input[(p / to) * from + (if p % to < from {
                p % to
            } else {
                0
            })],
    )
}

/// Whether `value` is what `average` may return for the samples of one frame.
pub open spec fn is_average<T, F: Fn(&[T]) -> T>(average: F, samples: Seq<T>, value: T) -> bool {
    exists|frame: &[T]| frame@ == samples && #[trigger] call_ensures(average, (frame,), value)
}

/// A channel map between two channel counts that keeps the number of frames.
///
/// Up-mixing duplicates channel 0 into the extra outputs; down-mixing gives
/// every output the average of all the inputs, which `average` computes from a
/// frame.
pub fn map_channels<T: Copy, F: Fn(&[T]) -> T>(
    input: &[T],
    from: usize,
    to: usize,
    average: F,
    out: &mut Vec<T>,
)
    requires
        from != to ==> from > 0,
        to < from ==> forall|frame: &[T]| frame@.len() == from ==> call_requires(average, (frame,)),
    ensures
        from == to ==> final(out)@ == old(out)@ + input@,
        from < to ==> final(out)@ == old(out)@ + widened(input@, from as int, to as int),
        to < from ==> exists|averages: Seq<T>|
            {
                &&& averages.len() == input@.len() as int / from as int
                &&& forall|i: int|
                    0 <= i < averages.len() ==> is_average(
                        average,
                        slot_frame(input@, from as int, i),
                        #[trigger] averages[i],
                    )
                &&& final(out)@ == old(out)@ + #[trigger] repeated(averages, to as int)
            },
{
    if from == to {
        let mut i: usize = 0;
        while i < input.len()
            invariant
                i <= input@.len(),
                out@ == old(out)@ + input@.take(i as int),
            decreases input@.len() - i,
        {
            out.push(input[i]);
            assert(input@.take(i + 1) == input@.take(i as int).push(input@[i as int]));
            assert(out@ =~= old(out)@ + input@.take(i + 1));
            i = i + 1;
        }
        assert(input@.take(i as int) == input@);
        return ;
    }
    let size: usize = input.len();
    let frames: usize = size / from;
    let ghost f = from as int;
    let ghost t = to as int;
    assert(frames * f <= input@.len()) by (nonlinear_arith)
        requires
            frames == input@.len() as int / f,
            f > 0,
    ;
    let mut i: usize = 0;
    if to > from {
        assert(old(out)@ =~= out@ + widened(input@, f, t).take(0));
        while i < frames
            invariant
                0 < from < to,
                f == from,
                t == to,
                i <= frames,
                frames == input@.len() as int / f,
                frames * f <= input@.len() == size,
                out@ == old(out)@ + widened(input@, f, t).take(i * t),
            decreases frames - i,
        {
            proof {
                lemma_slot_in_range(i as int, f, frames as int);
                lemma_slot_in_range(i as int, t, frames as int);
            }
            let start: usize = i * from;
            let mut index: usize = 0;
            while index < to
                invariant
                    0 < from < to,
                    f == from,
                    t == to,
                    i < frames,
                    start == i * f,
                    start + f <= input@.len() == size,
                    frames == input@.len() as int / f,
                    0 <= i * t,
                    i * t + t <= frames * t,
                    index <= to,
                    out@ == old(out)@ + widened(input@, f, t).take(i * t + index),
                decreases to - index,
            {
                let pick: usize = if index < from {
                    index
                } else {
                    0
                };
                out.push(input[start + pick]);
                proof {
                    let p = i * t + index;
                    vstd::arithmetic::div_mod::lemma_fundamental_div_mod_converse(
                        p,
                        t,
                        i as int,
                        index as int,
                    );
                    assert(widened(input@, f, t)[p] == input@[start + pick]);
                    assert(widened(input@, f, t).take(p + 1) =~= widened(input@, f, t).take(p).push(
                        widened(input@, f, t)[p],
                    ));
                    assert(out@ =~= old(out)@ + widened(input@, f, t).take(p + 1));
                }
                index = index + 1;
            }
            assert((i + 1) * t == i * t + t) by (nonlinear_arith);
            i = i + 1;
        }
        assert(widened(input@, f, t).take(frames * t) =~= widened(input@, f, t));
    } else {
        let ghost mut averages: Seq<T> = Seq::empty();
        assert(out@ =~= old(out)@ + repeated(averages, t));
        while i < frames
            invariant
                to < from,
                f == from,
                t == to,
                i <= frames,
                frames == input@.len() as int / f,
                frames * f <= input@.len() == size,
                forall|frame: &[T]| frame@.len() == from ==> call_requires(average, (frame,)),
                averages.len() == i,
                forall|k: int|
                    0 <= k < i ==> is_average(
                        average,
                        slot_frame(input@, f, k),
                        #[trigger] averages[k],
                    ),
                out@ == old(out)@ + repeated(averages, t),
            decreases frames - i,
        {
            proof {
                lemma_slot_in_range(i as int, f, frames as int);
            }
            let start: usize = i * from;
            let frame = slice_subrange(input, start, start + from);
            let averaged: T = average(frame);
            let ghost before = averages;
            let ghost base = out@;
            proof {
                averages = averages.push(averaged);
                assert(frame@ == slot_frame(input@, f, i as int));
                assert(is_average(average, slot_frame(input@, f, i as int), averaged));
                assert forall|k: int| 0 <= k < i + 1 implies is_average(
                    average,
                    slot_frame(input@, f, k),
                    #[trigger] averages[k],
                ) by {
                    if k < i {
                        assert(averages[k] == before[k]);
                    }
                }
            }
            let mut index: usize = 0;
            while index < to
                invariant
                    index <= to,
                    out@ == base + Seq::new(index as nat, |p: int| averaged),
                decreases to - index,
            {
                out.push(averaged);
                assert(out@ =~= base + Seq::new((index + 1) as nat, |p: int| averaged));
                index = index + 1;
            }
            proof {
                assert((i + 1) * t == i * t + t) by (nonlinear_arith);
                assert(0 <= i * t) by (nonlinear_arith)
                    requires
                        0 <= t,
                ;
                let block = Seq::new(t as nat, |p: int| averaged);
                assert(repeated(averages, t) =~= repeated(before, t) + block) by {
                    assert forall|p: int| 0 <= p < (i + 1) * t implies repeated(averages, t)[p] == (
                    repeated(before, t) + block)[p] by {
                        if p < i * t {
                            assert(p / t < i) by (nonlinear_arith)
                                requires
                                    0 <= p < i * t,
                                    t > 0,
                            ;
                            assert(0 <= p / t) by (nonlinear_arith)
                                requires
                                    0 <= p,
                                    t > 0,
                            ;
                        } else {
                            vstd::arithmetic::div_mod::lemma_fundamental_div_mod_converse(
                                p,
                                t,
                                i as int,
                                p - i * t,
                            );
                        }
                    }
                }
                assert(out@ =~= old(out)@ + repeated(averages, t));
            }
            i = i + 1;
        }
        assert(averages.len() == input@.len() as int / f);
    }
}

// ---------------------------------------------------------------------------
// What holds of frames
// ---------------------------------------------------------------------------

proof fn lemma_place(i: int, c: int, channels: int)
    requires
        0 <= i,
        0 <= c < channels,
    ensures
        (i * channels + c) / channels == i,
        (i * channels + c) % channels == c,
        0 <= i * channels,
{
    vstd::arithmetic::div_mod::lemma_fundamental_div_mod_converse(
        i * channels + c,
        channels,
        i,
        c,
    );
    assert(0 <= i * channels) by (nonlinear_arith)
        requires
            0 <= i,
            0 <= channels,
    ;
}

/// Interleaved frames stand one behind the other, each with its channels in
/// order, and a block holds as many as are whole.
pub proof fn frames_are_interleaved<T>(block: Seq<T>, channels: int, i: int, c: int)
    requires
        0 < channels,
        0 <= i,
        (i + 1) * channels <= block.len(),
        0 <= c < channels,
    ensures
        i < frames_of(block, channels).len(),
        frames_of(block, channels)[i].len() == channels,
        frames_of(block, channels)[i][c] == block[i * channels + c],
        frames_of(block, channels).len() * channels <= block.len(),
        block.len() < (frames_of(block, channels).len() + 1) * channels,
{
    let n = block.len() as int;
    lemma_place(i, c, channels);
    assert((i + 1) * channels == i * channels + channels) by (nonlinear_arith);
    assert(i < n / channels) by (nonlinear_arith)
        requires
            (i + 1) * channels <= n,
            0 < channels,
    ;
    assert((n / channels) * channels <= n < (n / channels + 1) * channels) by (nonlinear_arith)
        requires
            0 < channels,
    ;
}

/// Up-mixing keeps every channel of every frame where it is, and gives each
/// further channel what channel 0 of that frame holds.
pub proof fn widening_keeps_every_channel<T>(input: Seq<T>, from: int, to: int, i: int, c: int)
    requires
        0 < from < to,
        0 <= i,
        (i + 1) * from <= input.len(),
        0 <= c < to,
    ensures
        i * to + c < widened(input, from, to).len(),
        c < from ==> widened(input, from, to)[i * to + c] == input[i * from + c],
        c >= from ==> widened(input, from, to)[i * to + c] == input[i * from],
        widened(input, from, to).len() == (input.len() as int / from) * to,
{
    let n = input.len() as int;
    lemma_place(i, c, to);
    assert(i + 1 <= n / from) by (nonlinear_arith)
        requires
            (i + 1) * from <= n,
            0 < from,
    ;
    assert((i + 1) * to <= (n / from) * to) by (nonlinear_arith)
        requires
            i + 1 <= n / from,
            0 < to,
    ;
    assert((i + 1) * to == i * to + to) by (nonlinear_arith);
}

/// Down-mixing gives every channel of a frame the same value: the one that the
/// frame was mixed to.
pub proof fn mixing_down_fills_every_channel<T>(mixed: Seq<T>, to: int, i: int, c: int)
    requires
        0 <= c < to,
        0 <= i < mixed.len(),
    ensures
        repeated(mixed, to).len() == mixed.len() * to,
        i * to + c < repeated(mixed, to).len(),
        repeated(mixed, to)[i * to + c] == mixed[i],
{
    lemma_place(i, c, to);
    assert((i + 1) * to <= mixed.len() * to) by (nonlinear_arith)
        requires
            i + 1 <= mixed.len(),
            0 < to,
    ;
    assert((i + 1) * to == i * to + to) by (nonlinear_arith);
}

} // verus!
