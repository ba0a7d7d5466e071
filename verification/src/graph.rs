//! The audio graph: which endpoints it connects, how it is sized, and what one
//! pass over its buffers does.

use crate::config::Config;
use crate::device::{
    a_device_is_found_by_its_id, device_by_id, find_by_id, find_virtual, find_virtual_device,
    first_by_name, first_physical_by_name, lemma_find_by_id, lemma_find_virtual,
    lemma_first_by_name, the_first_card_is_found, DeviceInfo, DeviceState,
};
use crate::engine::{count_more, counted, format_text, EngineStatus, StreamFormat};
use crate::float;
use crate::ring::{frames_of, slot_frame, RingBuffer};
use crate::text::{opt_text, same_text};
use vstd::prelude::*;
use vstd::slice::slice_subrange;
use vstd::string::*;

verus! {

// ---------------------------------------------------------------------------
// Endpoints
// ---------------------------------------------------------------------------

/// The render endpoints at the moment the graph is built.
#[derive(Debug)]
pub struct Endpoints {
    /// All of them, in whatever state.
    pub all: Vec<DeviceInfo>,
    /// The active ones, where they could be listed.
    pub active: Result<Vec<DeviceInfo>, String>,
    /// The current default, where there is one.
    pub default: Result<DeviceInfo, String>,
}

/// The virtual card among the active endpoints.
pub open spec fn card_of(e: Endpoints) -> Option<DeviceInfo> {
    match e.active {
        Ok(devices) => find_virtual(devices@),
        Err(_) => None,
    }
}

/// The endpoint with a configured id, if it is active.
pub open spec fn active_by_id(e: Endpoints, id: Option<String>) -> Option<DeviceInfo> {
    match id {
        Some(id) => {
            let found = find_by_id(e.all@, id@);
            if found is Some && found->0.state == DeviceState::Active {
                found
            } else {
                None
            }
        },
        None => None,
    }
}

fn lookup_active(e: &Endpoints, id: &Option<String>) -> (r: Option<DeviceInfo>)
    ensures
        r == active_by_id(*e, *id),
{
    match id {
        Some(id) => {
            let found = device_by_id(&e.all, id.as_str());
            let active: bool = match &found {
                Some(info) => match info.state {
                    DeviceState::Active => true,
                    _ => false,
                },
                None => false,
            };
            if active {
                found
            } else {
                None
            }
        },
        None => None,
    }
}

/// The capture endpoint: the configured one, else the virtual card, else the
/// current system default.
pub open spec fn source_of(config: Config, e: Endpoints) -> Option<DeviceInfo> {
    if active_by_id(e, config.source_device_id) is Some {
        active_by_id(e, config.source_device_id)
    } else if card_of(e) is Some {
        card_of(e)
    } else {
        match e.default {
            Ok(device) => Some(device),
            Err(_) => None,
        }
    }
}

/// Chooses the capture endpoint.
///
/// Whether the card is there is recorded from the hardware and not from the
/// endpoint that wins: forcing a different capture source must not make the
/// card look absent.
pub fn resolve_source(config: &Config, endpoints: &Endpoints, status: &mut EngineStatus) -> (r:
    Result<DeviceInfo, String>)
    ensures
        *final(status) == (EngineStatus {
            virtual_present: card_of(*endpoints) is Some,
            ..*old(status)
        }),
        (match r {
            Ok(device) => source_of(*config, *endpoints) == Some(device),
            Err(message) => source_of(*config, *endpoints) is None && message@
                == "no default render endpoint: "@ + endpoints.default->Err_0@,
        }),
{
    let card = match &endpoints.active {
        Ok(devices) => find_virtual_device(devices),
        Err(_) => None,
    };
    status.virtual_present = card.is_some();
    if let Some(info) = lookup_active(endpoints, &config.source_device_id) {
        return Ok(info);
    }
    if let Some(card) = card {
        return Ok(card);
    }
    match &endpoints.default {
        Ok(device) => Ok(device.clone()),
        Err(err) => {
            let mut message: String = "no default render endpoint: ".to_owned();
            message.append(err.as_str());
            Err(message)
        },
    }
}

/// The configured render endpoint, unless it is the one captured from.
pub open spec fn configured_sink(config: Config, e: Endpoints, source: Seq<char>) -> Option<
    DeviceInfo,
> {
    let found = active_by_id(e, config.sink_device_id);
    if found is Some && found->0.id@ != source {
        found
    } else {
        None
    }
}

/// The endpoint that the takeover displaced, if it can be rendered to.
pub open spec fn displaced_sink(config: Config, e: Endpoints, source: Seq<char>) -> Option<
    DeviceInfo,
> {
    let found = active_by_id(e, config.previous_default_id);
    if found is Some && found->0.id@ != source && !found->0.is_virtual {
        found
    } else {
        None
    }
}

/// The current default, if it can be rendered to.
pub open spec fn default_sink(e: Endpoints, source: Seq<char>) -> Option<DeviceInfo> {
    match e.default {
        Ok(device) => if device.id@ != source && !device.is_virtual {
            Some(device)
        } else {
            None
        },
        Err(_) => None,
    }
}

/// The render endpoint: the configured one, else the one the takeover
/// displaced, else the current default, else the first physical device.
pub open spec fn sink_of(config: Config, e: Endpoints, source: Seq<char>) -> Option<DeviceInfo> {
    if configured_sink(config, e, source) is Some {
        configured_sink(config, e, source)
    } else if displaced_sink(config, e, source) is Some {
        displaced_sink(config, e, source)
    } else if default_sink(e, source) is Some {
        default_sink(e, source)
    } else {
        match e.active {
            Ok(devices) => first_by_name(devices@, Some(source)),
            Err(_) => None,
        }
    }
}

/// Why there is no render endpoint.
pub open spec fn sink_problem(e: Endpoints) -> Seq<char> {
    match e.active {
        Ok(_) =>
            "no physical output device to render to — install a sound card or plug in headphones"@,
        Err(err) => "enumeration failed: "@ + err@,
    }
}

/// Chooses the render endpoint.
///
/// Once the system default points at the virtual card, the current default is
/// the very device captured from. The only correct answer then is the physical
/// output that was default before.
pub fn resolve_sink(config: &Config, endpoints: &Endpoints, source: &DeviceInfo) -> (r: Result<
    DeviceInfo,
    String,
>)
    ensures
        (match r {
            Ok(device) => sink_of(*config, *endpoints, source.id@) == Some(device),
            Err(message) => sink_of(*config, *endpoints, source.id@) is None && message@
                == sink_problem(*endpoints),
        }),
{
    if let Some(info) = lookup_active(endpoints, &config.sink_device_id) {
        if !same_text(info.id.as_str(), source.id.as_str()) {
            return Ok(info);
        }
    }
    if let Some(info) = lookup_active(endpoints, &config.previous_default_id) {
        if !same_text(info.id.as_str(), source.id.as_str()) && !info.is_virtual {
            return Ok(info);
        }
    }
    if let Ok(device) = &endpoints.default {
        if !same_text(device.id.as_str(), source.id.as_str()) && !device.is_virtual {
            return Ok(device.clone());
        }
    }
    match &endpoints.active {
        Ok(devices) => match first_physical_by_name(devices, Some(source.id.as_str())) {
            Some(info) => Ok(info),
            None => Err(
                "no physical output device to render to — install a sound card or plug in headphones".to_owned(),
            ),
        },
        Err(err) => {
            let mut message: String = "enumeration failed: ".to_owned();
            message.append(err.as_str());
            Err(message)
        },
    }
}

/// A graph never renders into the endpoint that it captures from, and only to
/// a physical one unless the user configured otherwise.
pub proof fn the_graph_does_not_feed_back(config: Config, e: Endpoints, source: Seq<char>)
    ensures
        sink_of(config, e, source) is Some ==> {
            &&& sink_of(config, e, source)->0.id@ != source
            &&& configured_sink(config, e, source) is None ==> !sink_of(
                config,
                e,
                source,
            )->0.is_virtual
        },
{
    match e.active {
        Ok(devices) => lemma_first_by_name(devices@, Some(source)),
        Err(_) => {},
    }
}

// ---------------------------------------------------------------------------
// Building
// ---------------------------------------------------------------------------

/// The two endpoints of a graph and the depth of its streams.
#[derive(Debug, PartialEq, Eq)]
pub struct GraphPlan {
    pub source: DeviceInfo,
    pub sink: DeviceInfo,
    pub buffer_ms: u32,
}

/// The buffer depth that is asked for: what is configured, within reason.
pub open spec fn clamped_buffer(ms: u32) -> u32 {
    if ms < 20 {
        20
    } else if ms > 500 {
        500
    } else {
        ms
    }
}

/// Decides what a graph connects.
pub fn plan_graph(config: &Config, endpoints: &Endpoints, status: &mut EngineStatus) -> (r: Result<
    GraphPlan,
    String,
>)
    ensures
        *final(status) == (EngineStatus {
            virtual_present: card_of(*endpoints) is Some,
            ..*old(status)
        }),
        (match r {
            Ok(plan) => {
                &&& source_of(*config, *endpoints) == Some(plan.source)
                &&& sink_of(*config, *endpoints, plan.source.id@) == Some(plan.sink)
                &&& plan.source.id@ != plan.sink.id@
                &&& plan.buffer_ms == clamped_buffer(config.buffer_ms)
            },
            Err(message) => match source_of(*config, *endpoints) {
                None => message@ == "no default render endpoint: "@
                    + endpoints.default->Err_0@,
                Some(source) => sink_of(*config, *endpoints, source.id@) is None && message@
                    == sink_problem(*endpoints),
            },
        }),
{
    let source = match resolve_source(config, endpoints, status) {
        Ok(source) => source,
        Err(message) => {
            return Err(message);
        },
    };
    let sink = match resolve_sink(config, endpoints, &source) {
        Ok(sink) => sink,
        Err(message) => {
            return Err(message);
        },
    };
    proof {
        the_graph_does_not_feed_back(*config, *endpoints, source.id@);
    }
    let buffer_ms: u32 = if config.buffer_ms < 20 {
        20
    } else if config.buffer_ms > 500 {
        500
    } else {
        config.buffer_ms
    };
    Ok(GraphPlan { source, sink, buffer_ms })
}

/// The duration of a stream's buffer in units of 100 nanoseconds: what is asked
/// for, but at least ten milliseconds.
pub open spec fn duration_of(buffer_ms: u32) -> int {
    (if buffer_ms < 10 {
        10
    } else {
        buffer_ms as int
    }) * 10_000
}

/// The duration that a stream is opened with, in units of 100 nanoseconds.
pub fn stream_duration(buffer_ms: u32) -> (r: i64)
    ensures
        r == duration_of(buffer_ms),
{
    let ms: i64 = if buffer_ms < 10 {
        10
    } else {
        buffer_ms as i64
    };
    ms * 10_000
}

/// What a graph is made of, once both streams are open.
#[derive(Debug, Clone, Copy, PartialEq, Eq, Structural)]
pub struct GraphShape {
    pub source_format: StreamFormat,
    pub sink_format: StreamFormat,
    /// Frames of the render endpoint's buffer.
    pub render_buffer_frames: usize,
    /// The engine works on a single channel count: the wider of the two.
    pub dsp_channels: usize,
    /// Frames that the ring holds.
    pub ring_frames: usize,
    /// Whether the DSP is left out, because an end is mono.
    pub bypass_dsp: bool,
    /// Whether the streams are resampled, because their rates differ.
    pub resample: bool,
}

/// How many frames a ring holds: the configured depth at the rate of the
/// render side, but at least 1024.
pub open spec fn ring_depth(rate: u32, buffer_ms: u32) -> int {
    let ms: int = if buffer_ms < 20 {
        20
    } else {
        buffer_ms as int
    };
    let frames = rate as int * ms / 1000;
    if frames < 1024 {
        1024
    } else {
        frames
    }
}

fn depth(rate: u32, buffer_ms: u32) -> (r: u64)
    ensures
        r == ring_depth(rate, buffer_ms),
{
    let ms: u64 = if buffer_ms < 20 {
        20
    } else {
        buffer_ms as u64
    };
    assert(rate * ms <= 0xffff_ffff * 0xffff_ffff) by (nonlinear_arith)
        requires
            0 <= rate <= 0xffff_ffff,
            0 <= ms <= 0xffff_ffff,
    ;
    let frames: u64 = rate as u64 * ms / 1000;
    if frames < 1024 {
        1024
    } else {
        frames
    }
}

/// Whether a ring for so many channels can be addressed on this machine.
pub fn ring_fits(rate: u32, buffer_ms: u32, channels: u16) -> (r: bool)
    ensures
        r == (ring_depth(rate, buffer_ms) * (if channels == 0 {
            1
        } else {
            channels as int
        }) <= usize::MAX),
{
    let frames: u64 = depth(rate, buffer_ms);
    let wide: u128 = if channels == 0 {
        1
    } else {
        channels as u128
    };
    assert(frames * wide <= 0xffff_ffff_ffff_ffff * 0xffff) by (nonlinear_arith)
        requires
            0 <= frames <= 0xffff_ffff_ffff_ffff,
            0 <= wide <= 0xffff,
    ;
    frames as u128 * wide <= usize::MAX as u128
}

/// A stream in words: the endpoint's name and its format.
pub open spec fn stream_text(name: Seq<char>, format: StreamFormat) -> Seq<char> {
    name + " ("@ + format_text(format) + ")"@
}

fn describe_stream(name: &str, format: &StreamFormat) -> (r: String)
    ensures
        r@ == stream_text(name@, *format),
{
    let mut out: String = name.to_owned();
    out.append(" (");
    let shown = format.describe();
    out.append(shown.as_str());
    out.append(")");
    out
}

/// What a graph between two streams is made of.
pub open spec fn shape_of(
    config: Config,
    source_format: StreamFormat,
    sink_format: StreamFormat,
    render_buffer_frames: u32,
) -> GraphShape {
    GraphShape {
        source_format,
        sink_format,
        render_buffer_frames: render_buffer_frames as usize,
        dsp_channels: (if source_format.channels >= sink_format.channels {
            source_format.channels as usize
        } else {
            sink_format.channels as usize
        }),
        ring_frames: ring_depth(sink_format.rate, config.buffer_ms) as usize,
        bypass_dsp: config.bypass_mono_devices && (source_format.channels == 1
            || sink_format.channels == 1),
        resample: config.resample_on_rate_mismatch && source_format.rate != sink_format.rate,
    }
}

/// Completes a graph whose streams are open, and publishes what they are.
pub fn shape_graph(
    config: &Config,
    source_format: StreamFormat,
    sink_format: StreamFormat,
    render_buffer_frames: u32,
    source_name: &str,
    sink_name: &str,
    status: &mut EngineStatus,
) -> (r: GraphShape)
    requires
        ring_depth(sink_format.rate, config.buffer_ms) <= usize::MAX,
    ensures
        r == shape_of(*config, source_format, sink_format, render_buffer_frames),
        opt_text(final(status).source) == Some(stream_text(source_name@, source_format)),
        opt_text(final(status).sink) == Some(stream_text(sink_name@, sink_format)),
        *final(status) == (EngineStatus {
            source: final(status).source,
            sink: final(status).sink,
            ..*old(status)
        }),
{
    status.source = Some(describe_stream(source_name, &source_format));
    status.sink = Some(describe_stream(sink_name, &sink_format));
    let ring_frames: usize = depth(sink_format.rate, config.buffer_ms) as usize;
    GraphShape {
        source_format,
        sink_format,
        render_buffer_frames: render_buffer_frames as usize,
        dsp_channels: if source_format.channels >= sink_format.channels {
            source_format.channels as usize
        } else {
            sink_format.channels as usize
        },
        ring_frames,
        bypass_dsp: config.bypass_mono_devices && (source_format.channels == 1
            || sink_format.channels == 1),
        resample: config.resample_on_rate_mismatch && source_format.rate != sink_format.rate,
    }
}

// ---------------------------------------------------------------------------
// The capture side
// ---------------------------------------------------------------------------

/// The code that says that nothing more was captured. Not an error.
pub const AUDCLNT_S_BUFFER_EMPTY: i32 = 0x0889_0001;

/// The flag of a packet that is silent, whatever its bytes are.
pub const AUDCLNT_BUFFERFLAGS_SILENT: u32 = 2;

/// What to do with the answer to a request for a captured packet.
#[derive(Debug, PartialEq, Eq)]
pub enum PacketStep {
    /// Nothing more was captured.
    Over,
    /// Give the empty packet back; nothing more was captured.
    ReleaseEmpty,
    /// Take in so many frames of silence.
    Silence(u32),
    /// Decode so many frames.
    Decode(u32),
    /// Capturing failed, for this reason.
    Failed(String),
}

/// An answer to a request for a captured packet.
#[derive(Debug)]
pub enum PacketReply {
    /// A packet with so many frames, and its flags.
    Packet { frames: u32, flags: u32 },
    /// A refusal, with its code and the system's message.
    Refused { code: i32, message: String },
}

/// Whether a step is the one that an answer asks for.
pub open spec fn judged(reply: PacketReply, r: PacketStep) -> bool {
    match reply {
        PacketReply::Refused { code, message } => if code == 0x0889_0001 {
            r is Over
        } else {
            r is Failed && r->Failed_0@ == "capture GetBuffer failed: "@ + message@
        },
        PacketReply::Packet { frames, flags } => if frames == 0 {
            r is ReleaseEmpty
        } else if (flags as int / 2) % 2 == 1 {
            r == PacketStep::Silence(frames)
        } else {
            r == PacketStep::Decode(frames)
        },
    }
}

/// Judges a captured packet.
pub fn capture_step(reply: &PacketReply) -> (r: PacketStep)
    ensures
        judged(*reply, r),
{
    match reply {
        PacketReply::Refused { code, message } => {
            if *code == AUDCLNT_S_BUFFER_EMPTY {
                return PacketStep::Over;
            }
            let mut out: String = "capture GetBuffer failed: ".to_owned();
            out.append(message.as_str());
            PacketStep::Failed(out)
        },
        PacketReply::Packet { frames, flags } => {
            if *frames == 0 {
                PacketStep::ReleaseEmpty
            } else if (*flags / AUDCLNT_BUFFERFLAGS_SILENT) % 2 == 1 {
                PacketStep::Silence(*frames)
            } else {
                PacketStep::Decode(*frames)
            }
        },
    }
}

/// What a bounded buffer holds after more frames have come in: the newest, as
/// many as it has room for.
pub open spec fn newest<T>(frames: Seq<T>, capacity: int) -> Seq<T> {
    if frames.len() <= capacity {
        frames
    } else {
        frames.skip(frames.len() - capacity)
    }
}

/// How many frames do not fit any more.
pub open spec fn overflow(waiting: int, more: int, capacity: int) -> int {
    if waiting + more <= capacity {
        0
    } else {
        waiting + more - capacity
    }
}

proof fn lemma_newest_push<T>(all: Seq<T>, capacity: int, x: T)
    requires
        0 < capacity,
    ensures
        newest(all.push(x), capacity) == (if newest(all, capacity).len() < capacity {
            newest(all, capacity)
        } else {
            newest(all, capacity).drop_first()
        }).push(x),
{
    let held = newest(all, capacity);
    if all.len() < capacity {
        assert(newest(all.push(x), capacity) =~= held.push(x));
    } else {
        assert(newest(all.push(x), capacity) =~= held.drop_first().push(x));
    }
}

proof fn lemma_counted(n: u64, a: int, b: int)
    requires
        0 <= a,
        0 <= b,
    ensures
        counted(counted(n, a), b) == counted(n, a + b),
{
    let m = 0x1_0000_0000_0000_0000int;
    vstd::arithmetic::div_mod::lemma_mod_bound(n + a, m);
    vstd::arithmetic::div_mod::lemma_add_mod_noop(n + a, b, m);
    vstd::arithmetic::div_mod::lemma_mod_twice(n + a, m);
    vstd::arithmetic::div_mod::lemma_add_mod_noop((n + a) % m, b, m);
}

/// Pushes a block of captured samples into the ring, frame by frame, and
/// counts what was captured and what had to be discarded.
pub fn stage_frames<T: Copy>(ring: &mut RingBuffer<T>, staged: &[T], status: &mut EngineStatus)
    requires
        old(ring).wf(),
        old(ring).capacity_frames > 0,
        old(ring).channels > 0,
    ensures
        final(ring).wf(),
        final(ring).channels == old(ring).channels,
        final(ring).capacity_frames == old(ring).capacity_frames,
        ({
            let frames = frames_of(staged@, old(ring).channels as int);
            &&& final(ring)@ == newest(old(ring)@ + frames, old(ring).capacity_frames as int)
            &&& *final(status) == (EngineStatus {
                captured_frames: counted(old(status).captured_frames, frames.len() as int),
                overruns: counted(
                    old(status).overruns,
                    overflow(
                        old(ring)@.len() as int,
                        frames.len() as int,
                        old(ring).capacity_frames as int,
                    ),
                ),
                ..*old(status)
            })
        }),
{
    let channels: usize = ring.channels;
    let size: usize = staged.len();
    let count: usize = size / channels;
    let ghost ch = channels as int;
    let ghost cap = ring.capacity_frames as int;
    let ghost start = ring@;
    let ghost frames = frames_of(staged@, ch);
    let ghost before = *status;
    assert(count * ch <= size) by (nonlinear_arith)
        requires
            count == size as int / ch,
            ch > 0,
    ;
    let mut i: usize = 0;
    assert(start + frames.take(0) =~= start);
    while i < count
        invariant
            i <= count == frames.len(),
            size == staged@.len(),
            count * ch <= size,
            ch == channels == ring.channels,
            ch > 0,
            cap == ring.capacity_frames > 0,
            frames == frames_of(staged@, ch),
            ring.wf(),
            start.len() <= cap,
            ring@ == newest(start + frames.take(i as int), cap),
            *status == (EngineStatus {
                captured_frames: counted(before.captured_frames, i as int),
                overruns: counted(before.overruns, overflow(start.len() as int, i as int, cap)),
                ..before
            }),
        decreases count - i,
    {
        proof {
            assert(0 <= i * ch && i * ch + ch <= size) by (nonlinear_arith)
                requires
                    0 <= i < count,
                    count * ch <= size,
                    ch > 0,
            ;
        }
        let from: usize = i * channels;
        let frame = slice_subrange(staged, from, from + channels);
        let ghost held = ring@;
        let ghost all = start + frames.take(i as int);
        let had_room = ring.push_frame(frame);
        proof {
            assert(frame@ == frames[i as int]);
            assert(frames.take(i + 1) =~= frames.take(i as int).push(frame@));
            assert(start + frames.take(i + 1) =~= all.push(frame@));
            lemma_newest_push(all, cap, frame@);
            lemma_counted(before.captured_frames, i as int, 1);
            lemma_counted(before.overruns, overflow(start.len() as int, i as int, cap), 1);
        }
        if !had_room {
            status.overruns = count_more(status.overruns, 1);
        }
        status.captured_frames = count_more(status.captured_frames, 1);
        i = i + 1;
    }
    assert(frames.take(i as int) =~= frames);
}

// ---------------------------------------------------------------------------
// The render side
// ---------------------------------------------------------------------------

/// Most frames that are rendered in one go.
pub const MAX_UNDERRUN_SILENCE_FRAMES: usize = 48_000;

/// How many frames are rendered into a buffer with so many still to be played.
pub open spec fn renderable(buffer_frames: usize, padding: u32) -> int {
    if buffer_frames <= padding {
        0
    } else if buffer_frames - padding <= 48_000 {
        buffer_frames - padding
    } else {
        48_000
    }
}

/// How many frames the render side takes: the room in its buffer, but not
/// more than is rendered in one go.
pub fn frames_to_render(buffer_frames: usize, padding: u32) -> (r: usize)
    ensures
        r == renderable(buffer_frames, padding),
{
    if buffer_frames as u64 <= padding as u64 {
        return 0;
    }
    let room: usize = buffer_frames - padding as usize;
    if room < MAX_UNDERRUN_SILENCE_FRAMES {
        room
    } else {
        MAX_UNDERRUN_SILENCE_FRAMES
    }
}

/// Takes a block of frames out of the ring. Where it runs short, the tail is
/// silence, which is counted.
pub fn fill_block<T: Copy>(
    ring: &mut RingBuffer<T>,
    frames: usize,
    silence: T,
    status: &mut EngineStatus,
) -> (r: Vec<T>)
    requires
        old(ring).wf(),
        old(ring).capacity_frames > 0,
        frames * old(ring).channels <= usize::MAX,
    ensures
        final(ring).wf(),
        final(ring).channels == old(ring).channels,
        final(ring).capacity_frames == old(ring).capacity_frames,
        ({
            let got = if frames < old(ring)@.len() {
                frames as int
            } else {
                old(ring)@.len() as int
            };
            let ch = old(ring).channels as int;
            &&& final(ring)@ == old(ring)@.skip(got)
            &&& r@.len() == frames * ch
            &&& forall|k: int|
                0 <= k < got ==> #[trigger] slot_frame(r@, ch, k) == old(ring)@[k]
            &&& forall|p: int| got * ch <= p < r@.len() ==> r@[p] == silence
            &&& *final(status) == (EngineStatus {
                underruns: counted(old(status).underruns, frames - got),
                ..*old(status)
            })
        }),
{
    let size: usize = frames * ring.channels;
    let mut block: Vec<T> = Vec::with_capacity(size);
    let mut i: usize = 0;
    while i < size
        invariant
            i <= size,
            block@.len() == i,
            forall|p: int| 0 <= p < i ==> block@[p] == silence,
        decreases size - i,
    {
        block.push(silence);
        i = i + 1;
    }
    let ghost ch = ring.channels as int;
    proof {
        let waiting = ring@.len() as int;
        assert((if frames < waiting {
            frames as int
        } else {
            waiting
        }) * ch <= frames * ch) by (nonlinear_arith)
            requires
                0 <= ch,
        ;
    }
    let got = ring.pop_frames(frames, block.as_mut_slice());
    if got < frames {
        status.underruns = count_more(status.underruns, (frames - got) as u64);
    } else {
        assert(counted(status.underruns, 0) == status.underruns);
    }
    block
}

/// Whether a sample is past full scale.
pub open spec fn is_clipped(sample: u32) -> bool {
    float::below(float::ONE, sample) || float::below(sample, 0xbf80_0000)
}

/// How many of the first `n` samples are past full scale.
pub open spec fn clipped_count(samples: Seq<u32>, n: int) -> int
    decreases n,
{
    if n <= 0 {
        0
    } else {
        clipped_count(samples, n - 1) + (if is_clipped(samples[n - 1]) {
            1int
        } else {
            0
        })
    }
}

/// The greatest magnitude among the first `n` samples; what is not a number
/// does not count.
pub open spec fn block_peak(samples: Seq<u32>, n: int) -> u32
    decreases n,
{
    if n <= 0 {
        0
    } else {
        let before = block_peak(samples, n - 1);
        let size = float::magnitude(samples[n - 1]) as u32;
        if float::below(before, size) {
            size
        } else {
            before
        }
    }
}

/// The level that the meter shows: the decayed previous one or the peak of
/// this block, held to full scale, whichever is greater.
pub open spec fn shown_level(decayed: u32, peak: u32) -> u32 {
    let held = if float::below(float::ONE, peak) {
        float::ONE
    } else {
        peak
    };
    if float::is_nan(decayed) || float::below(decayed, held) {
        held
    } else {
        decayed
    }
}

/// Meters a rendered block.
///
/// `decayed` is the previous level after its decay, so that a transient stays
/// visible for a few blocks. Samples past full scale are counted rather than
/// silently clamped.
pub fn meter_block(samples: &[u32], decayed: u32, status: &mut EngineStatus)
    ensures
        *final(status) == (EngineStatus {
            clipped_samples: counted(
                old(status).clipped_samples,
                clipped_count(samples@, samples@.len() as int),
            ),
            peak_level: shown_level(decayed, block_peak(samples@, samples@.len() as int)),
            ..*old(status)
        }),
{
    let mut peak: u32 = 0;
    let mut clipped: u64 = 0;
    let mut i: usize = 0;
    while i < samples.len()
        invariant
            i <= samples@.len(),
            clipped == clipped_count(samples@, i as int) <= i,
            peak == block_peak(samples@, i as int),
        decreases samples@.len() - i,
    {
        let sample: u32 = samples[i];
        if float::less(float::ONE, sample) || float::less(sample, 0xbf80_0000) {
            clipped = clipped + 1;
        }
        let size: u32 = float::absolute(sample);
        if float::less(peak, size) {
            peak = size;
        }
        i = i + 1;
    }
    status.clipped_samples = count_more(status.clipped_samples, clipped);
    let held: u32 = if float::less(float::ONE, peak) {
        float::ONE
    } else {
        peak
    };
    status.peak_level =
    if float::not_a_number(decayed) || float::less(decayed, held) {
        held
    } else {
        decayed
    };
}

/// Counts what was handed to the render side.
pub fn note_rendered(frames: usize, status: &mut EngineStatus)
    ensures
        *final(status) == (EngineStatus {
            rendered_frames: counted(old(status).rendered_frames, frames as int),
            ..*old(status)
        }),
{
    status.rendered_frames = count_more(status.rendered_frames, frames as u64);
}

/// The level shown never passes full scale, as long as the decayed one does
/// not.
pub proof fn the_meter_stays_in_range(decayed: u32, samples: Seq<u32>, n: int)
    requires
        float::is_nan(decayed) || !float::below(float::ONE, decayed),
    ensures
        !float::below(float::ONE, shown_level(decayed, block_peak(samples, n))),
{
}

/// A ring never loses the newest audio: what it holds is always the end of
/// what came in.
pub proof fn the_newest_audio_is_kept<T>(frames: Seq<T>, capacity: int)
    requires
        0 <= capacity,
    ensures
        newest(frames, capacity).len() <= capacity,
        newest(frames, capacity) == frames.skip(frames.len() - newest(frames, capacity).len()),
{
    assert(frames.skip(0) =~= frames);
}

// ---------------------------------------------------------------------------
// What holds of graphs
// ---------------------------------------------------------------------------

/// Whether `d` is the endpoint with an id, and it is active: the first of all
/// with that id.
pub open spec fn is_the_active_one(e: Endpoints, id: Seq<char>, d: DeviceInfo, k: int) -> bool {
    &&& 0 <= k < e.all@.len()
    &&& e.all@[k] == d
    &&& d.id@ == id
    &&& d.state == DeviceState::Active
    &&& forall|j: int| 0 <= j < k ==> (#[trigger] e.all@[j]).id@ != id
}

/// Whether an id names no active endpoint, or is not configured.
pub open spec fn names_no_active_one(e: Endpoints, id: Option<String>) -> bool {
    id is Some ==> forall|d: DeviceInfo, k: int| !#[trigger] is_the_active_one(e, id->0@, d, k)
}

proof fn lemma_active_by_id(e: Endpoints, id: Option<String>)
    ensures
        id is Some ==> forall|d: DeviceInfo, k: int| #[trigger]
            is_the_active_one(e, id->0@, d, k) ==> active_by_id(e, id) == Some(d),
        names_no_active_one(e, id) ==> active_by_id(e, id) is None,
        active_by_id(e, id) is Some ==> id is Some && exists|k: int| #[trigger]
            is_the_active_one(e, id->0@, active_by_id(e, id)->0, k),
{
    if id is Some {
        let text = id->0@;
        lemma_find_by_id(e.all@, text);
        assert forall|d: DeviceInfo, k: int| #[trigger]
            is_the_active_one(e, text, d, k) implies active_by_id(e, id) == Some(d) by {
            a_device_is_found_by_its_id(e.all@, text, k);
        }
        if active_by_id(e, id) is Some {
            let k = choose|k: int|
                0 <= k < e.all@.len() && e.all@[k] == find_by_id(e.all@, text)->0 && forall|j: int|
                    0 <= j < k ==> (#[trigger] e.all@[j]).id@ != text;
            assert(is_the_active_one(e, text, active_by_id(e, id)->0, k));
        }
    }
}

/// Where sound is captured: from the endpoint that is configured, if it is
/// active; else from the first virtual card among the active ones; else from
/// the current default; and from nowhere if there is none of these.
pub proof fn the_source_is_chosen_in_order(config: Config, e: Endpoints, d: DeviceInfo, k: int)
    ensures
        config.source_device_id is Some && is_the_active_one(
            e,
            config.source_device_id->0@,
            d,
            k,
        ) ==> source_of(config, e) == Some(d),
        names_no_active_one(e, config.source_device_id) && e.active is Ok && 0 <= k
            < e.active->Ok_0@.len() && e.active->Ok_0@[k].is_virtual && (forall|j: int|
            0 <= j < k ==> !(#[trigger] e.active->Ok_0@[j]).is_virtual) ==> source_of(config, e)
            == Some(e.active->Ok_0@[k]),
        names_no_active_one(e, config.source_device_id) && (e.active is Ok ==> forall|j: int|
            0 <= j < e.active->Ok_0@.len() ==> !(#[trigger] e.active->Ok_0@[j]).is_virtual)
            ==> source_of(config, e) == (match e.default {
            Ok(device) => Some(device),
            Err(_) => None,
        }),
{
    lemma_active_by_id(e, config.source_device_id);
    if e.active is Ok {
        let list = e.active->Ok_0@;
        lemma_find_virtual(list);
        if 0 <= k < list.len() && list[k].is_virtual && (forall|j: int|
            0 <= j < k ==> !(#[trigger] list[j]).is_virtual) {
            the_first_card_is_found(list, k);
        }
    }
}

/// Where sound is rendered to: the endpoint that is configured, if it is active
/// and not the one captured from; else the one that the takeover displaced, if
/// it is active, physical and not the one captured from; else the current
/// default, if it is physical and not the one captured from; else a physical
/// one among the active; and nowhere if there is none of these.
pub proof fn the_sink_is_chosen_in_order(
    config: Config,
    e: Endpoints,
    source: Seq<char>,
    d: DeviceInfo,
    k: int,
)
    ensures
        config.sink_device_id is Some && is_the_active_one(e, config.sink_device_id->0@, d, k)
            && d.id@ != source ==> sink_of(config, e, source) == Some(d),
        ({
            let unset = names_no_active_one(e, config.sink_device_id) || config.sink_device_id->0@
                == source;
            let gone = names_no_active_one(e, config.previous_default_id)
                || config.previous_default_id->0@ == source || (is_the_active_one(
                e,
                config.previous_default_id->0@,
                d,
                k,
            ) && d.is_virtual);
            let barred = e.default is Err || e.default->Ok_0.id@ == source
                || e.default->Ok_0.is_virtual;
            &&& unset && config.previous_default_id is Some && is_the_active_one(
                e,
                config.previous_default_id->0@,
                d,
                k,
            ) && d.id@ != source && !d.is_virtual ==> sink_of(config, e, source) == Some(d)
            &&& unset && gone && !barred ==> sink_of(config, e, source) == Some(e.default->Ok_0)
            &&& unset && gone && barred ==> {
                let chosen = sink_of(config, e, source);
                let usable = |x: DeviceInfo| !x.is_virtual && x.id@ != source;
                &&& chosen is Some ==> e.active is Ok && e.active->Ok_0@.contains(chosen->0)
                    && usable(chosen->0)
                &&& chosen is None && e.active is Ok ==> forall|j: int|
                    0 <= j < e.active->Ok_0@.len() ==> !usable(#[trigger] e.active->Ok_0@[j])
            }
        }),
{
    lemma_active_by_id(e, config.sink_device_id);
    lemma_active_by_id(e, config.previous_default_id);
    if e.active is Ok {
        lemma_first_by_name(e.active->Ok_0@, Some(source));
    }
}

/// The buffer depth that is asked for is what is configured wherever that is
/// within reason, and always within reason.
pub proof fn a_reasonable_depth_is_kept(ms: u32)
    ensures
        20 <= clamped_buffer(ms) <= 500,
        20 <= ms <= 500 ==> clamped_buffer(ms) == ms,
        ms < 20 ==> clamped_buffer(ms) == 20,
        ms > 500 ==> clamped_buffer(ms) == 500,
{
}

/// A stream's duration is the depth that is asked for, in units of 100
/// nanoseconds, and never less than ten milliseconds.
pub proof fn a_stream_is_as_deep_as_asked(ms: u32)
    ensures
        duration_of(ms) >= 100_000,
        ms >= 10 ==> duration_of(ms) == 10_000 * ms,
        ms < 10 ==> duration_of(ms) == 100_000,
{
}

/// A ring holds what the render side plays in the configured time, down to a
/// whole frame, and never less than 1024 frames or than 20 milliseconds.
pub proof fn a_ring_holds_the_configured_time(rate: u32, buffer_ms: u32)
    ensures
        ring_depth(rate, buffer_ms) >= 1024,
        rate * buffer_ms < 1000 * (ring_depth(rate, buffer_ms) + 1),
        rate * 20 < 1000 * (ring_depth(rate, buffer_ms) + 1),
        buffer_ms >= 20 && ring_depth(rate, buffer_ms) > 1024 ==> 1000 * ring_depth(rate, buffer_ms)
            <= rate * buffer_ms,
        buffer_ms < 20 && ring_depth(rate, buffer_ms) > 1024 ==> 1000 * ring_depth(rate, buffer_ms)
            <= rate * 20,
{
    assert(buffer_ms < 20 ==> rate * buffer_ms <= rate * 20) by (nonlinear_arith)
        requires
            0 <= rate,
            0 <= buffer_ms,
    ;
    assert(buffer_ms >= 20 ==> rate * buffer_ms >= rate * 20) by (nonlinear_arith)
        requires
            0 <= rate,
            0 <= buffer_ms,
    ;
}

/// A graph works on as many channels as the wider end has, leaves the effects
/// out only where that is configured and an end is mono, and converts rates
/// exactly where that is configured and they differ.
pub proof fn a_graph_fits_both_ends(
    config: Config,
    source: StreamFormat,
    sink: StreamFormat,
    frames: u32,
)
    requires
        ring_depth(sink.rate, config.buffer_ms) <= usize::MAX,
    ensures
        ({
            let g = shape_of(config, source, sink, frames);
            &&& g.source_format == source && g.sink_format == sink
            &&& g.render_buffer_frames == frames
            &&& g.dsp_channels >= source.channels && g.dsp_channels >= sink.channels
            &&& g.dsp_channels == source.channels || g.dsp_channels == sink.channels
            &&& !config.bypass_mono_devices ==> !g.bypass_dsp
            &&& config.bypass_mono_devices ==> g.bypass_dsp == (source.channels == 1
                || sink.channels == 1)
            &&& source.rate == sink.rate ==> !g.resample
            &&& source.rate != sink.rate ==> g.resample == config.resample_on_rate_mismatch
            &&& g.ring_frames == ring_depth(sink.rate, config.buffer_ms)
        }),
{
}

/// A packet is taken in whole: as silence exactly if the system flagged it so,
/// and decoded otherwise. An answer that nothing more is there is no failure.
pub proof fn packets_are_taken_in(frames: u32, flags: u32, reply: PacketReply, r: PacketStep)
    requires
        judged(reply, r),
    ensures
        reply == (PacketReply::Packet { frames, flags }) && frames > 0 ==> r == (if flags
            & AUDCLNT_BUFFERFLAGS_SILENT != 0 {
            PacketStep::Silence(frames)
        } else {
            PacketStep::Decode(frames)
        }),
        reply == (PacketReply::Packet { frames: 0, flags }) ==> r == PacketStep::ReleaseEmpty,
        reply is Refused && reply->code == AUDCLNT_S_BUFFER_EMPTY ==> r == PacketStep::Over,
        reply is Refused && reply->code != AUDCLNT_S_BUFFER_EMPTY ==> r is Failed
            && crate::text::ends_with(r->Failed_0@, reply->message@),
{
    assert((flags & 2 != 0) == ((flags / 2) % 2 == 1)) by (bit_vector);
    if reply is Refused && reply->code != AUDCLNT_S_BUFFER_EMPTY {
        crate::text::a_part_occurs("capture GetBuffer failed: "@, reply->message@, Seq::empty());
    }
}

/// The render side is never overfilled: no more frames than there is room for,
/// nor than are rendered in one go, and otherwise all that fit.
pub proof fn the_render_side_is_filled_up(buffer_frames: usize, padding: u32)
    ensures
        0 <= renderable(buffer_frames, padding) <= 48_000,
        padding <= buffer_frames ==> padding + renderable(buffer_frames, padding) <= buffer_frames,
        padding >= buffer_frames ==> renderable(buffer_frames, padding) == 0,
        renderable(buffer_frames, padding) < 48_000 && padding <= buffer_frames ==> padding
            + renderable(buffer_frames, padding) == buffer_frames,
{
}

/// Every frame is accounted for: what a ring holds afterwards and what it had
/// to give up are together what it held and what came in, and it gives up
/// nothing that it has room for.
pub proof fn every_frame_is_accounted_for<T>(held: Seq<T>, more: Seq<T>, capacity: int)
    requires
        0 <= capacity,
    ensures
        newest(held + more, capacity).len() + overflow(
            held.len() as int,
            more.len() as int,
            capacity,
        ) == held.len() + more.len(),
        held.len() + more.len() <= capacity ==> newest(held + more, capacity) == held + more,
        held.len() + more.len() > capacity ==> newest(held + more, capacity).len() == capacity,
{
}

/// A sample is past full scale exactly if its magnitude is, whatever its sign;
/// what is not a number is not.
pub proof fn clipping_is_beyond_full_scale(x: u32)
    ensures
        is_clipped(x) == (!float::is_nan(x) && float::magnitude(x) > float::ONE),
{
}

/// Clipped samples are counted one by one.
pub proof fn clipped_samples_are_counted(samples: Seq<u32>, n: int)
    requires
        0 <= n <= samples.len(),
    ensures
        0 <= clipped_count(samples, n) <= n,
        n < samples.len() ==> clipped_count(samples, n + 1) - clipped_count(samples, n) == (if is_clipped(
            samples[n],
        ) {
            1int
        } else {
            0int
        }),
        (clipped_count(samples, n) == 0) == (forall|i: int|
            0 <= i < n ==> !is_clipped(#[trigger] samples[i])),
        (clipped_count(samples, n) == n) == (forall|i: int|
            0 <= i < n ==> is_clipped(#[trigger] samples[i])),
    decreases n,
{
    if n > 0 {
        clipped_samples_are_counted(samples, n - 1);
        if clipped_count(samples, n) == 0 {
            assert forall|i: int| 0 <= i < n implies !is_clipped(#[trigger] samples[i]) by {}
        }
        if clipped_count(samples, n) == n {
            assert forall|i: int| 0 <= i < n implies is_clipped(#[trigger] samples[i]) by {}
        }
    }
}

/// The peak of a block is the greatest magnitude in it: no sample is louder,
/// and one is as loud, unless all are silent.
pub proof fn the_peak_is_the_loudest(samples: Seq<u32>, n: int)
    requires
        0 <= n <= samples.len(),
    ensures
        !float::is_nan(block_peak(samples, n)),
        forall|i: int|
            0 <= i < n && !float::is_nan(#[trigger] samples[i]) ==> float::magnitude(samples[i])
                <= block_peak(samples, n),
        block_peak(samples, n) == 0 || exists|i: int|
            0 <= i < n && float::magnitude(#[trigger] samples[i]) == block_peak(samples, n),
    decreases n,
{
    if n > 0 {
        the_peak_is_the_loudest(samples, n - 1);
        let before = block_peak(samples, n - 1);
        let size = float::magnitude(samples[n - 1]) as u32;
        if !float::below(before, size) && before != 0 {
            let i = choose|i: int|
                0 <= i < n - 1 && float::magnitude(#[trigger] samples[i]) == before;
            assert(float::magnitude(samples[i]) == block_peak(samples, n));
        } else if float::below(before, size) {
            assert(float::magnitude(samples[n - 1]) == block_peak(samples, n));
        }
    }
}

/// The meter shows the louder of what was and what is, the latter held to full
/// scale.
pub proof fn the_meter_shows_the_louder(decayed: u32, peak: u32)
    requires
        !float::is_nan(peak),
        !float::below(peak, float::ZERO),
    ensures
        shown_level(decayed, peak) == decayed || shown_level(decayed, peak) == peak || shown_level(
            decayed,
            peak,
        ) == float::ONE,
        !float::below(float::ONE, peak) ==> !float::below(shown_level(decayed, peak), peak),
        float::below(float::ONE, peak) ==> !float::below(shown_level(decayed, peak), float::ONE),
        !float::is_nan(decayed) ==> !float::below(shown_level(decayed, peak), decayed),
        shown_level(decayed, peak) == float::ONE && decayed != float::ONE ==> peak == float::ONE
            || float::below(float::ONE, peak),
        float::below(peak, decayed) && float::below(decayed, float::ONE) ==> shown_level(
            decayed,
            peak,
        ) == decayed,
        float::below(decayed, peak) && float::below(peak, float::ONE) ==> shown_level(decayed, peak)
            == peak,
{
}

} // verus!
