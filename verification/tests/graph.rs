use fxtrumpet::config::Config;
use fxtrumpet::device::{DeviceInfo, DeviceState};
use fxtrumpet::engine::{EngineStatus, SampleKind, StreamFormat};
use fxtrumpet::graph::{
    capture_step, fill_block, frames_to_render, meter_block, note_rendered, plan_graph,
    resolve_sink, resolve_source, ring_fits, shape_graph, stage_frames, stream_duration, Endpoints,
    PacketReply, PacketStep,
};
use fxtrumpet::ring::RingBuffer;

fn device(id: &str, name: &str, is_virtual: bool) -> DeviceInfo {
    DeviceInfo {
        id: id.to_owned(),
        name: name.to_owned(),
        adapter: None,
        state: DeviceState::Active,
        is_default: false,
        is_virtual,
    }
}

fn endpoints() -> Endpoints {
    let card = device("card", "FxSound", true);
    let speakers = device("spk", "Speakers", false);
    let headset = device("head", "headset", false);
    let mut unplugged = device("gone", "Gone", false);
    unplugged.state = DeviceState::Unplugged;
    Endpoints {
        all: vec![card.clone(), speakers.clone(), headset.clone(), unplugged],
        active: Ok(vec![card.clone(), speakers, headset]),
        default: Ok(card),
    }
}

#[test]
fn the_source_is_the_configured_one_else_the_card_else_the_default() {
    let mut config = Config::default();
    let mut status = EngineStatus::default();
    let mut e = endpoints();
    let source = |c: &Config, e: &Endpoints, s: &mut EngineStatus| {
        resolve_source(c, e, s).map(|d| d.id)
    };
    assert_eq!(source(&config, &e, &mut status), Ok("card".to_owned()));
    assert!(status.virtual_present());
    config.source_device_id = Some("spk".to_owned());
    assert_eq!(source(&config, &e, &mut status), Ok("spk".to_owned()));
    // Forcing a source does not make the card look absent.
    assert!(status.virtual_present());
    config.source_device_id = Some("gone".to_owned());
    assert_eq!(source(&config, &e, &mut status), Ok("card".to_owned()));
    e.active = Err("x".to_owned());
    e.default = Ok(device("spk", "Speakers", false));
    assert_eq!(source(&config, &e, &mut status), Ok("spk".to_owned()));
    assert!(!status.virtual_present());
    e.default = Err("none".to_owned());
    assert_eq!(
        source(&config, &e, &mut status),
        Err("no default render endpoint: none".to_owned())
    );
}

#[test]
fn the_sink_is_never_the_source() {
    let mut config = Config::default();
    let mut e = endpoints();
    let card = device("card", "FxSound", true);
    let sink = |c: &Config, e: &Endpoints| resolve_sink(c, e, &card).map(|d| d.id);
    // The default is the card, so the first physical device by name.
    assert_eq!(sink(&config, &e), Ok("head".to_owned()));
    config.previous_default_id = Some("spk".to_owned());
    assert_eq!(sink(&config, &e), Ok("spk".to_owned()));
    config.previous_default_id = Some("gone".to_owned());
    assert_eq!(sink(&config, &e), Ok("head".to_owned()));
    e.default = Ok(device("spk", "Speakers", false));
    assert_eq!(sink(&config, &e), Ok("spk".to_owned()));
    config.sink_device_id = Some("head".to_owned());
    assert_eq!(sink(&config, &e), Ok("head".to_owned()));
    config.sink_device_id = Some("card".to_owned());
    assert_eq!(sink(&config, &e), Ok("spk".to_owned()));
    e.default = Err("none".to_owned());
    e.active = Ok(vec![device("card", "FxSound", true)]);
    assert_eq!(
        sink(&config, &e),
        Err(
            "no physical output device to render to — install a sound card or plug in headphones"
                .to_owned()
        )
    );
    e.active = Err("boom".to_owned());
    assert_eq!(sink(&config, &e), Err("enumeration failed: boom".to_owned()));
}

#[test]
fn a_graph_is_planned_within_reason() {
    let mut config = Config::default();
    let mut status = EngineStatus::default();
    config.buffer_ms = 5;
    let plan = plan_graph(&config, &endpoints(), &mut status).expect("a plan");
    assert_eq!((plan.source.id.as_str(), plan.sink.id.as_str()), ("card", "head"));
    assert_eq!(plan.buffer_ms, 20);
    config.buffer_ms = 5000;
    assert_eq!(plan_graph(&config, &endpoints(), &mut status).unwrap().buffer_ms, 500);
    assert_eq!(stream_duration(5), 100_000);
    assert_eq!(stream_duration(120), 1_200_000);
}

fn format(rate: u32, channels: u16) -> StreamFormat {
    StreamFormat {
        rate,
        channels,
        container_bits: 32,
        valid_bits: 32,
        kind: SampleKind::Float32,
    }
}

#[test]
fn a_graph_takes_the_wider_channel_count() {
    let config = Config::default();
    let mut status = EngineStatus::default();
    let shape = shape_graph(
        &config,
        format(48_000, 1),
        format(44_100, 2),
        480,
        "Card",
        "Speakers",
        &mut status,
    );
    assert_eq!(shape.dsp_channels, 2);
    assert!(shape.bypass_dsp && shape.resample);
    assert_eq!(shape.ring_frames, 44_100 * 120 / 1000);
    assert_eq!(shape.render_buffer_frames, 480);
    assert_eq!(
        status.source_description().as_deref(),
        Some("Card (48000 Hz, 1 ch, 32/32 float)")
    );
    assert_eq!(
        status.sink_description().as_deref(),
        Some("Speakers (44100 Hz, 2 ch, 32/32 float)")
    );
    let quiet = Config {
        bypass_mono_devices: false,
        resample_on_rate_mismatch: false,
        buffer_ms: 1,
        ..Config::default()
    };
    let shape =
        shape_graph(&quiet, format(8000, 1), format(8000, 1), 1, "a", "b", &mut status);
    assert!(!shape.bypass_dsp && !shape.resample);
    assert_eq!(shape.ring_frames, 1024);
}

#[test]
fn packets_are_judged() {
    let packet = |frames, flags| capture_step(&PacketReply::Packet { frames, flags });
    assert_eq!(packet(0, 2), PacketStep::ReleaseEmpty);
    assert_eq!(packet(480, 0), PacketStep::Decode(480));
    assert_eq!(packet(480, 2), PacketStep::Silence(480));
    assert_eq!(packet(480, 5), PacketStep::Decode(480));
    assert_eq!(packet(480, 7), PacketStep::Silence(480));
    let refused =
        |code| capture_step(&PacketReply::Refused { code, message: "gone".to_owned() });
    assert_eq!(refused(0x0889_0001), PacketStep::Over);
    assert_eq!(refused(-1), PacketStep::Failed("capture GetBuffer failed: gone".to_owned()));
}

#[test]
fn captured_frames_push_out_the_oldest() {
    let mut ring = RingBuffer::new(3, 2, 0i32);
    let mut status = EngineStatus::default();
    stage_frames(&mut ring, &[1, 1, 2, 2, 9], &mut status);
    assert_eq!((status.captured_frames(), status.overruns()), (2, 0));
    stage_frames(&mut ring, &[3, 3, 4, 4, 5, 5], &mut status);
    assert_eq!((status.captured_frames(), status.overruns()), (5, 2));
    let block = fill_block(&mut ring, 2, -1, &mut status);
    assert_eq!(block, vec![3, 3, 4, 4]);
    assert_eq!(status.underruns(), 0);
    let block = fill_block(&mut ring, 3, -1, &mut status);
    assert_eq!(block, vec![5, 5, -1, -1, -1, -1]);
    assert_eq!(status.underruns(), 2);
}

#[test]
fn the_render_side_takes_what_it_has_room_for() {
    assert_eq!(frames_to_render(480, 480), 0);
    assert_eq!(frames_to_render(480, 481), 0);
    assert_eq!(frames_to_render(480, 80), 400);
    assert_eq!(frames_to_render(100_000, 0), 48_000);
    let mut status = EngineStatus::default();
    status.rendered_frames = u64::MAX;
    note_rendered(3, &mut status);
    assert_eq!(status.rendered_frames(), 2);
}

#[test]
fn peaks_are_held_and_clipping_is_counted() {
    let bits = |v: &[f32]| v.iter().map(|s| s.to_bits()).collect::<Vec<u32>>();
    let mut status = EngineStatus::default();
    meter_block(&bits(&[0.25, -0.75, 0.5]), 0, &mut status);
    assert_eq!(f32::from_bits(status.peak_level()), 0.75);
    assert_eq!(status.clipped_samples(), 0);
    meter_block(&bits(&[1.0, -1.5, 2.0, f32::NAN, -1.0]), 0.5f32.to_bits(), &mut status);
    assert_eq!(f32::from_bits(status.peak_level()), 1.0);
    assert_eq!(status.clipped_samples(), 2);
    meter_block(&bits(&[0.1]), 0.85f32.to_bits(), &mut status);
    assert_eq!(f32::from_bits(status.peak_level()), 0.85);
    meter_block(&bits(&[0.1]), f32::NAN.to_bits(), &mut status);
    assert_eq!(f32::from_bits(status.peak_level()), 0.1);
}

#[test]
fn a_ring_must_be_addressable() {
    assert!(ring_fits(48_000, 60, 2));
    assert!(ring_fits(0, 0, 0));
    let frames = u128::from(u32::MAX) * u128::from(u32::MAX) / 1000;
    let most = (usize::MAX as u128 / frames) as u16;
    assert!(ring_fits(u32::MAX, u32::MAX, most));
    assert!(!ring_fits(u32::MAX, u32::MAX, most + 1));
}
