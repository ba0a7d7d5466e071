use fxtrumpet::engine::{SampleKind, StreamFormat};
use fxtrumpet::samples::{decode_to_f32, encode_from_f32};

fn format(kind: SampleKind) -> StreamFormat {
    let bits = if kind == SampleKind::Pcm16 { 16 } else { 32 };
    StreamFormat { rate: 48_000, channels: 1, container_bits: bits, valid_bits: bits, kind }
}

fn decode(kind: SampleKind, bytes: &[u8]) -> Vec<f32> {
    let mut out = Vec::new();
    decode_to_f32(bytes, format(kind), &mut out);
    out.into_iter().map(f32::from_bits).collect()
}

fn encode(kind: SampleKind, samples: &[f32], size: usize) -> Vec<u8> {
    let bits: Vec<u32> = samples.iter().map(|s| s.to_bits()).collect();
    let mut out = vec![0u8; size];
    encode_from_f32(&bits, format(kind), &mut out);
    out
}

#[test]
fn encode_clamps_instead_of_wrapping() {
    let format = StreamFormat {
        rate: 48_000,
        channels: 1,
        container_bits: 16,
        valid_bits: 16,
        kind: SampleKind::Pcm16,
    };
    let mut out = vec![0u8; 4];
    encode_from_f32(&[4.0f32.to_bits(), (-4.0f32).to_bits()], format, &mut out);
    assert_eq!(i16::from_le_bytes([out[0], out[1]]), i16::MAX);
    assert_eq!(i16::from_le_bytes([out[2], out[3]]), i16::MIN + 1);
}

#[test]
fn sixteen_bits_decode_exactly() {
    for v in i16::MIN..=i16::MAX {
        let got = decode(SampleKind::Pcm16, &v.to_le_bytes());
        assert_eq!(got[0].to_bits(), (f32::from(v) / 32_768.0).to_bits(), "{v}");
    }
    assert_eq!(decode(SampleKind::Pcm16, &[0, 0x40, 7]), vec![0.5]);
}

fn numbers() -> Vec<u32> {
    let mut out = vec![0, 1, 2, 255, 256, 257, 0x7fff_ffff, 0x8000_0000, 0x8000_0001, 0xffff_ffff];
    for shift in 0..32 {
        for delta in [-1i64, 0, 1, 64, 128, 129, 192] {
            out.push(((1i64 << shift) + delta) as u32);
            out.push((-(1i64 << shift) - delta) as u32);
        }
    }
    let mut seed: u64 = 1;
    for _ in 0..3000 {
        seed = seed.wrapping_mul(6364136223846793005).wrapping_add(1442695040888963407);
        out.push((seed >> 32) as u32 >> (seed % 29));
        out.push((seed >> 32) as u32);
    }
    out
}

#[test]
fn wider_integers_decode_as_single_precision_does() {
    for n in numbers() {
        let v = n as i32;
        let bytes = v.to_le_bytes();
        let as24 = (v >> 8) as f32 / 8_388_608.0;
        let as32 = v as f32 / 2_147_483_648.0;
        assert_eq!(decode(SampleKind::Pcm24In32, &bytes)[0].to_bits(), as24.to_bits(), "{v}");
        assert_eq!(decode(SampleKind::Pcm32, &bytes)[0].to_bits(), as32.to_bits(), "{v}");
        assert_eq!(decode(SampleKind::Float32, &bytes)[0].to_bits(), n);
    }
}

#[test]
fn levels_encode_as_floating_point_does() {
    let mut levels: Vec<f32> = numbers().into_iter().map(f32::from_bits).collect();
    for k in -40_000..40_000 {
        levels.push(k as f32 / 32_767.0);
        levels.push((k as f32 + 0.5) / 32_767.0);
    }
    for sample in levels {
        let clamped = sample.clamp(-1.0, 1.0);
        let as16 = ((clamped * 32_767.0).round() as i32) as i16;
        let as24 = ((clamped * 8_388_607.0).round() as i32) << 8;
        let as32 = ((f64::from(clamped) * 2_147_483_647.0).round() as i64) as i32;
        assert_eq!(encode(SampleKind::Pcm16, &[sample], 2), as16.to_le_bytes(), "{sample:e}");
        assert_eq!(encode(SampleKind::Pcm24In32, &[sample], 4), as24.to_le_bytes(), "{sample:e}");
        assert_eq!(encode(SampleKind::Pcm32, &[sample], 4), as32.to_le_bytes(), "{sample:e}");
        assert_eq!(encode(SampleKind::Float32, &[sample], 4), sample.to_bits().to_le_bytes());
    }
}

#[test]
fn a_short_block_leaves_the_rest_alone() {
    let mut out = vec![9u8; 5];
    encode_from_f32(&[1.0f32.to_bits()], format(SampleKind::Pcm16), &mut out);
    assert_eq!(out, vec![0xff, 0x7f, 9, 9, 9]);
    let mut out = vec![9u8; 3];
    encode_from_f32(&[0, 0, 0], format(SampleKind::Pcm16), &mut out);
    assert_eq!(out, vec![0, 0, 9]);
    let mut levels = vec![7u32];
    decode_to_f32(&[0, 0x40, 0, 0xc0], format(SampleKind::Pcm16), &mut levels);
    assert_eq!(levels, vec![7, 0.5f32.to_bits(), (-0.5f32).to_bits()]);
}
