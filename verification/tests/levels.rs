use fxtrumpet::endpoint::{levels, set_volume, EndpointLevels};
use fxtrumpet::float::{absolute, clamp, equal, less, not_a_number};

#[test]
fn a_level_is_clamped_before_it_reaches_windows() {
    // A slider drag can momentarily produce a value outside the range.
    let values = [-0.5f32, 0.0, 0.5, 1.0, 1.5];
    for value in values {
        let clamped = f32::from_bits(set_volume(value.to_bits()));
        assert_eq!(clamped, value.clamp(0.0, 1.0));
        assert!((0.0..=1.0).contains(&clamped), "{value} → {clamped}");
    }
}

#[test]
fn levels_compare_as_numbers() {
    let samples = [
        0.0f32,
        -0.0,
        1.0,
        -1.0,
        1.0e-45,
        -1.0e-45,
        0.5,
        2.5,
        f32::MAX,
        f32::MIN,
        f32::INFINITY,
        f32::NEG_INFINITY,
        f32::NAN,
        -f32::NAN,
    ];
    for a in samples {
        assert_eq!(not_a_number(a.to_bits()), a.is_nan());
        assert_eq!(absolute(a.to_bits()), a.abs().to_bits());
        assert_eq!(clamp(a.to_bits(), 0, 1.0f32.to_bits()), a.clamp(0.0, 1.0).to_bits(), "{a}");
        for b in samples {
            assert_eq!(equal(a.to_bits(), b.to_bits()), a == b, "{a} == {b}");
            assert_eq!(less(a.to_bits(), b.to_bits()), a < b, "{a} < {b}");
        }
    }
}

#[test]
fn a_refused_reading_is_the_default() {
    assert_eq!(levels(false, Some(1), Some(true), Some(2)), None);
    assert_eq!(
        levels(true, None, None, None),
        Some(EndpointLevels { volume: 1.0f32.to_bits(), muted: false, peak: 0 })
    );
    assert_eq!(
        levels(true, Some(7), Some(true), Some(9)),
        Some(EndpointLevels { volume: 7, muted: true, peak: 9 })
    );
}
