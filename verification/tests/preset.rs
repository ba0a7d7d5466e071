use fxtrumpet::ffi;
use fxtrumpet::preset::{
    embedded_count, embedded_file_name, embedded_presets, library, list_dir, main_slot_label,
    main_slot_to_effect, preset_origin, unpack_embedded_presets, FacPreset, PresetFile,
    PresetOrigin,
};

/// A preset in the layout of the bundled ones: CRLF, labelled lines, and the
/// integers away from their header.
const MUSIC: &str = "CLASS1 : Effect Type\r\n9: Version\r\n音乐\r\n0: Double Params Flag\r\n\
1: Total number of elements\r\n50: Main 0\r\n35: Main 1\r\n 0: Main 2\r\n35: Main 3\r\n\
20: Main 4\r\n60: Main 5\r\n7: Number of Application Dependent Integers\r\n\
0: Number of Application Dependent Reals\r\n0: Number of Application Dependent Strings\r\n\
1: Integer[0]\r\n1: Integer[1]\r\n1: Integer[2]\r\n1: Integer[3]\r\n1: Integer[4]\r\n\
0: Integer[5]\r\n2: Integer[6]\r\n10: Number of EQ Bands\r\n1: On/Off Flag\r\n\
Band 1\r\n   62.5: CF\r\n   0: Boost/Cut\r\nBand 2\r\n   125: CF\r\n   1: Boost/Cut\r\n\
Band 3\r\n   250: CF\r\n   2: Boost/Cut\r\nBand 4\r\n   500: CF\r\n   -1.5: Boost/Cut\r\n\
Band 5\r\n   1000: CF\r\n   0: Boost/Cut\r\nBand 6\r\n   2000: CF\r\n   0: Boost/Cut\r\n\
Band 7\r\n   4000: CF\r\n   1: Boost/Cut\r\nBand 8\r\n   8000: CF\r\n   1: Boost/Cut\r\n\
Band 9\r\n   12000: CF\r\n   2: Boost/Cut\r\nBand 10\r\n   16000: CF\r\n   2: Boost/Cut\r\n";

fn music() -> FacPreset {
    FacPreset::from_bytes("Music.fac", MUSIC.as_bytes()).expect("a preset")
}

fn bands(preset: &FacPreset) -> Vec<(f64, f64)> {
    preset
        .bands
        .iter()
        .map(|band| (band.frequency.parse().unwrap_or(0.0), band.gain.parse().unwrap_or(0.0)))
        .collect()
}

#[test]
fn parses_the_bundled_preset() {
    let preset = music();
    assert_eq!(preset.version, 9);
    assert_eq!(preset.name, "音乐");
    assert_eq!(preset.mains, [50, 35, 0, 35, 20, 60]);
    let bands = bands(&preset);
    assert_eq!(bands.len(), 10);
    assert_eq!(bands[0], (62.5, 0.0));
    assert_eq!(bands[3], (500.0, -1.5));
    assert_eq!(bands[9], (16000.0, 2.0));
    assert!(preset.app_flags.len() >= 5);
    assert_eq!(preset.path, "Music.fac");
    assert!(preset.eq_on);
}

#[test]
fn main_slot_mapping_is_not_the_enum_ordinal() {
    // The trap this table exists to prevent.
    assert_eq!(main_slot_to_effect(1), Some(ffi::DFX_EFFECT_SURROUND));
    assert_ne!(main_slot_to_effect(1), Some(1));
    assert_eq!(main_slot_to_effect(3), Some(ffi::DFX_EFFECT_AMBIENCE));
    assert_ne!(main_slot_to_effect(3), Some(3));

    let preset = music();
    // Main 0 = 50, and 50 / 12.7 must land back on 50 via the setter.
    let fidelity = f64::from(preset.effect_main(ffi::DFX_EFFECT_FIDELITY).unwrap()) / 12.7;
    assert!((fidelity - 3.937).abs() < 0.01, "got {fidelity}");
}

#[test]
fn rejects_a_non_preset() {
    assert!(FacPreset::from_bytes("x.fac", b"hello\nworld\n").is_err());
    assert_eq!(
        FacPreset::from_bytes("x.fac", "he\"llo\r\nworld\n".as_bytes()).unwrap_err(),
        "not a CLASS1 preset file (first line was \"he\\\"llo\")"
    );
    assert!(FacPreset::from_bytes("x.fac", b"").is_err());
}

#[test]
fn tolerates_crlf_and_bom() {
    let mut bytes = vec![0xEF, 0xBB, 0xBF];
    bytes.extend_from_slice(MUSIC.as_bytes());
    let preset = FacPreset::from_bytes("Music.fac", &bytes).unwrap();
    assert_eq!(preset.mains[0], 50);
    let unix = MUSIC.replace('\r', "");
    assert_eq!(FacPreset::from_bytes("Music.fac", unix.as_bytes()).unwrap(), music());
}

#[test]
fn app_flags_are_not_adjacent_to_their_header() {
    let preset = music();
    assert_eq!(preset.app_flags, vec![1, 1, 1, 1, 1, 0, 2]);
}

#[test]
fn effect_enable_flags_line_up_with_the_slot_map() {
    let preset = music();
    for effect in [
        ffi::DFX_EFFECT_FIDELITY,
        ffi::DFX_EFFECT_SURROUND,
        ffi::DFX_EFFECT_AMBIENCE,
        ffi::DFX_EFFECT_DYNAMIC_BOOST,
        ffi::DFX_EFFECT_BASS,
    ] {
        assert!(preset.effect_enabled(effect), "effect {effect} should be on");
    }
    assert!(!preset.effect_enabled(ffi::DFX_EFFECT_COUNT));
    let mut off = music();
    off.app_flags = vec![1, 1, 0, 1];
    assert!(!off.effect_enabled(ffi::DFX_EFFECT_AMBIENCE));
    assert!(!off.effect_enabled(ffi::DFX_EFFECT_BASS));
    assert!(off.effect_enabled(ffi::DFX_EFFECT_DYNAMIC_BOOST));
}

#[test]
fn a_custom_name_survives_and_a_missing_main_defaults_to_zero() {
    let text = "CLASS1 : Effect Type\r\n9: Version\r\nMy Preset\r\n50: Main 0\r\n";
    let preset = FacPreset::from_bytes("custom.fac", text.as_bytes()).unwrap();
    assert_eq!(preset.name, "My Preset");
    assert_eq!(preset.mains[0], 50);
    assert_eq!(preset.mains[5], 0);
    assert!(preset.bands.is_empty());
}

#[test]
fn odd_files_are_read_as_far_as_they_go() {
    let read = |text: &str| FacPreset::from_text("p", text).expect("a preset");
    let bare = read("CLASS1");
    assert_eq!((bare.version, bare.name.as_str(), bare.eq_on), (0, "", true));
    assert!(bare.bands.is_empty() && bare.app_flags.is_empty());
    // A value that is no number is passed over in favour of a later line.
    let p = read("CLASS1\n99999999999: V\n x \nfoo: Main 0\n-7: Main 0\n0: On/Off Flag\n");
    assert_eq!((p.version, p.mains[0], p.eq_on, p.name.as_str()), (0, -7, false, "x"));
    // An entry whose value is no number counts as zero; the count is kept.
    let p = read(
        "CLASS1\n\n\n2: Number of Application Dependent Integers\nx: Integer[3]\n5: Integer[x]\n\
         +6: Integer[+4]\n7: Integer[5]\n",
    );
    assert_eq!(p.app_flags, vec![0, 6]);
    let p = read("CLASS1\n\n\nx: Number of Application Dependent Integers\n1: Integer[0]\n");
    assert!(p.app_flags.is_empty());
    // Bands end with the section, and the last may lack its gain.
    let p = read("CLASS1\n\n\n5: Number of EQ Bands\nBand 1\n 1: CF\n 2: B\nother\nBand 2\n 3: CF\n");
    assert_eq!(bands(&p), vec![(1.0, 2.0)]);
    let p = read("CLASS1\n\n\n5: Number of EQ Bands\nBand 1\n 1: CF");
    assert_eq!(bands(&p), vec![(1.0, 0.0)]);
    let p = read("CLASS1\n\n\n0: Number of EQ Bands\nBand 1\n bad\n 2: B\nBand 2\n 3: CF\n 4: B");
    assert_eq!(bands(&p), vec![(0.0, 2.0)]);
    let p = read("CLASS1\n\n\n1: Number of EQ Bands\nBand 1");
    assert!(p.bands.is_empty());
}

#[test]
fn the_summary_leaves_out_the_reserved_slot() {
    assert_eq!(
        music().effect_summary(),
        "Fidelity=50 Surround=35 Ambience=35 DynamicBoost=20 Bass=60"
    );
    assert_eq!(main_slot_label(2), "(reserved)");
    assert_eq!(main_slot_to_effect(2), None);
    assert_eq!(music().effect_main(17), None);
    assert_eq!(music().effect_main(ffi::DFX_EFFECT_BASS), Some(60));
}

#[test]
fn invalid_utf8_does_not_hide_the_rest() {
    let mut bytes = b"CLASS1\n9: Version\nMus".to_vec();
    bytes.push(0xff);
    bytes.extend_from_slice(b"ic\n3: Main 0\n");
    let preset = FacPreset::from_bytes("x", &bytes).expect("a preset");
    assert_eq!(preset.name, "Mus\u{fffd}ic");
    assert_eq!(preset.mains[0], 3);
}

fn file(path: &str, name: &str) -> PresetFile {
    PresetFile {
        path: path.to_owned(),
        content: Some(format!("CLASS1\n9: Version\n{name}\n").into_bytes()),
    }
}

#[test]
fn the_library_is_sorted_and_knows_what_was_shipped() {
    let files = vec![
        file(r"C:\p\mine.fac", "beta"),
        file(r"C:\p\MUSIC.FAC", "BETA"),
        file(r"C:\p\notes.txt", "alpha"),
        PresetFile { path: r"C:\p\locked.fac".to_owned(), content: None },
        PresetFile { path: r"C:\p\junk.fac".to_owned(), content: Some(b"junk".to_vec()) },
        file(r"C:\p\.fac", "hidden"),
        file(r"C:\p\Jazz.fac", "Alpha"),
    ];
    let all = library(&files);
    let shown: Vec<(&str, PresetOrigin)> =
        all.iter().map(|e| (e.name.as_str(), e.origin)).collect();
    assert_eq!(
        shown,
        vec![
            ("Alpha", PresetOrigin::BuiltIn),
            ("BETA", PresetOrigin::BuiltIn),
            ("beta", PresetOrigin::User),
        ]
    );
    let listed = list_dir(&files, PresetOrigin::User);
    let names: Vec<&str> = listed.iter().map(|e| e.name.as_str()).collect();
    assert_eq!(names, vec!["Alpha", "beta", "BETA"]);
    assert_eq!(preset_origin(r"x\rnb.fac"), PresetOrigin::BuiltIn);
    assert_eq!(preset_origin(""), PresetOrigin::User);
    assert_eq!(embedded_presets(&files).len(), 5);
}

#[test]
fn bundled_presets_are_unpacked_where_they_are_missing() {
    assert_eq!(embedded_count(), 17);
    assert_eq!(embedded_file_name(0), "Music.fac");
    assert_eq!(embedded_file_name(16), "Preset6.fac");
    let mut present = [true; 17];
    assert!(unpack_embedded_presets(&present).is_empty());
    present[3] = false;
    present[16] = false;
    assert_eq!(unpack_embedded_presets(&present), vec![3, 16]);
}
