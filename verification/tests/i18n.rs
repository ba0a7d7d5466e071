use fxtrumpet::i18n::{current, resolve, t, Lang, LanguageCell, AUTO};
use fxtrumpet::router::RouteMethod;
use fxtrumpet::strings::{en, zh};

#[test]
fn config_codes_round_trip() {
    for lang in Lang::all() {
        assert_eq!(Lang::from_code(lang.code()), Some(lang));
    }
}

#[test]
fn aliases_and_junk() {
    assert_eq!(Lang::from_code("ZH-CN"), Some(Lang::Zh));
    assert_eq!(Lang::from_code(" en "), Some(Lang::En));
    // `auto` must not resolve to a language here — that is `resolve`'s job.
    assert_eq!(Lang::from_code(AUTO), None);
    assert!(Lang::is_auto(AUTO));
    assert!(Lang::is_auto(" Auto "));
    assert!(!Lang::is_auto("zh"));
}

#[test]
fn every_string_is_present_in_both_languages() {
    for lang in Lang::all() {
        let strings = lang.table();
        let tray = &strings.tray;
        for (name, value) in [
            ("enabled", tray.enabled),
            ("route_through", tray.route_through),
            ("route_through_done", tray.route_through_done),
            ("panel", tray.panel),
            ("mixer", tray.mixer),
            ("presets", tray.presets),
            ("no_presets", tray.no_presets),
            ("autostart", tray.autostart),
            ("install_driver", tray.install_driver),
            ("remove_driver", tray.remove_driver),
            ("rescan", tray.rescan),
            ("language", tray.language),
            ("quit", tray.quit),
            ("no_preset", tray.no_preset),
            ("not_enhanced", tray.not_enhanced),
            ("tooltip_idle", tray.tooltip_idle),
            ("tooltip_disabled", tray.tooltip_disabled),
            ("tooltip_no_card", tray.tooltip_no_card),
        ] {
            assert!(!value.trim().is_empty(), "{} tray.{name} is empty", lang.code());
        }

        let panel = &strings.panel;
        for (name, value) in [
            ("enabled", panel.enabled),
            ("status_processing", panel.status_processing),
            ("status_idle", panel.status_idle),
            ("status_no_card", panel.status_no_card),
            ("preset", panel.preset),
            ("no_selection", panel.no_selection),
            ("effects", panel.effects),
            ("effect_fidelity", panel.effect_fidelity),
            ("effect_surround", panel.effect_surround),
            ("effect_ambience", panel.effect_ambience),
            ("effect_dynamic_boost", panel.effect_dynamic_boost),
            ("effect_bass", panel.effect_bass),
            ("equalizer", panel.equalizer),
            ("bands", panel.bands),
            ("eq_hint", panel.eq_hint),
            ("eq_reset", panel.eq_reset),
            ("output", panel.output),
            ("balance", panel.balance),
            ("master_gain", panel.master_gain),
            ("normalization", panel.normalization),
            ("volume_leveling", panel.volume_leveling),
            ("filter_q", panel.filter_q),
            ("spectrum", panel.spectrum),
            ("save_name_hint", panel.save_name_hint),
            ("save_button", panel.save_button),
            ("save_help", panel.save_help),
            ("save_where", panel.save_where),
            ("device_in_prefix", panel.device_in_prefix),
            ("device_out_prefix", panel.device_out_prefix),
            ("latency_label", panel.latency_label),
            ("underruns_label", panel.underruns_label),
            ("drops_label", panel.drops_label),
            ("frames_unit", panel.frames_unit),
            ("saved_ok", panel.saved_ok),
            ("save_name_required", panel.save_name_required),
            ("save_name_invalid", panel.save_name_invalid),
            ("save_overwrote", panel.save_overwrote),
            ("save_failed", panel.save_failed),
        ] {
            assert!(!value.trim().is_empty(), "{} panel.{name} is empty", lang.code());
        }

        let mixer = &strings.mixer;
        for (name, value) in [
            ("title", mixer.title),
            ("devices", mixer.devices),
            ("apps", mixer.apps),
            ("routing", mixer.routing),
            ("follow_system", mixer.follow_system),
            ("bypasses", mixer.bypasses),
            ("set_default", mixer.set_default),
            ("is_default", mixer.is_default),
            ("virtual_card", mixer.virtual_card),
            ("system_sounds", mixer.system_sounds),
            ("no_devices", mixer.no_devices),
            ("no_apps", mixer.no_apps),
            ("no_routes", mixer.no_routes),
            ("policy_unavailable", mixer.policy_unavailable),
            ("method_policy", mixer.method_policy),
            ("method_injection", mixer.method_injection),
            ("injection_unavailable", mixer.injection_unavailable),
            ("routing_hint", mixer.routing_hint),
            ("remove", mixer.remove),
            ("mute", mixer.mute),
            ("unmute", mixer.unmute),
            ("streams_suffix", mixer.streams_suffix),
        ] {
            assert!(!value.trim().is_empty(), "{} mixer.{name} is empty", lang.code());
        }
    }
}

#[test]
fn the_save_messages_actually_interpolate() {
    for lang in Lang::all() {
        let panel = lang.table().panel;
        for template in [panel.saved_ok, panel.save_overwrote] {
            assert!(template.contains("{}"), "{}: {template:?} has no placeholder", lang.code());
        }
        assert!(panel.saved("x.fac", false).contains("x.fac"));
        assert!(panel.saved("x.fac", true).contains("x.fac"));
    }
    assert_eq!(en().panel.saved("x.fac", false), "Saved x.fac");
    assert_eq!(zh().panel.saved("x.fac", true), "已覆盖 x.fac");
}

#[test]
fn selecting_a_language_is_visible_through_t() {
    let mut cell = LanguageCell::new();
    fxtrumpet::i18n::set(&mut cell, Lang::En);
    assert_eq!(current(&cell), Lang::En);
    assert_eq!(t(&cell).tray.quit, "Quit");
    fxtrumpet::i18n::set(&mut cell, Lang::Zh);
    assert_eq!(current(&cell), Lang::Zh);
    assert_eq!(t(&cell).tray.quit, "退出");
}

#[test]
fn tooltip_composition_covers_all_four_cases() {
    let text = zh().tray;
    assert_eq!(text.tooltip_playing(Some("音乐"), None, false), "FxTrumpet — 音乐");
    assert_eq!(text.tooltip_playing(None, None, false), "FxTrumpet — 无预设");
    assert_eq!(text.tooltip_playing(None, Some("boom"), false), "FxTrumpet — 无预设 (boom)");
    assert_eq!(
        text.tooltip_playing(Some("音乐"), None, true),
        "FxTrumpet — 音乐 — 输出未经增强（默认设备不是虚拟声卡）"
    );
}

#[test]
fn device_lines_fall_back_to_a_dash() {
    assert_eq!(zh().panel.input_line(None), "输入  —");
    assert_eq!(en().panel.output_line(Some("Speakers")), "Out  Speakers");
    assert_eq!(zh().panel.latency(120), "延迟 120 ms");
    assert_eq!(en().panel.underruns(3), "underruns 3");
}

#[test]
fn large_counters_are_abbreviated_in_the_languages_own_scale() {
    assert_eq!(zh().panel.underruns(0), "欠载 0");
    assert_eq!(zh().panel.underruns(9_999), "欠载 9999");
    assert_eq!(zh().panel.underruns(24_302_880), "欠载 2430.3 万");
    assert_eq!(zh().panel.underruns(250_000_000), "欠载 2.50 亿");

    assert_eq!(en().panel.underruns(0), "underruns 0");
    assert_eq!(en().panel.underruns(9_999), "underruns 9999");
    assert_eq!(en().panel.underruns(24_302_880), "underruns 24.3M");
    assert_eq!(en().panel.underruns(2_500_000_000), "underruns 2.5B");
}

#[test]
fn the_detail_tooltip_keeps_the_exact_figure() {
    let detail = zh().panel.stats_detail(12, 24_302_880, 2);
    assert!(detail.contains("24302880"), "{detail}");
    assert!(detail.contains("延迟 12 ms"), "{detail}");
    assert!(detail.contains("丢帧 2"), "{detail}");
    assert_eq!(detail, "延迟 12 ms\n欠载 24302880 帧\n丢帧 2");
}

fn plain_abbreviation(by_ten_thousand: bool, n: u64) -> String {
    let x = n as f64;
    if by_ten_thousand {
        if n >= 100_000_000 {
            format!("{:.2} 亿", x / 100_000_000.0)
        } else if n >= 10_000 {
            format!("{:.1} 万", x / 10_000.0)
        } else {
            n.to_string()
        }
    } else if n >= 1_000_000_000 {
        format!("{:.1}B", x / 1_000_000_000.0)
    } else if n >= 1_000_000 {
        format!("{:.1}M", x / 1_000_000.0)
    } else if n >= 10_000 {
        format!("{:.1}K", x / 1000.0)
    } else {
        n.to_string()
    }
}

#[test]
fn abbreviations_round_as_double_precision_does() {
    let mut values: Vec<u64> = vec![
        0,
        9_999,
        10_000,
        10_500,
        11_500,
        12_500,
        13_500,
        10_049,
        10_050,
        10_051,
        99_949,
        99_950,
        999_949,
        999_950,
        999_999,
        1_000_000,
        99_999_999,
        100_000_000,
        100_500_000,
        101_500_000,
        112_500_000,
        999_999_999,
        1_000_000_000,
        1_050_000_000,
        (1 << 53) - 1,
        1 << 53,
        (1 << 53) + 1,
        (1 << 53) + 3,
        u64::MAX,
        u64::MAX - 1024,
        u64::MAX - 1025,
        1 << 63,
    ];
    let mut seed: u64 = 0x9e37_79b9_7f4a_7c15;
    for _ in 0..4000 {
        seed = seed.wrapping_mul(6364136223846793005).wrapping_add(1442695040888963407);
        values.push(seed >> (seed % 51));
    }
    // Every half in the scales, which is where rounding twice matters.
    for k in 0..2000u64 {
        values.push(10_000 + 50 * k);
        values.push(10_000 + 500 * k);
        values.push(1_000_000 + 50_000 * k);
        values.push(100_000_000 + 500_000 * k);
        values.push(1_000_000_000 + 50_000_000 * k);
    }
    for n in values {
        assert_eq!(zh().panel.abbreviate(n), plain_abbreviation(true, n), "{n}");
        assert_eq!(en().panel.abbreviate(n), plain_abbreviation(false, n), "{n}");
    }
    assert_eq!(en().panel.drops(12_500), "drops 12.5K");
    assert_eq!(zh().panel.drops(12_500), "丢帧 1.2 万");
}

#[test]
fn an_unrecognised_language_follows_the_system() {
    assert_eq!(resolve("zh-hans", 0x0409), Lang::Zh);
    assert_eq!(resolve("en-GB", 0x0804), Lang::En);
    assert_eq!(resolve("auto", 0x0804), Lang::Zh);
    assert_eq!(resolve("auto", 0x0409), Lang::En);
    assert_eq!(resolve("klingon", 0x0c04), Lang::Zh);
    assert_eq!(Lang::from_system(0x0411), Lang::En);
    assert_eq!(Lang::Zh.endonym(), "中文");
    assert_eq!(Lang::En.endonym(), "English");
}

#[test]
fn the_mixer_names_streams_and_mechanisms() {
    let text = en().mixer;
    assert_eq!(text.streams(0), "");
    assert_eq!(text.streams(1), "");
    assert_eq!(text.streams(3), " · 3 streams");
    assert_eq!(zh().mixer.streams(3), " · 3 条流");
    assert_eq!(text.method_label(RouteMethod::Policy), "system policy");
    assert_eq!(text.method_label(RouteMethod::Injection), "injection");
}
