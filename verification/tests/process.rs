use fxtrumpet::process::{
    apply_mask_alpha, bgra_to_rgba, display_name, file_stem_name, forget_exited, icon_for,
    icon_pixels, icon_size, identify, reported_aumid, AppIdentity, AppKey,
    IconCache, IconPixels, IdentityCache,
};
use std::collections::HashSet;

#[test]
fn keys_round_trip_through_storage() {
    let cases = [
        AppKey::Packaged("Microsoft.WindowsCalculator_8wekyb3d8bbwe!App".to_owned()),
        AppKey::Executable(r"C:\Program Files\App\app.exe".to_owned()),
        AppKey::SystemSounds,
    ];
    for key in cases {
        let stored = key.to_storage();
        assert_eq!(
            AppKey::from_storage(&stored).as_ref(),
            Some(&key),
            "round trip failed for {stored}"
        );
    }
    assert_eq!(AppKey::Packaged("x!App".to_owned()).to_storage(), "aumid:x!App");
    assert_eq!(AppKey::Executable("x".to_owned()).to_storage(), "exe:x");
    assert_eq!(AppKey::SystemSounds.to_storage(), "system-sounds");
}

#[test]
fn an_empty_payload_is_not_a_key() {
    assert_eq!(AppKey::from_storage("aumid:"), None);
    assert_eq!(AppKey::from_storage("exe:"), None);
    assert_eq!(AppKey::from_storage("nonsense"), None);
    assert_eq!(AppKey::from_storage(""), None);
}

#[test]
fn executable_paths_compare_case_insensitively() {
    let a = AppKey::Executable(r"C:\Apps\Music.exe".to_owned());
    let b = AppKey::Executable(r"c:\apps\MUSIC.EXE".to_owned());
    assert!(a.same_as(&b));
    assert_eq!(a, b, "a case difference must still hash the same way");
    // Only ASCII letters are folded.
    assert!(!AppKey::Executable("Ä".to_owned()).same_as(&AppKey::Executable("ä".to_owned())));
    assert!(!AppKey::Packaged("A".to_owned()).same_as(&AppKey::Packaged("a".to_owned())));
}

#[test]
fn equal_keys_share_a_hash_bucket() {
    let mut set: HashSet<AppKey> = HashSet::new();
    assert!(set.insert(AppKey::Executable(r"C:\Apps\Music.exe".to_owned())));
    assert!(
        !set.insert(AppKey::Executable(r"c:\apps\MUSIC.EXE".to_owned())),
        "one program spelled two ways must not become two entries"
    );
    assert_eq!(set.len(), 1);

    let mut mixed: HashSet<AppKey> = HashSet::new();
    mixed.insert(AppKey::Packaged("x!App".to_owned()));
    mixed.insert(AppKey::Executable("x!App".to_owned()));
    mixed.insert(AppKey::SystemSounds);
    assert_eq!(mixed.len(), 3);
}

#[test]
fn a_packaged_key_is_not_a_path_key() {
    let a = AppKey::Packaged("x!App".to_owned());
    let b = AppKey::Executable("x!App".to_owned());
    assert!(!a.same_as(&b));
}

#[test]
fn system_sounds_never_matches_anything_else() {
    assert!(AppKey::SystemSounds.same_as(&AppKey::SystemSounds));
    assert!(!AppKey::SystemSounds.same_as(&AppKey::Executable("x".to_owned())));
}

#[test]
fn the_display_name_falls_back_to_the_file_stem() {
    assert_eq!(file_stem_name(r"C:\Apps\Spotify.exe"), "Spotify");
    // A path with no file name at all still produces something printable.
    assert_eq!(file_stem_name(""), "Unknown application");
}

#[test]
fn a_file_stem_has_no_extension() {
    assert_eq!(file_stem_name(r"C:\a.b.exe"), "a.b");
    assert_eq!(file_stem_name(r"C:\.profile"), ".profile");
    assert_eq!(file_stem_name(r"C:\name"), "name");
    assert_eq!(file_stem_name(r"C:\name."), "name");
}

#[test]
fn a_packaged_app_is_named_by_the_last_aumid_segment() {
    let identity = AppIdentity {
        process_id: 1,
        executable: None,
        display_name: "Calculator".to_owned(),
        app_user_model_id: Some("Microsoft.WindowsCalculator_8wekyb3d8bbwe!App".to_owned()),
    };
    assert_eq!(
        identity.key(),
        AppKey::Packaged("Microsoft.WindowsCalculator_8wekyb3d8bbwe!App".to_owned())
    );
}

#[test]
fn identities_are_found_out_once() {
    let mut cache = IdentityCache::new();
    let some = |s: &str| Some(s.to_owned());
    assert_eq!(identify(&mut cache, 0, some("x"), None), None);
    let a = identify(&mut cache, 7, some("Pkg_1!Player"), some(r"C:\p.exe")).expect("found");
    assert_eq!(a.display_name, "Player");
    assert_eq!(a.key(), AppKey::Packaged("Pkg_1!Player".to_owned()));
    // The second lookup does not look at what is handed in.
    assert_eq!(identify(&mut cache, 7, None, None), Some(a));
    assert_eq!(identify(&mut cache, 8, None, None), None);
    assert_eq!(identify(&mut cache, 8, None, some("late.exe")), None);
    let c = identify(&mut cache, 9, some("Pkg!"), None).expect("found");
    assert_eq!(c.display_name, "Pkg!");
    assert_eq!(
        AppKey::of_process(&mut cache, 10, None, some(r"D:\Game.exe")),
        Some(AppKey::Executable(r"d:\GAME.EXE".to_owned()))
    );
    assert_eq!(AppKey::of_process(&mut cache, 8, None, None), None);
    assert_eq!(display_name(9, &Some(c)), "Pkg!");
    assert_eq!(display_name(4711, &None), "PID 4711");

    let mut known = cache.process_ids();
    known.sort();
    assert_eq!(known, vec![7, 8, 9, 10]);
    forget_exited(&mut cache, &[8], &[10]);
    let mut known = cache.process_ids();
    known.sort();
    assert_eq!(known, vec![8, 10]);
    assert_eq!(cache.get(7), None);
    assert_eq!(cache.get(8), Some(None));
}

#[test]
fn a_process_without_a_path_is_keyed_by_its_name() {
    let identity = AppIdentity {
        process_id: 1,
        executable: None,
        display_name: "Name".to_owned(),
        app_user_model_id: None,
    };
    assert_eq!(identity.key(), AppKey::Packaged("Name".to_owned()));
    assert_eq!(reported_aumid(Some("x!A\0\0".to_owned())), Some("x!A".to_owned()));
    assert_eq!(reported_aumid(Some("\0".to_owned())), None);
    assert_eq!(reported_aumid(None), None);
}

#[test]
fn icon_pixels_change_their_byte_order() {
    assert_eq!(bgra_to_rgba(&[1, 2, 3, 4, 5, 6, 7, 8, 9]), vec![3, 2, 1, 4, 7, 6, 5, 8]);
    let icon = icon_pixels(1, 1, &[1, 2, 3, 4], Some(&[0, 0, 0, 0]));
    assert_eq!(icon, IconPixels { width: 1, height: 1, rgba: vec![3, 2, 1, 4] });
}

#[test]
fn an_invisible_icon_gets_its_alpha_from_the_mask() {
    // Two rows of nine pixels; the mask is stored bottom-up, eight bits a byte.
    let bgra = vec![0u8; 4 * 18];
    let mask = [0b1000_0000, 0b1000_0000, 0, 0, 0b0000_0001, 0, 0, 0];
    let icon = icon_pixels(9, 2, &bgra, Some(&mask));
    let alpha: Vec<u8> = icon.rgba.chunks(4).map(|p| p[3]).collect();
    assert_eq!(
        alpha,
        vec![255, 255, 255, 255, 255, 255, 255, 0, 255, 0, 255, 255, 255, 255, 255, 255, 255, 0]
    );
    // Without a mask it stays as it is.
    assert!(icon_pixels(9, 2, &bgra, None).rgba.iter().all(|b| *b == 0));
    let mut rgba = vec![9, 9, 9, 9];
    apply_mask_alpha(&mut rgba, 1, 1, &[0x7f, 0, 0, 0]);
    assert_eq!(rgba, vec![9, 9, 9, 255]);
}

#[test]
fn a_monochrome_icon_reports_twice_its_height() {
    assert_eq!(icon_size(true, 32, 32), Some((32, 32)));
    assert_eq!(icon_size(false, 32, 64), Some((32, 32)));
    assert_eq!(icon_size(true, 0, 32), None);
    assert_eq!(icon_size(true, 32, -1), None);
}

#[test]
fn icons_are_cached_by_application() {
    let identity = |pid, path: &str| AppIdentity {
        process_id: pid,
        executable: Some(path.to_owned()),
        display_name: "x".to_owned(),
        app_user_model_id: None,
    };
    let icon = |v| IconPixels { width: 1, height: 1, rgba: vec![v; 4] };
    let mut cache = IconCache::new();
    let a = identity(1, r"C:\A.exe");
    let b = identity(2, r"c:\a.EXE");
    let c = identity(3, r"C:\C.exe");
    assert!(cache.wants(&a));
    assert_eq!(icon_for(&mut cache, &a, Some(icon(1))), Some(icon(1)));
    assert!(!cache.wants(&b));
    assert_eq!(icon_for(&mut cache, &b, Some(icon(2))), Some(icon(1)));
    assert_eq!(icon_for(&mut cache, &c, None), None);
    assert_eq!(icon_for(&mut cache, &c, Some(icon(3))), None);
}
