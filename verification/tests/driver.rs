use fxtrumpet::device::{DeviceInfo, DeviceState};
use fxtrumpet::driver::{
    create_root_device, driver_candidates, handle_elevated_arguments, hardware_id_bytes,
    install_with_default_guard, is_card_node, is_readable_size, locate_driver_files,
    package_name_in, published_package_name, relaunch_elevated, relaunch_parameters,
    root_device_exists, run_elevated_tool, status, uninstall, DriverFiles, ElevatedTask,
    InstallFacts, InstallOutcome, InstallStep, RemoveFacts, RemoveStep, ToolRun,
};

fn device(id: &str, is_virtual: bool) -> DeviceInfo {
    DeviceInfo {
        id: id.to_owned(),
        name: id.to_owned(),
        adapter: None,
        state: DeviceState::Active,
        is_default: false,
        is_virtual,
    }
}

fn wide(text: &str) -> Vec<u8> {
    text.encode_utf16().flat_map(|u| u.to_le_bytes()).collect()
}

#[test]
fn the_card_is_known_by_its_hardware_id() {
    assert!(is_card_node(&hardware_id_bytes()));
    assert_eq!(hardware_id_bytes(), wide("Root\\FXVAD\0\0"));
    assert!(is_card_node(&wide("USB\\X\0 root\\fxvad \0\0")));
    assert!(!is_card_node(&wide("Root\\FXVAD2\0\0")));
    assert!(!is_card_node(&[]));
    assert!(root_device_exists(&vec![None, Some(hardware_id_bytes())]));
    assert!(!root_device_exists(&vec![None, Some(wide("x"))]));
    assert!(!is_readable_size(0) && is_readable_size(8192) && !is_readable_size(8193));
}

#[test]
fn the_package_is_found_whatever_the_labels_say() {
    let listing = "Published Name:     oem1.inf\nOriginal Name:      other.inf\n\n\
                   发布名称:           oem12.inf\n原始名称:           FxVad.inf\n类名: x\n\n";
    assert_eq!(package_name_in(listing).as_deref(), Some("oem12.inf"));
    let crlf = listing.replace('\n', "\r\n");
    assert_eq!(package_name_in(&crlf).as_deref(), Some("oem12.inf"));
    assert_eq!(
        published_package_name(&Some(crlf.into_bytes())).as_deref(),
        Some("oem12.inf")
    );
    assert_eq!(published_package_name(&None), None);
    assert_eq!(package_name_in("a: oem12.inf\nb: other.inf\n"), None);
    // A block of ours without a published name, and one with a short one.
    assert_eq!(
        package_name_in("b: fxvad.inf\n\na: OEM7.INF\nb: fxvad.inf").as_deref(),
        Some("OEM7.INF")
    );
    assert_eq!(package_name_in("a: oem.inf\nb: fxvad.inf"), None);
    let short = "Published Name: oem5.inf\nOriginal Name: fxvad.inf\n";
    assert_eq!(
        published_package_name(&Some(short.as_bytes().to_vec())).as_deref(),
        Some("oem5.inf")
    );
    assert_eq!(
        package_name_in("b: fxvad.inf\n\na: OEM77.INF\nb: fxvad.inf").as_deref(),
        Some("OEM77.INF")
    );
}

#[test]
fn the_files_are_looked_for_next_to_the_executable_first() {
    let dirs = driver_candidates(Some(r"C:\app"), Some(r"D:\src\fxtrumpet"));
    assert_eq!(
        dirs,
        vec![
            r"C:\app\driver",
            r"C:\app\fxvad",
            r"C:\app\resources\fxvad",
            r"C:\app",
            r"D:\src\fxtrumpet\..\NexBox\src-tauri\resources\binaries\fxvad",
        ]
    );
    let full = DriverFiles { inf: true, sys: true, cat: true };
    let part = DriverFiles { inf: true, sys: false, cat: true };
    assert_eq!(
        locate_driver_files(&dirs, &vec![part, part, full, full, part]).as_deref(),
        Some(r"C:\app\resources\fxvad")
    );
    assert_eq!(locate_driver_files(&dirs, &vec![part; 5]), None);
    assert!(driver_candidates(None, None).is_empty());
}

#[test]
fn the_state_of_the_driver_is_keyed_on_the_endpoint() {
    let s = status(false, false, &None, None);
    assert_eq!(s.summary(), "virtual sound card not installed");
    let s = status(false, false, &Some("oem1.inf".to_owned()), None);
    assert!(s.package_staged && !s.is_usable());
    assert_eq!(s.summary(), "driver staged, device not created");
    let s = status(true, false, &None, None);
    assert_eq!(s.summary(), "device present but no audio endpoint (driver not started?)");
    let s = status(false, true, &None, Some("d".to_owned()));
    assert!(s.is_usable() && s.package_staged);
    assert_eq!(s.summary(), "virtual sound card active");
}

fn facts() -> InstallFacts {
    InstallFacts {
        elevated: true,
        source_dir: Some(r"C:\d".to_owned()),
        card_before: false,
        default_before: Some("spk".to_owned()),
        staged: None,
        node_present: None,
        created: None,
        default_after: None,
        restored: false,
        card_after: None,
    }
}

#[test]
fn installing_restores_the_default() {
    let mut k = facts();
    assert_eq!(install_with_default_guard(&k), InstallStep::Stage(r"C:\d\fxvad.inf".to_owned()));
    k.staged = Some(Ok(()));
    assert_eq!(install_with_default_guard(&k), InstallStep::LookForNode);
    k.node_present = Some(false);
    assert_eq!(install_with_default_guard(&k), InstallStep::CreateNode);
    k.created = Some(Ok(()));
    assert_eq!(install_with_default_guard(&k), InstallStep::ReadDefault);
    k.default_after = Some(Some(device("card", true)));
    assert_eq!(install_with_default_guard(&k), InstallStep::Restore("spk".to_owned()));
    k.restored = true;
    assert_eq!(install_with_default_guard(&k), InstallStep::LookForCard);
    k.card_after = Some(true);
    assert_eq!(install_with_default_guard(&k), InstallStep::Done(InstallOutcome::Installed));
    k.card_after = Some(false);
    assert_eq!(
        install_with_default_guard(&k),
        InstallStep::Done(InstallOutcome::StagedPendingRescan)
    );
    // A default that the user moved to another real device is theirs.
    k.restored = false;
    k.default_after = Some(Some(device("other", false)));
    assert_eq!(
        install_with_default_guard(&k),
        InstallStep::Done(InstallOutcome::StagedPendingRescan)
    );
}

#[test]
fn installing_gives_up_with_a_reason() {
    let mut k = facts();
    k.elevated = false;
    assert_eq!(
        install_with_default_guard(&k),
        InstallStep::Failed("administrator rights are required to install the driver".to_owned())
    );
    let mut k = facts();
    k.source_dir = None;
    assert_eq!(
        install_with_default_guard(&k),
        InstallStep::Failed(
            "could not find fxvad.inf/fxvad.sys/fxvadntamd64.cat next to the executable".to_owned()
        )
    );
    let mut k = facts();
    k.card_before = true;
    assert_eq!(
        install_with_default_guard(&k),
        InstallStep::Done(InstallOutcome::AlreadyInstalled)
    );
    let mut k = facts();
    k.staged = Some(Err("policy".to_owned()));
    assert_eq!(install_with_default_guard(&k), InstallStep::Failed("policy".to_owned()));
    k.staged = Some(Ok(()));
    k.node_present = Some(false);
    k.created = Some(Err("denied".to_owned()));
    assert_eq!(install_with_default_guard(&k), InstallStep::Failed("denied".to_owned()));
}

#[test]
fn removing_moves_the_output_first() {
    let mut k = RemoveFacts {
        elevated: true,
        default_now: Some(device("card", true)),
        devices: Some(vec![device("card", true), device("spk", false)]),
        moved: false,
        package: None,
        removed: None,
    };
    assert_eq!(uninstall(&k), RemoveStep::Restore("spk".to_owned()));
    k.moved = true;
    assert_eq!(uninstall(&k), RemoveStep::FindPackage);
    k.package = Some(None);
    assert_eq!(
        uninstall(&k),
        RemoveStep::Failed("no staged FxSound driver package found".to_owned())
    );
    k.package = Some(Some("oem12.inf".to_owned()));
    assert_eq!(uninstall(&k), RemoveStep::Remove("oem12.inf".to_owned()));
    k.removed = Some(Err("busy".to_owned()));
    assert_eq!(uninstall(&k), RemoveStep::Failed("busy".to_owned()));
    k.removed = Some(Ok(()));
    assert_eq!(uninstall(&k), RemoveStep::Done);
    k.elevated = false;
    assert_eq!(
        uninstall(&k),
        RemoveStep::Failed("administrator rights are required to remove the driver".to_owned())
    );
}

#[test]
fn a_node_that_is_already_there_is_no_error() {
    assert_eq!(create_root_device(Ok(())), Ok(()));
    for code in [0xe000_0207u32, 0x800f_0207, 0x8007_00b7] {
        assert_eq!(create_root_device(Err((code as i32, "x".to_owned()))), Ok(()));
    }
    assert_eq!(
        create_root_device(Err((-1, "denied".to_owned()))),
        Err("could not create the Root\\FXVAD device node: denied".to_owned())
    );
}

#[test]
fn tools_report_how_they_ended() {
    let run = |elevated, r| run_elevated_tool("pnputil", elevated, &r);
    let ended = |success, code| ToolRun::Ended {
        success,
        code,
        stdout: b" out \n".to_vec(),
        stderr: b" err".to_vec(),
    };
    assert_eq!(run(true, ended(true, Some(0))), Ok(" out \n err".to_owned()));
    assert_eq!(
        run(true, ended(false, Some(-3))),
        Err("pnputil exited with -3: outerr".to_owned())
    );
    assert_eq!(run(true, ended(false, None)), Err("pnputil exited with -1: outerr".to_owned()));
    assert_eq!(
        run(true, ToolRun::NotStarted("gone".to_owned())),
        Err("could not run pnputil: gone".to_owned())
    );
    assert_eq!(run(false, ended(true, Some(0))), Err("pnputil must run elevated".to_owned()));
}

#[test]
fn an_elevated_copy_knows_its_task() {
    let args = |a: &[&str]| a.iter().map(|s| (*s).to_owned()).collect::<Vec<_>>();
    assert_eq!(relaunch_parameters(&args(&["--a", "b c", ""])), "--a \"b c\" ");
    assert_eq!(relaunch_parameters(&Vec::new()), "");
    assert_eq!(relaunch_elevated(33), Ok(()));
    assert_eq!(
        relaunch_elevated(5),
        Err(
            "could not relaunch elevated (ShellExecuteW returned 5); the user may have declined \
             the prompt"
                .to_owned()
        )
    );
    assert_eq!(
        handle_elevated_arguments(&args(&["--remove-driver", "--install-driver"])),
        Some(ElevatedTask::Install)
    );
    assert_eq!(
        handle_elevated_arguments(&args(&["--remove-driver"])),
        Some(ElevatedTask::Remove)
    );
    assert_eq!(handle_elevated_arguments(&args(&["--panel"])), None);
}
