use fxtrumpet::device::{
    collect, describe, device_by_id, event_of, find_physical_device, find_virtual_device,
    first_physical_by_name, looks_virtual, narrow_id, render_devices, set_default_device,
    string_property, try_restore_default, virtual_device_present, ComGuard, DeviceEvent, DeviceInfo,
    DeviceState, Notification, RawEndpoint, RoleStep, RPC_E_CHANGED_MODE,
};

#[test]
fn virtual_marker_matching() {
    assert!(looks_virtual(&[Some("FxSound Audio Enhancer")]));
    assert!(looks_virtual(&[None, Some("Speakers (FxSound Audio Enhancer)")]));
    assert!(!looks_virtual(&[Some("Speakers (Realtek(R) Audio)")]));
    assert!(!looks_virtual(&[None, None]));
}

#[test]
fn property_changes_do_not_force_a_rebuild() {
    assert!(DeviceEvent::DefaultChanged { endpoint_id: None }.requires_rebuild());
    assert!(DeviceEvent::StateChanged { endpoint_id: None }.requires_rebuild());
    assert!(!DeviceEvent::PropertyChanged { endpoint_id: None }.requires_rebuild());
}

fn device(id: &str, name: &str, is_default: bool, is_virtual: bool) -> DeviceInfo {
    DeviceInfo {
        id: id.to_owned(),
        name: name.to_owned(),
        adapter: None,
        state: DeviceState::Active,
        is_default,
        is_virtual,
    }
}

fn ids(devices: &[DeviceInfo]) -> Vec<&str> {
    devices.iter().map(|d| d.id.as_str()).collect()
}

#[test]
fn devices_are_listed_default_first_then_virtual_then_the_rest() {
    let sorted = render_devices(vec![
        device("z", "Zebra", false, false),
        device("v", "virtual", false, true),
        device("a", "ÄPFEL", false, false),
        device("b", "alpha", false, false),
        device("d", "zz default", true, false),
        device("c", "Alpha", false, false),
    ]);
    // `b` and `c` share a name up to case and stay in the order given.
    assert_eq!(ids(&sorted), ["d", "v", "b", "c", "z", "a"]);
}

#[test]
fn lookups_take_the_first_that_fits() {
    let list = vec![
        device("p", "Speakers", true, false),
        device("v1", "FxSound", false, true),
        device("v2", "FxVAD", false, true),
        device("q", "headset", false, false),
    ];
    assert_eq!(device_by_id(&list, "q").map(|d| d.name), Some("headset".to_owned()));
    assert_eq!(device_by_id(&list, "none"), None);
    assert_eq!(find_virtual_device(&list).map(|d| d.id), Some("v1".to_owned()));
    assert_eq!(find_physical_device(&list).map(|d| d.id), Some("p".to_owned()));
    assert_eq!(first_physical_by_name(&list, None).map(|d| d.id), Some("q".to_owned()));
    assert_eq!(first_physical_by_name(&list, Some("q")).map(|d| d.id), Some("p".to_owned()));
    assert!(virtual_device_present(&list));
    assert!(!virtual_device_present(&vec![device("p", "x", true, false)]));
    assert_eq!(find_virtual_device(&Vec::new()), None);
}

#[test]
fn the_display_name_adds_the_adapter_where_it_says_something() {
    let mut d = device("x", "Speakers", false, false);
    assert_eq!(d.display(), "Speakers");
    d.adapter = Some("Realtek".to_owned());
    assert_eq!(d.display(), "Speakers (Realtek)");
    d.adapter = Some(String::new());
    assert_eq!(d.display(), "Speakers");
    d.name = "Speakers (Realtek)".to_owned();
    d.adapter = Some("Realtek".to_owned());
    assert_eq!(d.display(), "Speakers (Realtek)");
}

fn raw(id: Option<&str>, name: Option<&str>, desc: Option<&str>) -> RawEndpoint {
    RawEndpoint {
        id: id.map(str::to_owned),
        friendly_name: name.map(str::to_owned),
        description: desc.map(str::to_owned),
        adapter: Some(" FxSound\0".to_owned()),
        state: Some(8),
    }
}

#[test]
fn endpoints_are_described_from_their_properties() {
    let defaults = vec!["a".to_owned(), "b".to_owned()];
    let d = describe(&raw(Some("b"), Some("\0 \0"), Some("Line\0")), &defaults).expect("has an id");
    assert_eq!(d.name, "Line");
    assert_eq!(d.adapter.as_deref(), Some("FxSound"));
    assert_eq!(d.state, DeviceState::Unplugged);
    assert!(d.is_default && d.is_virtual);
    assert!(describe(&raw(None, Some("x"), None), &defaults).is_none());
    let d = describe(&raw(Some("c"), None, None), &defaults).expect("has an id");
    assert_eq!(d.name, "Unknown endpoint");
    assert!(!d.is_default);
    let list = collect(&vec![raw(None, None, None), raw(Some("q"), Some("Q"), None)], &defaults);
    assert_eq!(ids(&list), ["q"]);
}

#[test]
fn string_properties_are_cleaned() {
    assert_eq!(string_property(&Some("\0\0 a b \t\0".to_owned())), Some("a b".to_owned()));
    assert_eq!(string_property(&Some(" \0 ".to_owned())), Some("\0".to_owned()));
    assert_eq!(string_property(&Some("\0 \0".to_owned())), None);
    assert_eq!(string_property(&None), None);
}

#[test]
fn states_come_from_the_lowest_bit() {
    assert_eq!(DeviceState::from_mask(1), DeviceState::Active);
    assert_eq!(DeviceState::from_mask(3), DeviceState::Active);
    assert_eq!(DeviceState::from_mask(2), DeviceState::Disabled);
    assert_eq!(DeviceState::from_mask(4), DeviceState::NotPresent);
    assert_eq!(DeviceState::from_mask(8), DeviceState::Unplugged);
    assert_eq!(DeviceState::from_mask(16), DeviceState::Unknown);
    assert_eq!(DeviceState::NotPresent.label(), "not-present");
    assert_eq!(DeviceState::Active.label(), "active");
    assert_eq!(DeviceState::Disabled.label(), "disabled");
    assert_eq!(DeviceState::Unplugged.label(), "unplugged");
    assert_eq!(DeviceState::Unknown.label(), "unknown");
}

#[test]
fn every_role_is_set_until_one_is_refused() {
    assert_eq!(set_default_device(0, 0), RoleStep::Assign(0));
    assert_eq!(set_default_device(1, 0), RoleStep::Assign(1));
    assert_eq!(set_default_device(2, 0), RoleStep::Assign(2));
    assert_eq!(set_default_device(3, 0), RoleStep::Done);
    assert_eq!(set_default_device(2, -5), RoleStep::Failed(-5));
    assert!(try_restore_default(RoleStep::Done));
    assert!(!try_restore_default(RoleStep::Failed(-5)));
}

#[test]
fn com_is_uninitialised_only_where_it_was_initialised() {
    assert_eq!(ComGuard::init(0), Ok(ComGuard { owns_initialisation: true }));
    assert_eq!(ComGuard::init(1), Ok(ComGuard { owns_initialisation: true }));
    assert_eq!(RPC_E_CHANGED_MODE, 0x8001_0106u32 as i32);
    assert_eq!(ComGuard::init(RPC_E_CHANGED_MODE), Ok(ComGuard { owns_initialisation: false }));
    assert_eq!(ComGuard::init(-1), Err(-1));
}

#[test]
fn notifications_become_events() {
    let id = || Some("x".to_owned());
    let state = Some(DeviceEvent::StateChanged { endpoint_id: id() });
    assert_eq!(event_of(Notification::DeviceStateChanged, id()), state);
    assert_eq!(event_of(Notification::DeviceAdded, id()), state);
    assert_eq!(event_of(Notification::DeviceRemoved, id()), state);
    assert_eq!(
        event_of(Notification::DefaultDeviceChanged { render: true }, id()),
        Some(DeviceEvent::DefaultChanged { endpoint_id: id() })
    );
    assert_eq!(event_of(Notification::DefaultDeviceChanged { render: false }, id()), None);
    assert_eq!(
        event_of(Notification::PropertyValueChanged, Some(String::new())),
        Some(DeviceEvent::PropertyChanged { endpoint_id: None })
    );
    assert_eq!(narrow_id(None), None);
}
