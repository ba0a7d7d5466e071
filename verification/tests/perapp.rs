use fxtrumpet::perapp::{
    interface_path, is_supported, Attempt, EndpointWrite, Factory, FactoryStep, Variant,
    AUDIO_RENDER, E_CONSOLE, E_MULTIMEDIA, IID_21H2, IID_DOWNLEVEL, MMDEVAPI_TOKEN,
    ROLE_MASK_CONSOLE_OR_MULTIMEDIA,
};

#[test]
fn the_interface_path_is_built_the_way_windows_expects() {
    let endpoint = "{0.0.0.00000000}.{aabbccdd-1122-3344-5566-778899aabbcc}";
    let path = interface_path(endpoint);
    assert_eq!(path, format!("{}{}{}", MMDEVAPI_TOKEN, endpoint, AUDIO_RENDER));
    assert!(path.starts_with(r"\\?\SWD#MMDEVAPI#"), "{path}");
    assert!(path.contains(endpoint), "{path}");
    assert!(path.ends_with("#{e6327cad-dcec-4949-ae8a-991e976a79d2}"), "{path}");
}

#[test]
fn the_role_mask_for_both_roles_is_one() {
    // eConsole is 0, so "both" and "multimedia only" are the same number.
    assert_eq!(ROLE_MASK_CONSOLE_OR_MULTIMEDIA, 1);
    assert_eq!(ROLE_MASK_CONSOLE_OR_MULTIMEDIA, E_CONSOLE | E_MULTIMEDIA);
}

#[test]
fn the_two_interface_ids_are_distinct() {
    assert_ne!(IID_21H2, IID_DOWNLEVEL);
}

#[test]
fn the_modern_interface_is_tried_first() {
    let ok = Attempt { activation: 0, query: 0, is_null: false };
    let refused = Attempt { activation: 0, query: -2, is_null: true };
    let missing = Attempt { activation: -1, query: 0, is_null: false };
    let null = Attempt { activation: 0, query: 0, is_null: true };
    assert_eq!(Factory::new(&vec![]), FactoryStep::Try(IID_21H2));
    let modern = Factory { variant: Variant::Modern };
    assert_eq!(Factory::new(&vec![ok]), FactoryStep::Ready(modern));
    assert_eq!(modern.variant(), Variant::Modern);
    assert_eq!(Factory::new(&vec![refused]), FactoryStep::Try(IID_DOWNLEVEL));
    assert_eq!(
        Factory::new(&vec![refused, ok]),
        FactoryStep::Ready(Factory { variant: Variant::Downlevel })
    );
    assert_eq!(Factory::new(&vec![refused, missing]), FactoryStep::Failed(-1));
    assert_eq!(Factory::new(&vec![missing, refused]), FactoryStep::Failed(-2));
    assert_eq!(Factory::new(&vec![missing, null]), FactoryStep::Failed(0));
    assert!(is_supported(&vec![null, ok]));
    assert!(!is_supported(&vec![missing, missing]));
    assert!(!is_supported(&vec![missing]));
}

#[test]
fn an_endpoint_is_written_for_both_roles() {
    let factory = Factory { variant: Variant::Modern };
    let write = |role, device: &str| EndpointWrite {
        process_id: 7,
        flow: 0,
        role,
        device: device.to_owned(),
    };
    let path = interface_path("x");
    assert_eq!(factory.set_default_endpoint(7, "x"), vec![write(0, &path), write(1, &path)]);
    assert_eq!(factory.clear_default_endpoint(7), vec![write(0, ""), write(1, "")]);
}
