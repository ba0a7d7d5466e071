use fxtrumpet::perapp::{interface_path, Factory, Variant};
use fxtrumpet::process::AppKey;
use fxtrumpet::router::{
    processes_for, processes_of, InjectionStatus, RouteMethod, RouteRule, RouteTarget, Router,
};
use fxtrumpet::session::{Session, SessionState};

fn session(process_id: u32) -> Session {
    Session {
        device_id: "endpoint".into(),
        instance_id: format!("inst-{process_id}"),
        display_id: format!("disp-{process_id}"),
        process_id,
        is_system_sounds: false,
        state: SessionState::Active,
        volume: 1.0f32.to_bits(),
        muted: false,
        peak: 0.0f32.to_bits(),
    }
}

fn exe(path: &str) -> AppKey {
    AppKey::Executable(path.to_owned())
}

fn rule_for(path: &str, target: RouteTarget) -> RouteRule {
    RouteRule::new(exe(path), "app".to_owned(), target)
}

fn to(endpoint: &str) -> RouteTarget {
    RouteTarget::Device { endpoint_id: endpoint.to_owned() }
}

fn factory() -> Option<Factory> {
    Some(Factory { variant: Variant::Modern })
}

#[test]
fn a_concrete_device_bypasses_the_enhancer() {
    assert!(RouteTarget::Device { endpoint_id: "x".into() }.bypasses_enhancement());
    assert!(!RouteTarget::SystemDefault.bypasses_enhancement());
}

#[test]
fn the_default_method_is_the_one_that_needs_no_elevation() {
    assert_eq!(RouteMethod::default(), RouteMethod::Policy);
}

#[test]
fn an_existing_rule_is_replaced_rather_than_duplicated() {
    let mut router = Router::new(Vec::new(), None);

    router.upsert(rule_for(
        r"C:\Apps\Music.exe",
        RouteTarget::Device { endpoint_id: "a".into() },
    ));
    router.upsert(rule_for(
        r"C:\Apps\Music.exe",
        RouteTarget::Device { endpoint_id: "b".into() },
    ));

    assert_eq!(router.rules().len(), 1);
    assert_eq!(router.rules()[0].target, RouteTarget::Device { endpoint_id: "b".into() });
}

#[test]
fn a_disabled_rule_matches_nothing() {
    let mut rule = rule_for(r"C:\Apps\Music.exe", RouteTarget::SystemDefault);
    rule.enabled = false;
    assert!(!rule.matches(&exe(r"C:\Apps\Music.exe")));
}

#[test]
fn a_rule_matches_only_its_own_application() {
    let rule = rule_for(r"C:\Apps\Music.exe", RouteTarget::SystemDefault);
    assert!(rule.matches(&exe(r"C:\APPS\MUSIC.EXE")));
    assert!(!rule.matches(&exe(r"C:\Apps\Other.exe")));
    assert!(!rule.matches(&AppKey::Packaged("x!App".to_owned())));
}

#[test]
fn a_router_without_a_policy_factory_reports_rather_than_panics() {
    let mut router = Router::new(
        vec![rule_for(r"C:\Apps\Music.exe", RouteTarget::Device { endpoint_id: "a".into() })],
        None,
    );

    assert!(!router.policy_available());

    let sessions = vec![session(0)];
    let apps = Vec::new();
    assert!(processes_of(&sessions).is_empty());
    let report = router.apply(&sessions, &apps, &Vec::new());
    assert!(report.failed.is_empty());
    assert!(!report.changed_anything());
}

#[test]
fn session_process_zero_is_never_routed() {
    let mut router =
        Router::new(vec![rule_for(r"anything", RouteTarget::SystemDefault)], None);
    let report = router.apply(&vec![session(0)], &Vec::new(), &Vec::new());
    assert!(report.applied.is_empty());
    assert!(report.failed.is_empty());
}

#[test]
fn a_missing_facility_fails_every_write() {
    let mut router = Router::new(vec![rule_for("a", to("d"))], None);
    let sessions = vec![session(5)];
    let apps = vec![Some(exe("A"))];
    assert!(router.plan(&sessions, &apps).is_empty());
    let report = router.apply(&sessions, &apps, &Vec::new());
    assert_eq!(
        report.failed,
        vec![(
            "app".to_owned(),
            "per-application endpoints are not available on this build".to_owned()
        )]
    );
    assert_eq!(report.already_in_force, 0);
}

#[test]
fn a_second_pass_writes_nothing_and_a_restart_does() {
    let mut router = Router::new(
        vec![rule_for("a", to("dev")), rule_for("b", RouteTarget::SystemDefault)],
        factory(),
    );
    // Two streams of one process, the system sounds, another process, and one
    // that cannot be identified.
    let sessions = vec![session(5), session(0), session(5), session(6), session(7)];
    let apps = vec![Some(exe("A")), Some(exe("b")), None];
    assert_eq!(processes_of(&sessions), vec![5, 6, 7]);

    let writes = router.plan(&sessions, &apps);
    assert_eq!(writes.len(), 2);
    assert_eq!((writes[0].rule, writes[0].process_id), (0, 5));
    assert_eq!(writes[0].writes[1].device, interface_path("dev"));
    assert_eq!((writes[1].rule, writes[1].process_id), (1, 6));
    assert_eq!(writes[1].writes[0].device, "");

    let outcomes = vec![Ok(()), Err("busy".to_owned())];
    let report = router.apply(&sessions, &apps, &outcomes);
    assert_eq!(report.applied, vec!["app".to_owned()]);
    assert!(report.changed_anything());
    assert_eq!(report.failed, vec![("app".to_owned(), "busy".to_owned())]);

    // The failed one is retried, the other is in force.
    let writes = router.plan(&sessions, &apps);
    assert_eq!(writes.len(), 1);
    assert_eq!(writes[0].process_id, 6);
    let report = router.apply(&sessions, &apps, &vec![Ok(())]);
    assert_eq!(report.already_in_force, 1);
    assert_eq!(router.plan(&sessions, &apps).len(), 0);

    // A restarted application is a fresh process.
    let later = vec![session(8), session(6)];
    let later_apps = vec![Some(exe("a")), Some(exe("b"))];
    let writes = router.plan(&later, &later_apps);
    assert_eq!(writes.len(), 1);
    assert_eq!(writes[0].process_id, 8);
    router.apply(&later, &later_apps, &vec![Ok(())]);
    // The old process is forgotten, so it would be written again.
    assert_eq!(router.plan(&sessions, &apps).len(), 1);
}

#[test]
fn injection_rules_are_reported_and_not_applied() {
    let mut rule = rule_for("a", to("d"));
    rule.method = RouteMethod::Injection;
    let mut router = Router::new(vec![rule], factory());
    let sessions = vec![session(5)];
    let apps = vec![Some(exe("a"))];
    assert!(router.plan(&sessions, &apps).is_empty());
    let report = router.apply(&sessions, &apps, &Vec::new());
    assert_eq!(report.injection_deferred, vec!["app".to_owned()]);
    assert!(!report.changed_anything());
    assert_eq!(router.injection_status(), InjectionStatus::NotAvailable);
    assert_eq!(
        InjectionStatus::NotAvailable.summary(),
        "not built in; injection rules fall back to the policy mechanism"
    );
}

#[test]
fn removing_a_rule_hands_the_application_back() {
    let mut router = Router::new(vec![rule_for("a", to("d")), rule_for("b", to("d"))], factory());
    let sessions = vec![session(5), session(6), session(7)];
    let apps = vec![Some(exe("A")), Some(exe("b")), Some(exe("a"))];
    assert_eq!(processes_for(&exe("a"), &sessions, &apps), vec![5, 7]);
    let writes = router.remove(&exe("A"), &sessions, &apps);
    assert_eq!(writes.len(), 2);
    assert!(writes.iter().flatten().all(|w| w.device.is_empty()));
    assert_eq!(writes[0][0].process_id, 5);
    assert_eq!(writes[1][0].process_id, 7);
    assert_eq!(router.rules().len(), 1);
    assert_eq!(router.release_all(&sessions).len(), 3);
    assert!(Router::new(Vec::new(), None).release_all(&sessions).is_empty());
}

#[test]
fn a_snapshot_shows_where_an_application_goes() {
    let mut router = Router::new(vec![rule_for("a", to("d"))], factory());
    let snapshot = router.snapshot();
    assert!(snapshot.policy_available);
    assert_eq!(snapshot.target_for(&exe("A")), to("d"));
    assert_eq!(snapshot.target_for(&exe("x")), RouteTarget::SystemDefault);
    assert_eq!(snapshot.rule_for(&exe("x")), None);
    assert_eq!(router.rule_for(&exe("a")).map(|r| &r.target), Some(&to("d")));
    router.set_rules(Vec::new());
    assert!(router.rule_for(&exe("a")).is_none());
    assert_eq!(snapshot.rules.len(), 1);
}
