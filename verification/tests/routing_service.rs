use open_with_browser::preferences::{
    fallback_from_input, FallbackPreference, ProfilePreference, ProfileSelectionInput,
};
use open_with_browser::routing::{
    simulate_link_payload, IncomingLink, LaunchDecision, PersistChoice, RoutingService,
    SimulatedLinkPayload,
};

fn plain_link(url: &str) -> IncomingLink {
    IncomingLink {
        id: String::new(),
        url: url.to_string(),
        source_app: "Test Harness".to_string(),
        source_context: None,
        contact_name: None,
        preview: None,
        recommended_browser: None,
        arrived_at: None,
    }
}

fn plain_decision(id: &str, url: &str) -> LaunchDecision {
    LaunchDecision {
        id: id.to_string(),
        url: url.to_string(),
        browser: "Chrome".to_string(),
        profile_label: None,
        profile_directory: None,
        persist: PersistChoice::JustOnce,
        decided_at: None,
        source_app: "Test Harness".to_string(),
        contact_name: None,
    }
}

#[test]
fn register_assigns_id_and_sets_active() {
    let mut service = RoutingService::new();
    let (registered, auto) = service.register_incoming(plain_link("example.com"), None);

    assert_eq!(registered.id.len(), 36);
    assert_eq!(registered.url, "https://example.com");
    assert!(auto.is_none());

    let snapshot = service.snapshot();
    let active = snapshot.active.expect("registered link is active");
    assert_eq!(active.id, registered.id);
    assert!(snapshot.history.is_empty());
}

#[test]
fn register_keeps_a_caller_supplied_id() {
    let mut service = RoutingService::new();
    let mut link = plain_link("https://example.com/");
    link.id = "caller-id".to_string();
    let (registered, _) = service.register_incoming(link, None);
    assert_eq!(registered.id, "caller-id");
}

#[test]
fn resolve_with_empty_url_fails_and_leaves_history_unchanged() {
    let mut service = RoutingService::new();
    let (registered, _) = service.register_incoming(plain_link("https://example.com/"), None);

    let outcome = service.resolve(plain_decision(&registered.id, "   "));
    assert_eq!(
        outcome.unwrap_err(),
        "Link does not contain a valid URL to open."
    );

    let snapshot = service.snapshot();
    assert!(snapshot.history.is_empty());
    assert!(snapshot.active.is_some());
}

#[test]
fn resolve_commits_clears_active_and_caps_history() {
    let mut service = RoutingService::new();
    let (registered, _) = service.register_incoming(plain_link("https://example.com/"), None);

    let decision = service
        .resolve(plain_decision(&registered.id, "https://example.com/"))
        .expect("valid decision resolves");
    assert!(decision.decided_at.is_some());
    assert!(!decision.decided_at.as_deref().unwrap().is_empty());

    let snapshot = service.snapshot();
    assert!(snapshot.active.is_none());
    assert_eq!(snapshot.history.len(), 1);
    assert_eq!(snapshot.history[0].id, registered.id);

    for i in 0..50 {
        service
            .resolve(plain_decision(&format!("extra-{i}"), "https://example.com/"))
            .expect("valid decision resolves");
    }
    let snapshot = service.snapshot();
    assert_eq!(snapshot.history.len(), 50);
    // Most recent first; the very first decision has been evicted.
    assert_eq!(snapshot.history[0].id, "extra-49");
    assert!(snapshot.history.iter().all(|d| d.id != registered.id));
}

#[test]
fn register_with_fallback_auto_resolves_with_persist_always() {
    let mut service = RoutingService::new();
    let fallback = FallbackPreference {
        browser: "Brave".to_string(),
        profile: Some(ProfilePreference {
            label: Some("Work".to_string()),
            directory: Some(String::new()),
        }),
    };

    let (registered, auto) =
        service.register_incoming(plain_link("https://example.com/"), Some(&fallback));

    let decision = auto
        .expect("fallback produces an automatic outcome")
        .expect("valid URL resolves");
    assert_eq!(decision.id, registered.id);
    assert_eq!(decision.browser, "Brave");
    assert_eq!(decision.persist, PersistChoice::Always);
    assert_eq!(decision.profile_label.as_deref(), Some("Work"));
    // Empty profile directory values never survive.
    assert!(decision.profile_directory.is_none());

    let snapshot = service.snapshot();
    assert!(snapshot.active.is_none());
    assert_eq!(snapshot.history.len(), 1);
    assert_eq!(snapshot.history[0].persist, PersistChoice::Always);
}

#[test]
fn clear_active_drops_only_the_pending_link() {
    let mut service = RoutingService::new();
    service.register_incoming(plain_link("https://example.com/"), None);
    service
        .resolve(plain_decision("done", "https://example.com/"))
        .expect("valid decision resolves");
    service.register_incoming(plain_link("https://pending.example/"), None);

    service.clear_active();

    let snapshot = service.snapshot();
    assert!(snapshot.active.is_none());
    assert_eq!(snapshot.history.len(), 1);
}

#[test]
fn simulate_link_payload_fills_defaults() {
    let link = simulate_link_payload(None);
    assert_eq!(link.id.len(), 36);
    assert_eq!(link.url, "https://example.com/background-launch");
    assert_eq!(link.source_app, "WhatsApp Desktop");
    assert_eq!(link.contact_name.as_deref(), Some("Automation Bot"));
    assert_eq!(link.source_context.as_deref(), Some("Auto-generated hand-off"));
    assert_eq!(link.preview.as_deref(), Some("Shared link detected."));
    let recommended = link.recommended_browser.expect("a recommendation is attached");
    assert_eq!(recommended.name, "Arc");
    assert_eq!(recommended.profile_label.as_deref(), Some("Workspace"));
    assert!(link.arrived_at.is_some());

    let custom = simulate_link_payload(Some(SimulatedLinkPayload {
        url: Some("https://custom.example/".to_string()),
        source_app: None,
        contact_name: None,
        source_context: None,
        preview: None,
    }));
    assert_eq!(custom.url, "https://custom.example/");
    assert_eq!(custom.source_app, "WhatsApp Desktop");
}

#[test]
fn fallback_from_input_requires_a_browser_name() {
    let cleared = fallback_from_input(None, None);
    assert!(cleared.is_none());

    let cleared = fallback_from_input(Some(String::new()), None);
    assert!(cleared.is_none());

    let set = fallback_from_input(
        Some("Firefox".to_string()),
        Some(ProfileSelectionInput {
            label: Some("Develop".to_string()),
            directory: None,
        }),
    )
    .expect("a named browser sets the fallback");
    assert_eq!(set.browser, "Firefox");
    assert_eq!(set.profile.unwrap().label.as_deref(), Some("Develop"));
}

#[test]
fn resolve_with_unparseable_url_fails_and_leaves_history_unchanged() {
    let mut service = RoutingService::new();
    let (registered, _) = service.register_incoming(plain_link("https://example.com/"), None);

    let outcome = service.resolve(plain_decision(&registered.id, "not a url"));
    assert_eq!(
        outcome.unwrap_err(),
        "Link does not contain a valid URL to open."
    );

    let snapshot = service.snapshot();
    assert!(snapshot.history.is_empty());
    assert!(snapshot.active.is_some());
}

#[test]
fn register_with_fallback_reports_failure_for_invalid_url() {
    let mut service = RoutingService::new();
    let fallback = FallbackPreference {
        browser: "Brave".to_string(),
        profile: None,
    };

    let (registered, auto) = service.register_incoming(plain_link("not a url"), Some(&fallback));

    // Registration itself succeeds; the automatic resolution reports the
    // invalid URL and the link stays pending.
    let err = auto.expect("fallback produces an automatic outcome").unwrap_err();
    assert_eq!(err, "Link does not contain a valid URL to open.");
    let snapshot = service.snapshot();
    assert_eq!(snapshot.active.expect("still pending").id, registered.id);
    assert!(snapshot.history.is_empty());
}
