use open_with_browser::defaults::{expected_desktop_handler, handler_matches};
use open_with_browser::link::LinkSource;
use open_with_browser::routing::OsKind;

#[test]
fn handler_matching_follows_each_os_rule() {
    assert!(handler_matches(OsKind::Windows, "openwithbrowserurl", "ignored"));
    assert!(handler_matches(OsKind::Windows, "OpenWithBrowserURL", "ignored"));
    assert!(!handler_matches(OsKind::Windows, "ChromeHTML", "ignored"));

    assert!(handler_matches(OsKind::Macos, "com.example.app", "com.example.app"));
    assert!(!handler_matches(OsKind::Macos, "com.other.app", "com.example.app"));

    assert!(handler_matches(
        OsKind::Linux,
        "open_with_browser.desktop",
        "open-with-browser"
    ));
    assert!(!handler_matches(OsKind::Linux, "firefox.desktop", "open-with-browser"));

    assert!(!handler_matches(OsKind::Other, "anything", "anything"));
}

#[test]
fn desktop_handler_replaces_hyphens() {
    assert_eq!(
        expected_desktop_handler("open-with-browser"),
        "open_with_browser.desktop"
    );
}

#[test]
fn link_sources_carry_their_labels() {
    assert_eq!(LinkSource::InitialLaunch.source_app(), "System");
    assert_eq!(LinkSource::SecondaryInstance.source_app(), "System (handoff)");
    assert_eq!(LinkSource::OsEvent.source_app(), "Operating System");
    assert_eq!(
        LinkSource::InitialLaunch.source_context(),
        "App launch arguments"
    );
    assert_eq!(
        LinkSource::SecondaryInstance.source_context(),
        "Secondary instance activation"
    );
    assert_eq!(LinkSource::OsEvent.source_context(), "OS open-url event");
}
