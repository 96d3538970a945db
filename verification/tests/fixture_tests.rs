use isbot::fixture::{classify_fixture_entry, FixtureKind};

#[test]
fn spider_family_is_bot() {
    assert_eq!(
        classify_fixture_entry("Spider", "SomeCrawler/1.0"),
        FixtureKind::Bot
    );
    // The family decides, whatever the user agent looks like.
    assert_eq!(
        classify_fixture_entry("Spider", "Mozilla/5.0 (Windows NT 10.0) Chrome/95.0"),
        FixtureKind::Bot
    );
}

#[test]
fn named_family_is_browser() {
    assert_eq!(
        classify_fixture_entry("Chrome", "Mozilla/5.0 (Windows NT 10.0) Chrome/95.0"),
        FixtureKind::Browser
    );
    assert_eq!(
        classify_fixture_entry("Firefox", "Mozilla/5.0 (X11; Linux x86_64; rv:94.0) Firefox/94.0"),
        FixtureKind::Browser
    );
}

#[test]
fn other_family_is_discarded() {
    assert_eq!(
        classify_fixture_entry("Other", "Mozilla/5.0 (Windows NT 10.0) Chrome/95.0"),
        FixtureKind::Neither
    );
}

#[test]
fn spider_marker_in_user_agent_is_discarded() {
    // The check on the user agent is case-insensitive.
    assert_eq!(
        classify_fixture_entry("Chrome", "Mozilla/5.0 FancySpider/2.0"),
        FixtureKind::Neither
    );
    assert_eq!(
        classify_fixture_entry("Chrome", "Mozilla/5.0 fancyspider/2.0"),
        FixtureKind::Neither
    );
}

#[test]
fn url_in_user_agent_is_discarded() {
    assert_eq!(
        classify_fixture_entry("Chrome", "Mozilla/5.0 (+http://example.com/why)"),
        FixtureKind::Neither
    );
}
