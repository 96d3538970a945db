use isbot::Bots;

#[test]
fn case_insensitive_queries() {
    let bots = Bots::new("googlebot\ncurl/");
    let samples = [
        "Googlebot/2.1 (+http://www.google.com/bot.html)",
        "GOOGLEBOT",
        "googlebot",
        "curl/7.64.1",
        "CURL/7.64.1",
        "Mozilla/5.0 (Windows NT 10.0)",
    ];
    for ua in samples {
        let upper = ua.to_ascii_uppercase();
        let lower = ua.to_ascii_lowercase();
        assert_eq!(bots.is_bot(ua), bots.is_bot(&upper), "upper mismatch: {}", ua);
        assert_eq!(bots.is_bot(ua), bots.is_bot(&lower), "lower mismatch: {}", ua);
    }
}

#[test]
fn empty_blob_rejects_everything() {
    let bots = Bots::try_new("").expect("empty blob must build");
    assert!(!bots.is_bot(""));
    assert!(!bots.is_bot("Googlebot"));
    assert!(!bots.is_bot("anything at all"));
}

#[test]
fn blank_lines_are_ignored() {
    let bots = Bots::new("\n   \n\t\ngooglebot\n\n  \n");
    assert!(bots.is_bot("Googlebot"));
    // A store of only blank lines is the empty store.
    let empty = Bots::new(" \n\t \n ");
    assert!(!empty.is_bot(""));
    assert!(!empty.is_bot("Googlebot"));
}

#[test]
fn crlf_line_endings() {
    let bots = Bots::new("googlebot\r\nbingbot\r\n");
    assert!(bots.is_bot("Googlebot-Image/1.0"));
    assert!(bots.is_bot("Bingbot/2.0"));
    // The carriage return is not part of the stored pattern.
    assert!(bots.is_bot("googlebot after more text"));
}

#[test]
fn bare_final_carriage_return_is_kept() {
    // A carriage return is stripped only as part of a \r\n line ending; a
    // bare one ending the final line of the blob stays in the pattern.
    let bots = Bots::new("googlebot\r");
    assert!(!bots.is_bot("Googlebot"));
    assert!(bots.is_bot("Googlebot\r"));
    // With a final newline the carriage return belongs to the line ending.
    let bots = Bots::new("googlebot\r\n");
    assert!(bots.is_bot("Googlebot"));
}

#[test]
fn duplicate_lines_collapse() {
    let bots = Bots::new("googlebot\nGooglebot\nGOOGLEBOT\ngooglebot");
    assert!(bots.is_bot("Googlebot"));
    assert!(!bots.is_bot("Bingbot"));
}

#[test]
fn patterns_keep_surrounding_whitespace() {
    let bots = Bots::new("  simple");
    assert!(bots.is_bot("a  simple thing"));
    assert!(!bots.is_bot("asimple"));
}

#[test]
fn append_twice_is_append_once() {
    let mut once = Bots::new("googlebot");
    let mut twice = Bots::new("googlebot");
    once.append(&["NewBot/1.0", "otherbot"]);
    twice.append(&["NewBot/1.0", "otherbot"]);
    twice.append(&["NewBot/1.0", "otherbot"]);
    let samples = ["NewBot/1.0", "newbot/1.0x", "otherbot", "Googlebot", "Browser/1.0", ""];
    for ua in samples {
        assert_eq!(once.is_bot(ua), twice.is_bot(ua), "mismatch on: {}", ua);
    }
}

#[test]
fn append_then_remove_restores_results() {
    let mut bots = Bots::default();
    let samples = [
        "Googlebot",
        "Mozilla/5.0 (FancyNewTestB0T /1.2)",
        "Mozilla/5.0 (Windows NT 10.0; Win64; x64) AppleWebKit/537.36 (KHTML, like Gecko) Chrome/58.0.3029.110 Safari/537.36",
        "",
    ];
    let before: Vec<bool> = samples.iter().map(|ua| bots.is_bot(ua)).collect();
    bots.append(&[r"FancyNewTestB0T\s/\d\.\d"]);
    assert!(bots.is_bot("Mozilla/5.0 (FancyNewTestB0T /1.2)"));
    bots.remove(&[r"FancyNewTestB0T\s/\d\.\d"]);
    let after: Vec<bool> = samples.iter().map(|ua| bots.is_bot(ua)).collect();
    assert_eq!(before, after);
}

#[test]
fn append_is_monotone() {
    let mut bots = Bots::new("googlebot\nbingbot");
    let matched_before = [
        "Googlebot",
        "Bingbot/2.0",
    ];
    bots.append(&["duckduckbot"]);
    // Everything that matched before still matches.
    for ua in matched_before {
        assert!(bots.is_bot(ua), "lost match after append: {}", ua);
    }
    // A user agent containing the appended pattern now matches too.
    assert!(bots.is_bot("DuckDuckBot/1.0; (+http://duckduckgo.com/duckduckbot.html)"));
}

#[test]
fn remove_of_absent_pattern_is_noop() {
    let mut bots = Bots::default();
    let samples = [
        "Googlebot",
        "Chrome-Lighthouse",
        "Mozilla/5.0 (Macintosh; Intel Mac OS X 10_15_7) AppleWebKit/537.36 (KHTML, like Gecko) Chrome/95.0.4638.54 Safari/537.36",
        "",
    ];
    let before: Vec<bool> = samples.iter().map(|ua| bots.is_bot(ua)).collect();
    bots.remove(&["NotInstalledBot", "also-not-installed"]);
    let after: Vec<bool> = samples.iter().map(|ua| bots.is_bot(ua)).collect();
    assert_eq!(before, after);
}

#[test]
fn default_store_scenario() {
    let bots = Bots::default();
    assert!(bots.is_bot("Googlebot-Image/1.0"));
    assert!(!bots.is_bot("Opera/9.60 (Windows NT 6.0; U; en) Presto/2.1.1"));
}

#[test]
fn custom_store_scenario() {
    let bots = Bots::new("^Simplebot\nanything\\s+bot");
    assert!(bots.is_bot("Simplebot/1.2"));
    // The anchor fails because of the leading space.
    assert!(!bots.is_bot(" Simplebot/1.2"));
    assert!(bots.is_bot("Anything  Bot"));
    assert!(!bots.is_bot("AnythingBot"));
}

#[test]
fn removal_scenario() {
    let mut bots = Bots::default();
    let lighthouse = "Mozilla/5.0 (X11; Linux x86_64) AppleWebKit/537.36 (KHTML, like Gecko) Chrome/78.0.3904.97 Safari/537.36 Chrome-Lighthouse";
    assert!(bots.is_bot(lighthouse));
    bots.remove(&["Chrome-Lighthouse"]);
    assert!(!bots.is_bot(lighthouse));
    // An unrelated signature from the default list still matches.
    assert!(bots.is_bot("Mozilla/5.0 (Windows NT 10.0) adbeat.com/policy Safari/537.36"));
}

#[test]
fn try_new_rejects_invalid_pattern() {
    assert!(Bots::try_new("valid\nab(").is_none());
    assert!(Bots::try_new("ab(").is_none());
    assert!(Bots::try_new("valid").is_some());
}

#[test]
fn try_append_rejects_invalid_pattern_and_keeps_store() {
    let mut bots = Bots::new("googlebot");
    assert!(!bots.try_append(&["ab("]));
    // The failed append left the store unchanged.
    assert!(bots.is_bot("Googlebot"));
    assert!(!bots.is_bot("NewBot"));
    assert!(bots.try_append(&["newbot"]));
    assert!(bots.is_bot("NewBot"));
}

#[test]
fn try_remove_to_empty_store() {
    let mut bots = Bots::new("googlebot");
    assert!(bots.try_remove(&["googlebot"]));
    assert!(!bots.is_bot("Googlebot"));
    assert!(!bots.is_bot(""));
}

#[test]
fn removal_is_by_exact_lowercased_entry() {
    let mut bots = Bots::new("googlebot-image\ngooglebot");
    // Removing one pattern leaves a pattern it is a substring of untouched.
    bots.remove(&["Googlebot"]);
    assert!(bots.is_bot("Googlebot-Image/1.0"));
    assert!(!bots.is_bot("Googlebot/2.1"));
    // Removing an entry that was never stored verbatim changes nothing.
    bots.remove(&["googlebot-"]);
    assert!(bots.is_bot("Googlebot-Image/1.0"));
}
