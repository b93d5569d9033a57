use tagbump::tags::latest_matching;
use tagbump::version::Version;

#[test]
fn empty_repository_yields_zero_seed() {
    let tags: Vec<String> = Vec::new();
    assert_eq!(latest_matching(&tags, None, None), "0.0.0");
    assert_eq!(latest_matching(&tags, Some("prod"), None), "prod-0.0.0");
    assert_eq!(latest_matching(&tags, None, Some("rc")), "0.0.0-rc");
    assert_eq!(latest_matching(&tags, Some("dev"), Some("beta")), "dev-0.0.0-beta");
}

#[test]
fn zero_seed_parses_and_bumps() {
    let tags: Vec<String> = Vec::new();
    let seed = latest_matching(&tags, None, Some("rc"));
    let v = Version::parse(&seed).unwrap();
    let w = v.increment(None, Some("rc")).unwrap();
    assert_eq!(w.render(), "0.0.0-rc.1");
}

#[test]
fn without_prefix_only_semver_leading_tags_match() {
    let tags: Vec<String> = vec![
        "foo".to_string(),
        "1.2.3".to_string(),
        "bar-baz".to_string(),
    ];
    assert_eq!(latest_matching(&tags, None, None), "1.2.3");
}

#[test]
fn last_matching_tag_in_listing_order_wins() {
    let tags: Vec<String> = vec![
        "1.2.3".to_string(),
        "2.0.0-rc.1".to_string(),
        "not-a-version".to_string(),
    ];
    assert_eq!(latest_matching(&tags, None, None), "2.0.0-rc.1");
}

#[test]
fn prefix_filter_keeps_only_prefixed_tags() {
    let tags: Vec<String> = vec![
        "prod-1.0.0".to_string(),
        "dev-2.0.0".to_string(),
        "prod-1.1.0".to_string(),
    ];
    assert_eq!(latest_matching(&tags, Some("prod"), None), "prod-1.1.0");
    assert_eq!(latest_matching(&tags, Some("dev"), None), "dev-2.0.0");
    assert_eq!(latest_matching(&tags, Some("stage"), None), "stage-0.0.0");
}
