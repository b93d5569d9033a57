use tagbump::version::IncrementError;
use tagbump::version::ParseError;
use tagbump::version::Version;

#[test]
fn parse_bare_core() {
    let v = Version::parse("1.2.3").unwrap();
    assert_eq!(v.prefix, None);
    assert_eq!(v.major, 1);
    assert_eq!(v.minor, 2);
    assert_eq!(v.patch, 3);
    assert_eq!(v.label, None);
    assert_eq!(v.rc_number, None);
}

#[test]
fn patch_bump_renders() {
    let v = Version::parse("1.2.3").unwrap();
    let w = v.increment(Some("patch"), None).unwrap();
    assert_eq!(w.major, 1);
    assert_eq!(w.minor, 2);
    assert_eq!(w.patch, 4);
    assert_eq!(w.render(), "1.2.4");
}

#[test]
fn parse_prefixed_rc() {
    let v = Version::parse("prod-2.0.0-rc.3").unwrap();
    assert_eq!(v.prefix.as_deref(), Some("prod"));
    assert_eq!(v.major, 2);
    assert_eq!(v.minor, 0);
    assert_eq!(v.patch, 0);
    assert_eq!(v.label.as_deref(), Some("rc"));
    assert_eq!(v.rc_number, Some(3));
}

#[test]
fn rc_bump_keeps_base() {
    let v = Version::parse("prod-2.0.0-rc.3").unwrap();
    let w = v.increment(None, Some("rc")).unwrap();
    assert_eq!(w.rc_number, Some(4));
    assert_eq!(w.render(), "prod-2.0.0-rc.4");
}

#[test]
fn minor_bump_clears_beta() {
    let v = Version::parse("0.9.0-beta").unwrap();
    assert_eq!(v.label.as_deref(), Some("beta"));
    let w = v.increment(Some("minor"), None).unwrap();
    assert_eq!(w.major, 0);
    assert_eq!(w.minor, 10);
    assert_eq!(w.patch, 0);
    assert_eq!(w.label, None);
    assert_eq!(w.render(), "0.10.0");
}

#[test]
fn major_bump_resets_rc_counter() {
    let v = Version::parse("1.5.2-rc.2").unwrap();
    let w = v.increment(Some("major"), Some("rc")).unwrap();
    assert_eq!(w.render(), "2.0.0-rc.1");
}

#[test]
fn two_components_fail() {
    assert_eq!(Version::parse("1.2"), Err(ParseError::MissingComponents));
}

#[test]
fn bogus_scope_fails_and_original_is_kept() {
    let v = Version::parse("1.2.3").unwrap();
    let r = v.increment(Some("bogus"), None);
    assert_eq!(r, Err(IncrementError::InvalidScope));
    assert_eq!(v.render(), "1.2.3");
}

#[test]
fn bogus_option_fails() {
    let v = Version::parse("1.2.3").unwrap();
    assert_eq!(v.increment(None, Some("gamma")), Err(IncrementError::InvalidOption));
    assert_eq!(v.increment(Some("major"), Some("gamma")), Err(IncrementError::InvalidOption));
}

#[test]
fn scope_checked_before_option() {
    let v = Version::parse("1.2.3").unwrap();
    assert_eq!(v.increment(Some("bogus"), Some("gamma")), Err(IncrementError::InvalidScope));
}

#[test]
fn round_trip_concrete() {
    for s in ["1.2.3", "prod-2.0.0-rc.3", "0.9.0-beta", "dev-0.1.0", "1.2.3-alpha"] {
        let v = Version::parse(s).unwrap();
        let again = Version::parse(&v.render()).unwrap();
        assert_eq!(v, again);
    }
}

#[test]
fn scope_monotonicity() {
    let v = Version::parse("3.5.7").unwrap();
    let ma = v.increment(Some("major"), None).unwrap();
    assert_eq!((ma.major, ma.minor, ma.patch), (4, 0, 0));
    let mi = v.increment(Some("minor"), None).unwrap();
    assert_eq!((mi.major, mi.minor, mi.patch), (3, 6, 0));
    let pa = v.increment(Some("patch"), None).unwrap();
    assert_eq!((pa.major, pa.minor, pa.patch), (3, 5, 8));
}

#[test]
fn scope_clears_label_and_counter() {
    let v = Version::parse("1.5.2-rc.2").unwrap();
    for s in ["major", "minor", "patch"] {
        let w = v.increment(Some(s), None).unwrap();
        assert_eq!(w.label, None);
        assert_eq!(w.rc_number, None);
    }
}

#[test]
fn rc_counter_increments_from_absent() {
    let v = Version::parse("1.2.3").unwrap();
    let one = v.increment(None, Some("rc")).unwrap();
    assert_eq!(one.rc_number, Some(1));
    assert_eq!(one.label.as_deref(), Some("rc"));
    let two = one.increment(None, Some("rc")).unwrap();
    assert_eq!(two.rc_number, Some(2));
    assert_eq!(two.render(), "1.2.3-rc.2");
}

#[test]
fn combined_call_equals_two_calls() {
    let v = Version::parse("1.5.2-rc.3").unwrap();
    let combined = v.increment(Some("patch"), Some("rc")).unwrap();
    let separate = v
        .increment(Some("patch"), None)
        .unwrap()
        .increment(None, Some("rc"))
        .unwrap();
    assert_eq!(combined, separate);
    assert_eq!(combined.render(), "1.5.3-rc.1");
}

#[test]
fn alpha_and_beta_set_label_and_clear_counter() {
    let v = Version::parse("2.0.0-rc.5").unwrap();
    let a = v.increment(None, Some("alpha")).unwrap();
    assert_eq!(a.label.as_deref(), Some("alpha"));
    assert_eq!(a.rc_number, None);
    assert_eq!(a.render(), "2.0.0-alpha");
    let b = v.increment(None, Some("beta")).unwrap();
    assert_eq!(b.render(), "2.0.0-beta");
}

#[test]
fn no_core_segment_fails() {
    assert_eq!(Version::parse("a-b-c"), Err(ParseError::NoCoreSegment));
}

#[test]
fn non_numeric_components_fail() {
    assert_eq!(Version::parse("x.y.z"), Err(ParseError::InvalidMajor));
    assert_eq!(Version::parse("1.y.3"), Err(ParseError::InvalidMinor));
    assert_eq!(Version::parse("1.2.z"), Err(ParseError::InvalidPatch));
    assert_eq!(Version::parse("4294967296.0.0"), Err(ParseError::InvalidMajor));
}

#[test]
fn numeric_looking_prefix_is_misread_as_core() {
    // The classifier takes the first dash-segment that is itself a bare
    // semantic version as the numeric core, so a prefix of that shape wins.
    let v = Version::parse("1.0-2.0.0").unwrap();
    assert_eq!(v.prefix.as_deref(), Some("1.0"));
    assert_eq!((v.major, v.minor, v.patch), (2, 0, 0));
    let w = Version::parse("1.0.0-2.0.0").unwrap();
    assert_eq!(w.prefix, None);
    assert_eq!((w.major, w.minor, w.patch), (1, 0, 0));
    assert_eq!(w.label.as_deref(), Some("2.0.0"));
}

#[test]
fn dashed_prefix_and_label() {
    let v = Version::parse("my-env-1.2.3-some-label").unwrap();
    assert_eq!(v.prefix.as_deref(), Some("my-env"));
    assert_eq!((v.major, v.minor, v.patch), (1, 2, 3));
    assert_eq!(v.label.as_deref(), Some("some-label"));
    assert_eq!(v.render(), "my-env-1.2.3-some-label");
}

#[test]
fn bare_rc_label_defaults_counter_to_zero() {
    let v = Version::parse("1.2.3-rc").unwrap();
    assert_eq!(v.label.as_deref(), Some("rc"));
    assert_eq!(v.rc_number, None);
    assert_eq!(v.render(), "1.2.3-rc.0");
}

#[test]
fn rc_digits_with_leading_zeros() {
    let v = Version::parse("1.2.3-rc.07").unwrap();
    assert_eq!(v.rc_number, Some(7));
    assert_eq!(v.render(), "1.2.3-rc.7");
}

#[test]
fn oversized_rc_digits_keep_label_verbatim() {
    let v = Version::parse("1.2.3-rc.4294967296").unwrap();
    assert_eq!(v.label.as_deref(), Some("rc.4294967296"));
    assert_eq!(v.rc_number, None);
}

#[test]
fn leading_zeros_in_core_components() {
    let v = Version::parse("01.2.3").unwrap();
    assert_eq!(v.major, 1);
}

#[test]
fn extra_core_components_are_ignored() {
    let v = Version::parse("1.2.3.4").unwrap();
    assert_eq!((v.major, v.minor, v.patch), (1, 2, 3));
}

#[test]
fn error_messages() {
    assert_eq!(
        Version::parse("1.2").unwrap_err().message(),
        "Invalid version format"
    );
    assert_eq!(
        Version::parse("x.2.3").unwrap_err().message(),
        "Invalid major version"
    );
    let v = Version::parse("1.2.3").unwrap();
    assert_eq!(
        v.increment(Some("huge"), None).unwrap_err().message(),
        "Invalid scope. Valid scopes are: major, minor, patch, and option"
    );
    assert_eq!(
        v.increment(None, Some("rcx")).unwrap_err().message(),
        "Invalid option. Valid scopes are: alpha, beta, rc, or just left it empty"
    );
}
