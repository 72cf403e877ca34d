use isochron::release::error::XtaskError;
use isochron::release::version::{BumpLevel, Version, VersionRequest};

#[test]
fn parses_minimal_versions() {
    assert_eq!("0.1.2".parse::<Version>().unwrap(), Version::new(0, 1, 2));
    assert_eq!("0.0.0".parse::<Version>().unwrap(), Version::new(0, 0, 0));
}

#[test]
fn rejects_leading_zero_in_major() {
    let error = "07.1.2".parse::<Version>().unwrap_err();
    assert!(matches!(error, XtaskError::InvalidVersion { input } if input == "07.1.2"));
}

#[test]
fn rejects_leading_zero_in_minor() {
    let error = "0.01.2".parse::<Version>().unwrap_err();
    assert!(matches!(error, XtaskError::InvalidVersion { .. }));
}

#[test]
fn rejects_missing_patch_component() {
    let error = "1.2".parse::<Version>().unwrap_err();
    assert!(matches!(error, XtaskError::InvalidVersion { .. }));
}

#[test]
fn rejects_extra_component() {
    let error = "1.2.3.4".parse::<Version>().unwrap_err();
    assert!(matches!(error, XtaskError::InvalidVersion { .. }));
}

#[test]
fn rejects_prerelease_suffix() {
    let error = "1.2.3-rc.1".parse::<Version>().unwrap_err();
    assert!(matches!(error, XtaskError::InvalidVersion { .. }));
}

#[test]
fn rejects_leading_space() {
    let error = " 1.2.3".parse::<Version>().unwrap_err();
    assert!(matches!(error, XtaskError::InvalidVersion { .. }));
}

#[test]
fn rejects_v_prefix() {
    let error = "v1.2.3".parse::<Version>().unwrap_err();
    assert!(matches!(error, XtaskError::InvalidVersion { .. }));
}

#[test]
fn rejects_empty_input() {
    let error = "".parse::<Version>().unwrap_err();
    assert!(matches!(error, XtaskError::InvalidVersion { .. }));
}

#[test]
fn display_round_trips_through_parse() {
    let version = Version::new(1, 2, 3);
    assert_eq!(version.to_string(), "1.2.3");
    assert_eq!(version.to_string().parse::<Version>().unwrap(), version);
}

#[test]
fn resolves_patch_bump() {
    let current = Version::new(0, 1, 1);
    let target = VersionRequest::Level(BumpLevel::Patch)
        .resolve(&current)
        .unwrap();
    assert_eq!(target, Version::new(0, 1, 2));
}

#[test]
fn resolves_minor_bump() {
    let current = Version::new(0, 1, 1);
    let target = VersionRequest::Level(BumpLevel::Minor)
        .resolve(&current)
        .unwrap();
    assert_eq!(target, Version::new(0, 2, 0));
}

#[test]
fn resolves_major_bump() {
    let current = Version::new(0, 1, 1);
    let target = VersionRequest::Level(BumpLevel::Major)
        .resolve(&current)
        .unwrap();
    assert_eq!(target, Version::new(1, 0, 0));
}

#[test]
fn minor_bump_resets_patch() {
    let current = Version::new(1, 2, 3);
    let target = VersionRequest::Level(BumpLevel::Minor)
        .resolve(&current)
        .unwrap();
    assert_eq!(target, Version::new(1, 3, 0));
}

#[test]
fn resolves_exact_greater_version() {
    let current = Version::new(0, 1, 1);
    let target = VersionRequest::Exact(Version::new(0, 1, 2))
        .resolve(&current)
        .unwrap();
    assert_eq!(target, Version::new(0, 1, 2));
}

#[test]
fn rejects_exact_equal_version() {
    let current = Version::new(0, 1, 1);
    let error = VersionRequest::Exact(Version::new(0, 1, 1))
        .resolve(&current)
        .unwrap_err();
    assert!(matches!(error, XtaskError::VersionNotGreater { .. }));
}

#[test]
fn rejects_exact_lesser_version() {
    let current = Version::new(0, 1, 1);
    let error = VersionRequest::Exact(Version::new(0, 1, 0))
        .resolve(&current)
        .unwrap_err();
    assert!(matches!(error, XtaskError::VersionNotGreater { .. }));
}

#[test]
fn parses_bump_level_keywords_and_exact_versions() {
    assert!(matches!(
        "patch".parse::<VersionRequest>().unwrap(),
        VersionRequest::Level(BumpLevel::Patch)
    ));
    assert!(matches!(
        "minor".parse::<VersionRequest>().unwrap(),
        VersionRequest::Level(BumpLevel::Minor)
    ));
    assert!(matches!(
        "major".parse::<VersionRequest>().unwrap(),
        VersionRequest::Level(BumpLevel::Major)
    ));
    assert!(matches!(
        "0.2.0".parse::<VersionRequest>().unwrap(),
        VersionRequest::Exact(version) if version == Version::new(0, 2, 0)
    ));
}

#[test]
fn rejects_unknown_version_request_keywords() {
    assert!(matches!(
        "Patch".parse::<VersionRequest>(),
        Err(XtaskError::InvalidVersion { .. })
    ));
    assert!(matches!(
        "pre".parse::<VersionRequest>(),
        Err(XtaskError::InvalidVersion { .. })
    ));
    assert!(matches!(
        "".parse::<VersionRequest>(),
        Err(XtaskError::InvalidVersion { .. })
    ));
}

#[test]
fn not_greater_error_names_both_versions() {
    let error = VersionRequest::Exact(Version::new(0, 1, 0))
        .resolve(&Version::new(0, 1, 1))
        .unwrap_err();
    assert_eq!(
        error.to_string(),
        "Requested version `0.1.0` is not strictly greater than the current version `0.1.1`; choose a higher version"
    );
}

#[test]
fn largest_component_still_parses() {
    let version = "18446744073709551615.0.1".parse::<Version>().unwrap();
    assert_eq!(version.components(), (u64::MAX, 0, 1));
    assert!(matches!(
        "18446744073709551616.0.1".parse::<Version>(),
        Err(XtaskError::InvalidVersion { .. })
    ));
}

#[test]
fn bump_levels_are_ordered() {
    assert!(BumpLevel::Patch.is_below(BumpLevel::Minor));
    assert!(BumpLevel::Minor.is_below(BumpLevel::Major));
    assert!(!BumpLevel::Major.is_below(BumpLevel::Patch));
    assert_eq!(BumpLevel::Minor.as_str(), "minor");
}

#[test]
fn each_version_has_one_spelling() {
    let version = Version::new(10, 0, 7);
    let text = version.to_string();
    assert_eq!(text, "10.0.7");
    assert_eq!(text.parse::<Version>().unwrap().to_string(), text);
    assert!("010.0.7".parse::<Version>().is_err());
}
