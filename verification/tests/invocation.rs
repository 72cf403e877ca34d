use isochron::release::error::XtaskError;
use isochron::release::invocation::{parse_invocation, Invocation};
use isochron::release::version::{BumpLevel, Version, VersionRequest};

fn arguments(values: &[&str]) -> Vec<String> {
    values.iter().map(|value| (*value).to_string()).collect()
}

#[test]
fn parses_a_bump_level_release_prep() {
    let invocation = parse_invocation(&arguments(&["release-prep", "patch"])).unwrap();
    assert_eq!(
        invocation,
        Invocation::PrepareRelease {
            request: VersionRequest::Level(BumpLevel::Patch),
            is_dry_run: false
        }
    );
}

#[test]
fn parses_an_exact_version_dry_run_release_prep() {
    let invocation =
        parse_invocation(&arguments(&["release-prep", "0.2.0", "--dry-run"])).unwrap();
    assert_eq!(
        invocation,
        Invocation::PrepareRelease {
            request: VersionRequest::Exact(Version::new(0, 2, 0)),
            is_dry_run: true,
        }
    );
}

#[test]
fn parses_release_notes() {
    let invocation = parse_invocation(&arguments(&["release-notes", "0.1.1"])).unwrap();
    assert_eq!(
        invocation,
        Invocation::PrintReleaseNotes {
            version: "0.1.1".to_string()
        }
    );
}

#[test]
fn rejects_no_arguments() {
    assert!(matches!(
        parse_invocation(&arguments(&[])),
        Err(XtaskError::Usage(_))
    ));
}

#[test]
fn rejects_an_unknown_command() {
    assert!(matches!(
        parse_invocation(&arguments(&["publish"])),
        Err(XtaskError::Usage(_))
    ));
}

#[test]
fn rejects_release_prep_without_a_version() {
    assert!(matches!(
        parse_invocation(&arguments(&["release-prep"])),
        Err(XtaskError::Usage(_))
    ));
}

#[test]
fn rejects_release_notes_without_a_version() {
    assert!(matches!(
        parse_invocation(&arguments(&["release-notes"])),
        Err(XtaskError::Usage(_))
    ));
}

#[test]
fn rejects_release_prep_with_an_unknown_flag() {
    assert!(matches!(
        parse_invocation(&arguments(&["release-prep", "patch", "--force"])),
        Err(XtaskError::Usage(_))
    ));
}

#[test]
fn parses_release_verify() {
    let invocation = parse_invocation(&arguments(&["release-verify", "v0.1.2"])).unwrap();
    assert_eq!(
        invocation,
        Invocation::VerifyReleaseTag {
            tag: "v0.1.2".to_string()
        }
    );
}

#[test]
fn parses_release_verify_without_validating_the_tag_shape() {
    let invocation = parse_invocation(&arguments(&["release-verify", "not-a-tag"])).unwrap();
    assert_eq!(
        invocation,
        Invocation::VerifyReleaseTag {
            tag: "not-a-tag".to_string()
        }
    );
}

#[test]
fn rejects_release_verify_without_a_tag() {
    assert!(matches!(
        parse_invocation(&arguments(&["release-verify"])),
        Err(XtaskError::Usage(_))
    ));
}

#[test]
fn rejects_release_verify_with_an_extra_argument() {
    assert!(matches!(
        parse_invocation(&arguments(&["release-verify", "v0.1.2", "extra"])),
        Err(XtaskError::Usage(_))
    ));
}

#[test]
fn usage_lists_every_command() {
    let error = parse_invocation(&arguments(&["publish"])).unwrap_err();
    assert_eq!(
        error.to_string(),
        "Usage:\n  cargo xtask release-prep <patch|minor|major|x.y.z> [--dry-run]\n  cargo xtask release-notes <version>\n  cargo xtask release-verify <vX.Y.Z>"
    );
}

#[test]
fn a_bad_version_is_reported_before_an_unknown_flag() {
    assert!(matches!(
        parse_invocation(&arguments(&["release-prep", "1.2", "--force"])),
        Err(XtaskError::InvalidVersion { input }) if input == "1.2"
    ));
}
