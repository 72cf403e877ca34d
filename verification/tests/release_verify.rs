use isochron::release::error::XtaskError;
use isochron::release::release_verify::{
    is_on_first_parent_line, package_version_from_pkgid, tag_version, Verification,
};
use isochron::release::version::Version;
use isochron::release::workflow::{Action, Event};

const CHANGELOG: &str = "## [Unreleased]\n\n## [0.1.2] - 2026-09-15\n\n### Fixed\n\n- A fix.\n\n\
[Unreleased]: https://github.com/nubster-opensources/isochron/compare/v0.1.2...HEAD\n";

const COMMIT: &str = "4f1c2d3e4f5a6b7c8d9e0f1a2b3c4d5e6f7a8b9c";

/// Runs a verification against canned command outputs, in call order.
fn verify(tag: &str, outputs: &[&str], changelog: &str) -> (Result<Version, XtaskError>, Vec<Vec<String>>) {
    let mut calls = Vec::new();
    let (mut state, mut action) = Verification::start(tag);
    loop {
        let event = match action {
            Action::Run { program, arguments } => {
                let index = calls.len();
                let mut recorded = vec![program];
                recorded.extend(arguments);
                calls.push(recorded);
                Event::Output(outputs.get(index).map(|text| (*text).to_string()).unwrap_or_default())
            }
            Action::Read { .. } => Event::Contents(changelog.to_string()),
            Action::Write { .. } => Event::Written,
            Action::Finish(outcome) => return (outcome, calls),
        };
        let (next_state, next_action) = state.step(event);
        state = next_state;
        action = next_action;
    }
}

#[test]
fn tag_version_reads_a_strict_tag() {
    assert_eq!(tag_version("v0.1.2").unwrap(), Version::new(0, 1, 2));
    for tag in ["0.1.2", "v0.1.2-rc.1", "v0.1.2+build", "V0.1.2", "v01.1.2", ""] {
        assert!(matches!(
            tag_version(tag),
            Err(XtaskError::InvalidReleaseTag { tag: reported }) if reported == tag
        ));
    }
}

#[test]
fn package_version_accepts_both_pkgid_forms() {
    assert_eq!(
        package_version_from_pkgid("path+file:///work/isochron#0.1.2\n").unwrap(),
        Version::new(0, 1, 2)
    );
    assert_eq!(
        package_version_from_pkgid("path+file:///work/checkout#isochron@0.1.2\n").unwrap(),
        Version::new(0, 1, 2)
    );
    assert!(matches!(
        package_version_from_pkgid("no fragment here"),
        Err(XtaskError::UnreadablePackageId { output }) if output == "no fragment here"
    ));
}

#[test]
fn first_parent_membership_is_exact() {
    let listing = format!("{COMMIT}\n0123456789abcdef0123456789abcdef01234567\n");
    assert!(is_on_first_parent_line(COMMIT, &listing));
    assert!(!is_on_first_parent_line(&COMMIT[..7], &listing));
    assert!(!is_on_first_parent_line("", &listing));
}

#[test]
fn a_valid_release_runs_every_check_in_order() {
    let listing = format!("{COMMIT}\n");
    let outputs = [
        "path+file:///work/isochron#0.1.2\n",
        "4f1c2d3e4f5a6b7c8d9e0f1a2b3c4d5e6f7a8b9c\n",
        "4f1c2d3e4f5a6b7c8d9e0f1a2b3c4d5e6f7a8b9c\n",
        "",
        listing.as_str(),
    ];
    let (outcome, calls) = verify("v0.1.2", &outputs, CHANGELOG);
    assert_eq!(outcome.unwrap(), Version::new(0, 1, 2));
    let expected: Vec<Vec<String>> = [
        vec!["cargo", "pkgid", "--package", "isochron"],
        vec!["git", "rev-parse", "v0.1.2^{commit}"],
        vec!["git", "rev-parse", "HEAD"],
        vec!["git", "fetch", "origin", "main"],
        vec!["git", "rev-list", "--first-parent", "origin/main"],
    ]
    .iter()
    .map(|call| call.iter().map(|part| (*part).to_string()).collect())
    .collect();
    assert_eq!(calls, expected);
}

#[test]
fn an_invalid_tag_runs_nothing() {
    let (outcome, calls) = verify("release-0.1.2", &[], CHANGELOG);
    assert!(matches!(outcome, Err(XtaskError::InvalidReleaseTag { .. })));
    assert!(calls.is_empty());
}

#[test]
fn a_tag_for_another_version_is_refused() {
    let (outcome, calls) = verify("v0.1.3", &["path+file:///work/isochron#0.1.2\n"], CHANGELOG);
    assert!(matches!(
        outcome,
        Err(XtaskError::TagVersionMismatch { tag_version, package_version })
            if tag_version == "0.1.3" && package_version == "0.1.2"
    ));
    assert_eq!(calls.len(), 1);
}

#[test]
fn a_release_without_notes_is_refused() {
    let (outcome, calls) = verify(
        "v0.1.2",
        &["path+file:///work/isochron#0.1.2\n"],
        "## [0.1.2] - 2026-09-15\n\n[0.1.2]: https://example.invalid\n",
    );
    assert!(matches!(outcome, Err(XtaskError::EmptySection { version }) if version == "0.1.2"));
    assert_eq!(calls.len(), 1);
}

#[test]
fn a_tag_that_is_not_checked_out_is_refused() {
    let outputs = [
        "path+file:///work/isochron#0.1.2\n",
        "4f1c2d3e4f5a6b7c8d9e0f1a2b3c4d5e6f7a8b9c\n",
        "0123456789abcdef0123456789abcdef01234567\n",
    ];
    let (outcome, calls) = verify("v0.1.2", &outputs, CHANGELOG);
    assert!(matches!(
        outcome,
        Err(XtaskError::TagNotCheckedOut { tag_commit, head_commit })
            if tag_commit == COMMIT && head_commit == "0123456789abcdef0123456789abcdef01234567"
    ));
    assert_eq!(calls.len(), 3);
}

#[test]
fn a_commit_off_the_main_line_is_refused() {
    let outputs = [
        "path+file:///work/isochron#0.1.2\n",
        "4f1c2d3e4f5a6b7c8d9e0f1a2b3c4d5e6f7a8b9c\n",
        "4f1c2d3e4f5a6b7c8d9e0f1a2b3c4d5e6f7a8b9c\n",
        "",
        "0123456789abcdef0123456789abcdef01234567\n",
    ];
    let (outcome, _) = verify("v0.1.2", &outputs, CHANGELOG);
    assert!(matches!(
        outcome,
        Err(XtaskError::CommitNotOnMainLine { commit }) if commit == COMMIT
    ));
}
