use isochron::release::error::XtaskError;
use isochron::release::semver_check::{public_api_arguments, semver_checks_arguments};
use isochron::release::version::BumpLevel;

const DECLARED_MINOR_MANIFEST: &str = "[package]\n\
name = \"isochron\"\n\
version = \"0.1.2\"\n\
\n\
[package.metadata.isochron]\n\
next-release = \"minor\"\n";

/// The public API check of a repository whose manifest is `manifest`: the
/// declaration is read, then one comparison runs; `failing` makes every
/// command fail.
fn check_public_api(
    manifest: &str,
    failing: bool,
    calls: &mut Vec<(String, Vec<String>)>,
) -> Result<(), XtaskError> {
    let arguments = public_api_arguments(manifest)?;
    calls.push((
        "cargo".to_string(),
        arguments.iter().map(|argument| (*argument).to_string()).collect(),
    ));
    if failing {
        return Err(XtaskError::CommandFailed {
            program: "cargo".to_string(),
            status: "1".to_string(),
        });
    }
    Ok(())
}

fn call(program: &str, arguments: &[&str]) -> (String, Vec<String>) {
    (
        program.to_string(),
        arguments
            .iter()
            .map(|argument| (*argument).to_string())
            .collect(),
    )
}

#[test]
fn a_patch_declaration_lets_the_tool_infer_the_release_type() {
    assert_eq!(
        semver_checks_arguments(BumpLevel::Patch),
        vec!["semver-checks", "--package", "isochron", "--all-features"]
    );
}

#[test]
fn a_minor_declaration_passes_the_minor_release_type() {
    assert_eq!(
        semver_checks_arguments(BumpLevel::Minor),
        vec![
            "semver-checks",
            "--package",
            "isochron",
            "--all-features",
            "--release-type",
            "minor"
        ]
    );
}

#[test]
fn a_major_declaration_passes_the_major_release_type() {
    assert_eq!(
        semver_checks_arguments(BumpLevel::Major),
        vec![
            "semver-checks",
            "--package",
            "isochron",
            "--all-features",
            "--release-type",
            "major"
        ]
    );
}

#[test]
fn check_public_api_runs_exactly_one_comparison_under_the_declared_release_type() {
    let mut calls = Vec::new();
    check_public_api(DECLARED_MINOR_MANIFEST, false, &mut calls).unwrap();
    assert_eq!(
        calls,
        vec![call(
            "cargo",
            &[
                "semver-checks",
                "--package",
                "isochron",
                "--all-features",
                "--release-type",
                "minor"
            ]
        )]
    );
}

#[test]
fn check_public_api_refuses_a_missing_declaration_before_running_anything() {
    let manifest = "[package]\nname = \"isochron\"\nversion = \"0.1.2\"\n";
    let mut calls = Vec::new();
    let error = check_public_api(manifest, false, &mut calls).unwrap_err();
    assert!(matches!(error, XtaskError::NextReleaseNotFound));
    assert_eq!(calls, Vec::new());
}

#[test]
fn check_public_api_propagates_a_failed_comparison() {
    let mut calls = Vec::new();
    let error = check_public_api(DECLARED_MINOR_MANIFEST, true, &mut calls).unwrap_err();
    assert!(matches!(error, XtaskError::CommandFailed { program, .. } if program == "cargo"));
    assert_eq!(calls.len(), 1);
}
