use isochron::release::error::XtaskError;
use isochron::release::release_prep::{branch_name, bump_level_between, Preparation};
use isochron::release::version::{BumpLevel, Version, VersionRequest};
use isochron::release::workflow::{Action, Event};
use std::collections::HashMap;

const FIXTURE_MANIFEST: &str = "[package]\nname = \"isochron\"\nversion = \"0.1.1\"\n\n\
[package.metadata.isochron]\nnext-release = \"patch\"\n";
const DECLARED_MINOR_MANIFEST: &str = "[package]\nname = \"isochron\"\nversion = \"0.1.1\"\n\n\
[package.metadata.isochron]\nnext-release = \"minor\"\n";
const FIXTURE_CHANGELOG: &str = "## [Unreleased]\n\n\
### Added\n\n\
- Something pending.\n\n\
## [0.1.1] - 2026-06-18\n\n\
### Changed\n\n\
- Older change.\n\n\
[Unreleased]: https://github.com/nubster-opensources/isochron/compare/v0.1.1...HEAD\n\
[0.1.1]: https://github.com/nubster-opensources/isochron/releases/tag/v0.1.1\n";
const INVALID_CHANGELOG: &str = "# No unreleased section here\n";

/// A repository held in memory, and a fake command runner that records
/// every call and returns configured outputs or failures by call index.
struct Repository {
    files: HashMap<String, String>,
    calls: Vec<(String, Vec<String>)>,
    outputs: HashMap<usize, String>,
    fail_at: Option<usize>,
}

impl Repository {
    fn new(manifest: &str, changelog: &str) -> Self {
        let mut files = HashMap::new();
        files.insert("Cargo.toml".to_string(), manifest.to_string());
        files.insert("CHANGELOG.md".to_string(), changelog.to_string());
        Self {
            files,
            calls: Vec::new(),
            outputs: HashMap::new(),
            fail_at: None,
        }
    }

    fn with_output(mut self, call_index: usize, output: &str) -> Self {
        self.outputs.insert(call_index, output.to_string());
        self
    }

    fn failing_at(mut self, call_index: usize) -> Self {
        self.fail_at = Some(call_index);
        self
    }

    fn file(&self, name: &str) -> String {
        self.files.get(name).cloned().unwrap_or_default()
    }

    fn prepare_release(
        &mut self,
        request: &VersionRequest,
        date: &str,
        is_dry_run: bool,
    ) -> Result<Version, XtaskError> {
        let (mut state, mut action) = Preparation::start(*request, date, is_dry_run);
        loop {
            let event = match action {
                Action::Run { program, arguments } => {
                    let index = self.calls.len();
                    self.calls.push((program.clone(), arguments));
                    if self.fail_at == Some(index) {
                        return Err(XtaskError::CommandFailed {
                            program,
                            status: "1".to_string(),
                        });
                    }
                    Event::Output(self.outputs.get(&index).cloned().unwrap_or_default())
                }
                Action::Read { file } => Event::Contents(self.file(&file)),
                Action::Write { file, contents } => {
                    self.files.insert(file, contents);
                    Event::Written
                }
                Action::Finish(outcome) => return outcome,
            };
            let (next_state, next_action) = state.step(event);
            state = next_state;
            action = next_action;
        }
    }
}

fn call(program: &str, arguments: &[&str]) -> (String, Vec<String>) {
    (
        program.to_string(),
        arguments
            .iter()
            .map(|argument| (*argument).to_string())
            .collect(),
    )
}

fn expected_calls_up_to_verification() -> Vec<(String, Vec<String>)> {
    vec![
        call("git", &["rev-parse", "--abbrev-ref", "HEAD"]),
        call("git", &["status", "--porcelain"]),
        call("git", &["pull", "--ff-only", "origin", "main"]),
        call("git", &["checkout", "-b", "chore/release-v0.1.2"]),
        call("git", &["add", "CHANGELOG.md", "Cargo.toml"]),
        call(
            "git",
            &[
                "commit",
                "-m",
                "release(v0.1.2): bump isochron to 0.1.2 and graduate the changelog",
            ],
        ),
        call("cargo", &["fmt", "--all", "--check"]),
        call(
            "cargo",
            &[
                "clippy",
                "--workspace",
                "--all-targets",
                "--all-features",
                "--",
                "-D",
                "warnings",
            ],
        ),
        call("cargo", &["test", "--workspace", "--all-features"]),
        call(
            "cargo",
            &["semver-checks", "--package", "isochron", "--all-features"],
        ),
    ]
}

#[test]
fn dry_run_records_the_verification_steps_without_pushing_or_opening_a_pull_request() {
    let mut repository =
        Repository::new(FIXTURE_MANIFEST, FIXTURE_CHANGELOG).with_output(0, "main\n");
    let target = repository
        .prepare_release(&VersionRequest::Level(BumpLevel::Patch), "2026-09-15", true)
        .unwrap();
    assert_eq!(target.to_string(), "0.1.2");
    assert_eq!(repository.calls, expected_calls_up_to_verification());
    assert!(!repository.calls.iter().any(|(program, arguments)| {
        program == "git" && arguments.first().map(String::as_str) == Some("push")
    }));
    assert!(!repository.calls.iter().any(|(program, _)| program == "gh"));

    let manifest_after = repository.file("Cargo.toml");
    assert_eq!(
        manifest_after,
        "[package]\nname = \"isochron\"\nversion = \"0.1.2\"\n\n\
[package.metadata.isochron]\nnext-release = \"patch\"\n"
    );
    let changelog_after = repository.file("CHANGELOG.md");
    assert!(changelog_after.contains("## [Unreleased]\n\n## [0.1.2] - 2026-09-15\n"));
    assert!(changelog_after.contains(
        "[Unreleased]: https://github.com/nubster-opensources/isochron/compare/v0.1.2...HEAD\n\
[0.1.2]: https://github.com/nubster-opensources/isochron/compare/v0.1.1...v0.1.2\n"
    ));
}

#[test]
fn not_dry_run_pushes_and_opens_a_pull_request_after_verification() {
    let mut repository =
        Repository::new(FIXTURE_MANIFEST, FIXTURE_CHANGELOG).with_output(0, "main\n");
    repository
        .prepare_release(&VersionRequest::Level(BumpLevel::Patch), "2026-09-15", false)
        .unwrap();
    let calls = &repository.calls;
    assert_eq!(calls.len(), 12);
    assert_eq!(calls[..10], expected_calls_up_to_verification()[..]);
    assert_eq!(
        calls[10],
        call("git", &["push", "-u", "origin", "chore/release-v0.1.2"])
    );
    assert_eq!(calls[11].0, "gh");
    let pull_request_arguments = &calls[11].1;
    for expected in ["--base", "main", "--head", "chore/release-v0.1.2"] {
        assert!(
            pull_request_arguments
                .iter()
                .any(|argument| argument == expected),
            "gh pr create is missing {expected}"
        );
    }
    assert_eq!(calls[11].1.first().map(String::as_str), Some("pr"));
    assert_eq!(calls[11].1.get(1).map(String::as_str), Some("create"));
}

#[test]
fn invalid_changelog_stops_after_the_dirty_tree_check() {
    let mut repository =
        Repository::new(FIXTURE_MANIFEST, INVALID_CHANGELOG).with_output(0, "main\n");
    let error = repository
        .prepare_release(&VersionRequest::Level(BumpLevel::Patch), "2026-09-15", true)
        .unwrap_err();
    assert!(matches!(error, XtaskError::MissingUnreleasedSection));
    assert_eq!(repository.calls[..], expected_calls_up_to_verification()[..3]);
    assert_eq!(repository.file("CHANGELOG.md"), INVALID_CHANGELOG);
    assert_eq!(repository.file("Cargo.toml"), FIXTURE_MANIFEST);
}

#[test]
fn refuses_to_run_outside_main() {
    let mut repository =
        Repository::new(FIXTURE_MANIFEST, FIXTURE_CHANGELOG).with_output(0, "feature/other\n");
    let error = repository
        .prepare_release(&VersionRequest::Level(BumpLevel::Patch), "2026-09-15", true)
        .unwrap_err();
    assert!(matches!(error, XtaskError::NotOnMain { branch } if branch == "feature/other"));
    assert_eq!(repository.calls.len(), 1);
}

#[test]
fn refuses_to_run_with_a_dirty_working_tree() {
    let mut repository = Repository::new(FIXTURE_MANIFEST, FIXTURE_CHANGELOG)
        .with_output(0, "main\n")
        .with_output(1, " M src/lib.rs\n");
    let error = repository
        .prepare_release(&VersionRequest::Level(BumpLevel::Patch), "2026-09-15", true)
        .unwrap_err();
    assert!(matches!(error, XtaskError::DirtyWorkingTree));
    assert_eq!(repository.calls.len(), 2);
}

#[test]
fn dry_run_commits_exactly_once() {
    let mut repository =
        Repository::new(FIXTURE_MANIFEST, FIXTURE_CHANGELOG).with_output(0, "main\n");
    repository
        .prepare_release(&VersionRequest::Level(BumpLevel::Patch), "2026-09-15", true)
        .unwrap();
    let commit_calls = repository
        .calls
        .iter()
        .filter(|(program, arguments)| {
            program == "git" && arguments.first().map(String::as_str) == Some("commit")
        })
        .count();
    assert_eq!(commit_calls, 1);
}

#[test]
fn a_failure_during_local_verification_stops_before_running_the_tests() {
    let mut repository = Repository::new(FIXTURE_MANIFEST, FIXTURE_CHANGELOG)
        .with_output(0, "main\n")
        .failing_at(7);
    let error = repository
        .prepare_release(&VersionRequest::Level(BumpLevel::Patch), "2026-09-15", true)
        .unwrap_err();
    assert!(matches!(error, XtaskError::CommandFailed { .. }));
    assert_eq!(repository.calls[..], expected_calls_up_to_verification()[..8]);
}

#[test]
fn refuses_a_bump_below_the_declared_release_before_creating_a_branch() {
    let mut repository =
        Repository::new(DECLARED_MINOR_MANIFEST, FIXTURE_CHANGELOG).with_output(0, "main\n");
    let error = repository
        .prepare_release(&VersionRequest::Level(BumpLevel::Patch), "2026-09-17", true)
        .unwrap_err();
    assert!(matches!(
        error,
        XtaskError::BumpBelowDeclaredRelease { declared, requested }
            if declared == "minor" && requested == "patch"
    ));
    assert_eq!(repository.calls[..], expected_calls_up_to_verification()[..3]);
    assert_eq!(repository.file("Cargo.toml"), DECLARED_MINOR_MANIFEST);
    assert_eq!(repository.file("CHANGELOG.md"), FIXTURE_CHANGELOG);
}

#[test]
fn refuses_an_exact_version_below_the_declared_release() {
    let mut repository =
        Repository::new(DECLARED_MINOR_MANIFEST, FIXTURE_CHANGELOG).with_output(0, "main\n");
    let error = repository
        .prepare_release(&VersionRequest::Exact(Version::new(0, 1, 5)), "2026-09-17", true)
        .unwrap_err();
    assert!(matches!(
        error,
        XtaskError::BumpBelowDeclaredRelease { declared, requested }
            if declared == "minor" && requested == "patch"
    ));
    assert_eq!(repository.calls.len(), 3);
}

#[test]
fn a_release_at_the_declared_level_resets_the_declaration_to_patch() {
    let mut repository =
        Repository::new(DECLARED_MINOR_MANIFEST, FIXTURE_CHANGELOG).with_output(0, "main\n");
    let target = repository
        .prepare_release(&VersionRequest::Exact(Version::new(0, 2, 0)), "2026-09-17", true)
        .unwrap();
    assert_eq!(target, Version::new(0, 2, 0));
    assert!(repository
        .calls
        .contains(&call("git", &["checkout", "-b", "chore/release-v0.2.0"])));
    assert_eq!(
        repository.file("Cargo.toml"),
        "[package]\nname = \"isochron\"\nversion = \"0.2.0\"\n\n\
[package.metadata.isochron]\nnext-release = \"patch\"\n"
    );
    assert_eq!(
        repository.calls.last(),
        Some(&call(
            "cargo",
            &["semver-checks", "--package", "isochron", "--all-features"]
        ))
    );
}

#[test]
fn a_failed_public_api_comparison_stops_before_pushing() {
    let mut repository = Repository::new(FIXTURE_MANIFEST, FIXTURE_CHANGELOG)
        .with_output(0, "main\n")
        .failing_at(9);
    let error = repository
        .prepare_release(&VersionRequest::Level(BumpLevel::Patch), "2026-09-17", false)
        .unwrap_err();
    assert!(matches!(error, XtaskError::CommandFailed { .. }));
    assert_eq!(repository.calls[..], expected_calls_up_to_verification()[..]);
}

#[test]
fn bump_level_between_names_the_most_significant_changed_component() {
    let current = Version::new(0, 1, 2);
    assert_eq!(
        bump_level_between(&current, &Version::new(0, 1, 3)),
        BumpLevel::Patch
    );
    assert_eq!(
        bump_level_between(&current, &Version::new(0, 2, 0)),
        BumpLevel::Minor
    );
    assert_eq!(
        bump_level_between(&current, &Version::new(0, 2, 5)),
        BumpLevel::Minor
    );
    assert_eq!(
        bump_level_between(&current, &Version::new(1, 0, 0)),
        BumpLevel::Major
    );
}

#[test]
fn branch_name_uses_the_chore_release_prefix() {
    assert_eq!(branch_name(&Version::new(0, 1, 2)), "chore/release-v0.1.2");
}

#[test]
fn a_patch_bump_at_the_largest_patch_is_not_greater() {
    let manifest = "[package]\nversion = \"0.1.18446744073709551615\"\n\n[package.metadata.isochron]\nnext-release = \"patch\"\n";
    let mut repository = Repository::new(manifest, FIXTURE_CHANGELOG).with_output(0, "main\n");
    let error = repository
        .prepare_release(&VersionRequest::Level(BumpLevel::Patch), "2026-09-17", true)
        .unwrap_err();
    assert!(matches!(
        error,
        XtaskError::VersionNotGreater { current, target }
            if current == "0.1.18446744073709551615" && target == "0.1.0"
    ));
    assert_eq!(repository.calls.len(), 3);
}

#[test]
fn pull_request_carries_the_tag_instructions() {
    let mut repository =
        Repository::new(FIXTURE_MANIFEST, FIXTURE_CHANGELOG).with_output(0, "main\n");
    repository
        .prepare_release(&VersionRequest::Level(BumpLevel::Patch), "2026-09-15", false)
        .unwrap();
    let arguments = &repository.calls[11].1;
    assert_eq!(
        arguments[7],
        "release(v0.1.2): bump isochron and graduate the changelog"
    );
    assert!(arguments[9].contains("git tag -a v0.1.2 -m \"v0.1.2\"\ngit push origin v0.1.2\n"));
}
