//! The release preparation workflow: branch and dirty tree checks, changelog
//! graduation, manifest bump, commit, local verification, and pull request.
use vstd::prelude::*;

use crate::release::changelog::{graduate, graduation};
use crate::release::error::{XtaskError, XtaskErrorView};
use crate::release::manifest::{
    declared_next_release, manifest_next_release, manifest_version, manifest_with_next_release,
    manifest_with_version, package_version, with_declared_next_release, with_package_version,
};
use crate::release::semver_check::{semver_arguments, semver_checks_arguments, str_texts};
use crate::release::version::{
    bump_fits, level_name, level_rank, requested_target, version_lt, version_text, BumpLevel,
    Version, VersionRequest, VersionRequestView,
};
use crate::release::workflow::{run, string_texts, Action, ActionView, Event, EventView, event_text};
use crate::text::{chars_of, chars_trim, push_all, push_str, string_from_chars, trim};

verus! {

/// The release branch name for a version, `chore/release-vX.Y.Z`.
pub open spec fn branch_text(v: (nat, nat, nat)) -> Seq<char> {
    "chore/release-v"@ + version_text(v)
}

/// Builds the release branch name for `version`, `chore/release-vX.Y.Z`.
pub fn branch_name(version: &Version) -> (s: String)
    ensures
        s@ == branch_text(version@),
{
    let mut out = chars_of("chore/release-v");
    let v = version.text();
    push_all(&mut out, v.as_slice());
    string_from_chars(out.as_slice())
}

/// The most significant component that changes from `current` to `target`.
pub open spec fn level_between(current: (nat, nat, nat), target: (nat, nat, nat)) -> BumpLevel {
    if target.0 != current.0 {
        BumpLevel::Major
    } else if target.1 != current.1 {
        BumpLevel::Minor
    } else {
        BumpLevel::Patch
    }
}

/// Classifies the move from `current` to `target` by the most significant
/// component it changes.
pub fn bump_level_between(current: &Version, target: &Version) -> (level: BumpLevel)
    ensures
        level == level_between(current@, target@),
{
    let (current_major, current_minor, _) = current.components();
    let (target_major, target_minor, _) = target.components();
    if target_major != current_major {
        BumpLevel::Major
    } else if target_minor != current_minor {
        BumpLevel::Minor
    } else {
        BumpLevel::Patch
    }
}

/// The pull request body explaining what happens after the release pull
/// request merges.
pub open spec fn pull_request_body(v: (nat, nat, nat)) -> Seq<char> {
    let t = version_text(v);
    "This pull request bumps isochron to "@ + t + " and graduates the changelog.\n\nAfter this pull request is merged, push the annotated tag `v"@
        + t + "` to trigger the Release workflow:\n\n```\ngit tag -a v"@ + t + " -m \"v"@ + t + "\"\ngit push origin v"@ + t
        + "\n```\n\nThe Release workflow then publishes the crate to crates.io and creates the GitHub Release."@
}

/// Builds the pull request body for `version`.
pub fn release_pull_request_body(version: &Version) -> (s: String)
    ensures
        s@ == pull_request_body(version@),
{
    let t = version.text();
    let mut out = chars_of("This pull request bumps isochron to ");
    push_all(&mut out, t.as_slice());
    push_str(&mut out, " and graduates the changelog.\n\nAfter this pull request is merged, push the annotated tag `v");
    push_all(&mut out, t.as_slice());
    push_str(&mut out, "` to trigger the Release workflow:\n\n```\ngit tag -a v");
    push_all(&mut out, t.as_slice());
    push_str(&mut out, " -m \"v");
    push_all(&mut out, t.as_slice());
    push_str(&mut out, "\"\ngit push origin v");
    push_all(&mut out, t.as_slice());
    push_str(&mut out, "\n```\n\nThe Release workflow then publishes the crate to crates.io and creates the GitHub Release.");
    string_from_chars(out.as_slice())
}

/// The version a request designates when the bumped component would pass
/// `u64::MAX`: the component wraps to `0`, as the release build of the
/// arithmetic does, which is never greater than the current version.
pub open spec fn wrapped_target(request: VersionRequestView, current: (nat, nat, nat)) -> (nat, nat, nat) {
    match request {
        VersionRequestView::Level(BumpLevel::Patch) => (current.0, current.1, 0),
        VersionRequestView::Level(BumpLevel::Minor) => (current.0, 0, 0),
        VersionRequestView::Level(BumpLevel::Major) => (0, 0, 0),
        VersionRequestView::Exact(v) => v,
    }
}

/// The new version, manifest and changelog of a release, or why it cannot
/// be prepared, checked in this order: the manifest version, the requested
/// version greater than it, the declared next release, a bump at least as
/// large as declared, the changelog graduation, and the manifest rewrites.
pub open spec fn release_plan(
    manifest: Seq<char>,
    changelog: Seq<char>,
    request: VersionRequestView,
    date: Seq<char>,
) -> Result<((nat, nat, nat), Seq<char>, Seq<char>), XtaskErrorView> {
    match manifest_version(manifest) {
        Err(e) => Err(e),
        Ok(current) => if !bump_fits(request, current) {
            Err(XtaskErrorView::VersionNotGreater {
                current: version_text(current),
                target: version_text(wrapped_target(request, current)),
            })
        } else if !version_lt(current, requested_target(request, current)) {
            Err(XtaskErrorView::VersionNotGreater {
                current: version_text(current),
                target: version_text(requested_target(request, current)),
            })
        } else {
            let target = requested_target(request, current);
            match manifest_next_release(manifest) {
                Err(e) => Err(e),
                Ok(declared) => {
                    let requested = level_between(current, target);
                    if level_rank(requested) < level_rank(declared) {
                        Err(XtaskErrorView::BumpBelowDeclaredRelease {
                            declared: level_name(declared),
                            requested: level_name(requested),
                        })
                    } else {
                        match graduation(changelog, target, date) {
                            Err(e) => Err(e),
                            Ok(graduated) => match manifest_with_version(manifest, target) {
                                Err(e) => Err(e),
                                Ok(bumped) => match manifest_with_next_release(bumped, BumpLevel::Patch) {
                                    Err(e) => Err(e),
                                    Ok(updated) => Ok((target, updated, graduated)),
                                },
                            },
                        }
                    }
                },
            }
        },
    }
}

/// Computes the release plan.
fn plan(manifest: &str, changelog: &str, request: VersionRequest, date: &str) -> (r: Result<(Version, String, String), XtaskError>)
    ensures
        match (r, release_plan(manifest@, changelog@, request@, date@)) {
            (Ok((v, m, c)), Ok((w, wm, wc))) => v@ == w && m@ == wm && c@ == wc,
            (Err(e), Err(w)) => e@ == w,
            _ => false,
        },
{
    let current = match package_version(manifest) {
        Ok(v) => v,
        Err(e) => {
            return Err(e);
        },
    };
    let (major, minor, patch) = current.components();
    let fits = match request {
        VersionRequest::Level(BumpLevel::Patch) => patch < u64::MAX,
        VersionRequest::Level(BumpLevel::Minor) => minor < u64::MAX,
        VersionRequest::Level(BumpLevel::Major) => major < u64::MAX,
        VersionRequest::Exact(_) => true,
    };
    proof {
        crate::release::version::lemma_version_view(current, current);
        match request {
            VersionRequest::Exact(v) => {
                crate::release::version::lemma_version_view(v, v);
            },
            _ => {},
        }
    }
    if !fits {
        let wrapped = match request {
            VersionRequest::Level(BumpLevel::Patch) => Version::new(major, minor, 0),
            VersionRequest::Level(BumpLevel::Minor) => Version::new(major, 0, 0),
            VersionRequest::Level(BumpLevel::Major) => Version::new(0, 0, 0),
            VersionRequest::Exact(v) => v,
        };
        return Err(XtaskError::VersionNotGreater { current: current.to_string(), target: wrapped.to_string() });
    }
    let target = match request.resolve(&current) {
        Ok(v) => v,
        Err(e) => {
            return Err(e);
        },
    };
    let declared = match declared_next_release(manifest) {
        Ok(d) => d,
        Err(e) => {
            return Err(e);
        },
    };
    let requested = bump_level_between(&current, &target);
    if requested.is_below(declared) {
        return Err(XtaskError::BumpBelowDeclaredRelease {
            declared: declared.as_str().to_owned(),
            requested: requested.as_str().to_owned(),
        });
    }
    let graduated = match graduate(changelog, &target, date) {
        Ok(g) => g,
        Err(e) => {
            return Err(e);
        },
    };
    let bumped = match with_package_version(manifest, &target) {
        Ok(m) => m,
        Err(e) => {
            return Err(e);
        },
    };
    let updated = match with_declared_next_release(bumped.as_str(), BumpLevel::Patch) {
        Ok(m) => m,
        Err(e) => {
            return Err(e);
        },
    };
    Ok((target, updated, graduated))
}

/// The steps of the release preparation, in order.
#[derive(Debug, Clone, Copy, PartialEq, Eq, Structural)]
pub enum Stage {
    /// The current branch was asked for.
    Branch,
    /// The working tree status was asked for.
    Status,
    /// `main` was pulled.
    Pull,
    /// The manifest was asked for.
    Manifest,
    /// The changelog was asked for.
    Changelog,
    /// The release branch was created.
    Checkout,
    /// The new manifest was written.
    WriteManifest,
    /// The graduated changelog was written.
    WriteChangelog,
    /// The two files were staged.
    Add,
    /// The release commit was made.
    Commit,
    /// The formatting was checked.
    Format,
    /// The lints were checked.
    Lint,
    /// The tests were run.
    Test,
    /// The manifest was asked for again, for the public API check.
    ApiManifest,
    /// The public API was compared.
    ApiCheck,
    /// The release branch was pushed.
    Push,
    /// The pull request was opened.
    PullRequest,
    /// The workflow is over.
    Done,
}

/// A release preparation in progress.
#[derive(Debug)]
pub struct Preparation {
    stage: Stage,
    request: VersionRequest,
    date: String,
    is_dry_run: bool,
    manifest: String,
    target: Version,
    updated_manifest: String,
    graduated: String,
}

/// The mathematical content of a [`Preparation`].
pub ghost struct PreparationView {
    pub stage: Stage,
    pub request: VersionRequestView,
    pub date: Seq<char>,
    pub is_dry_run: bool,
    pub manifest: Seq<char>,
    pub target: (nat, nat, nat),
    pub updated_manifest: Seq<char>,
    pub graduated: Seq<char>,
}

impl View for Preparation {
    type V = PreparationView;

    closed spec fn view(&self) -> PreparationView {
        PreparationView {
            stage: self.stage,
            request: self.request@,
            date: self.date@,
            is_dry_run: self.is_dry_run,
            manifest: self.manifest@,
            target: self.target@,
            updated_manifest: self.updated_manifest@,
            graduated: self.graduated@,
        }
    }
}

/// The texts of literal arguments.
pub open spec fn args(items: Seq<&str>) -> Seq<Seq<char>> {
    str_texts(items)
}

/// The commit message of a release.
pub open spec fn commit_message(v: (nat, nat, nat)) -> Seq<char> {
    "release(v"@ + version_text(v) + "): bump isochron to "@ + version_text(v) + " and graduate the changelog"@
}

/// The pull request title of a release.
pub open spec fn pull_request_title(v: (nat, nat, nat)) -> Seq<char> {
    "release(v"@ + version_text(v) + "): bump isochron and graduate the changelog"@
}

/// A finished workflow.
pub open spec fn finished(s: PreparationView, outcome: Result<(nat, nat, nat), XtaskErrorView>) -> (PreparationView, ActionView) {
    (PreparationView { stage: Stage::Done, ..s }, ActionView::Finish(outcome))
}

/// A workflow moving to `stage` with `action`.
pub open spec fn moved(s: PreparationView, stage: Stage, action: ActionView) -> (PreparationView, ActionView) {
    (PreparationView { stage, ..s }, action)
}

/// A command with its arguments.
pub open spec fn command(program: Seq<char>, arguments: Seq<Seq<char>>) -> ActionView {
    ActionView::Run { program, arguments }
}

/// The next state and action of the release preparation after `event`.
/// Every command, read and write is reported back by the caller; a failed
/// one ends the workflow with its own error.
pub open spec fn preparation_step(s: PreparationView, event: EventView) -> (PreparationView, ActionView) {
    let text = event_text(event);
    match s.stage {
        Stage::Branch => if trim(text) != "main"@ {
            finished(s, Err(XtaskErrorView::NotOnMain { branch: trim(text) }))
        } else {
            moved(s, Stage::Status, command("git"@, seq!["status"@, "--porcelain"@]))
        },
        Stage::Status => if trim(text).len() != 0 {
            finished(s, Err(XtaskErrorView::DirtyWorkingTree))
        } else {
            moved(s, Stage::Pull, command("git"@, seq!["pull"@, "--ff-only"@, "origin"@, "main"@]))
        },
        Stage::Pull => moved(s, Stage::Manifest, ActionView::Read { file: "Cargo.toml"@ }),
        Stage::Manifest => (
            PreparationView { stage: Stage::Changelog, manifest: text, ..s },
            ActionView::Read { file: "CHANGELOG.md"@ },
        ),
        Stage::Changelog => match release_plan(s.manifest, text, s.request, s.date) {
            Err(e) => finished(s, Err(e)),
            Ok((target, updated, graduated)) => (
                PreparationView { stage: Stage::Checkout, target, updated_manifest: updated, graduated, ..s },
                command("git"@, seq!["checkout"@, "-b"@, branch_text(target)]),
            ),
        },
        Stage::Checkout => moved(s, Stage::WriteManifest, ActionView::Write { file: "Cargo.toml"@, contents: s.updated_manifest }),
        Stage::WriteManifest => moved(s, Stage::WriteChangelog, ActionView::Write { file: "CHANGELOG.md"@, contents: s.graduated }),
        Stage::WriteChangelog => moved(s, Stage::Add, command("git"@, seq!["add"@, "CHANGELOG.md"@, "Cargo.toml"@])),
        Stage::Add => moved(s, Stage::Commit, command("git"@, seq!["commit"@, "-m"@, commit_message(s.target)])),
        Stage::Commit => moved(s, Stage::Format, command("cargo"@, seq!["fmt"@, "--all"@, "--check"@])),
        Stage::Format => moved(s, Stage::Lint, command("cargo"@, seq!["clippy"@, "--workspace"@, "--all-targets"@, "--all-features"@, "--"@, "-D"@, "warnings"@])),
        Stage::Lint => moved(s, Stage::Test, command("cargo"@, seq!["test"@, "--workspace"@, "--all-features"@])),
        Stage::Test => moved(s, Stage::ApiManifest, ActionView::Read { file: "Cargo.toml"@ }),
        Stage::ApiManifest => match manifest_next_release(text) {
            Err(e) => finished(s, Err(e)),
            Ok(declared) => moved(s, Stage::ApiCheck, command("cargo"@, semver_arguments(declared))),
        },
        Stage::ApiCheck => if s.is_dry_run {
            finished(s, Ok(s.target))
        } else {
            moved(s, Stage::Push, command("git"@, seq!["push"@, "-u"@, "origin"@, branch_text(s.target)]))
        },
        Stage::Push => moved(s, Stage::PullRequest, command("gh"@, seq![
            "pr"@, "create"@, "--base"@, "main"@, "--head"@, branch_text(s.target), "--title"@,
            pull_request_title(s.target), "--body"@, pull_request_body(s.target),
        ])),
        Stage::PullRequest => finished(s, Ok(s.target)),
        Stage::Done => finished(s, Ok(s.target)),
    }
}

/// The state in which a preparation starts.
pub open spec fn preparation_start(request: VersionRequestView, date: Seq<char>, is_dry_run: bool, s: PreparationView) -> bool {
    s.stage == Stage::Branch && s.request == request && s.date == date && s.is_dry_run == is_dry_run
}

impl Preparation {
    /// Starts a release preparation: the first action asks for the current
    /// branch.
    pub fn start(request: VersionRequest, date: &str, is_dry_run: bool) -> (r: (Preparation, Action))
        ensures
            preparation_start(request@, date@, is_dry_run, r.0@),
            r.1@ == command("git"@, seq!["rev-parse"@, "--abbrev-ref"@, "HEAD"@]),
    {
        let state = Preparation {
            stage: Stage::Branch,
            request,
            date: date.to_owned(),
            is_dry_run,
            manifest: String::new(),
            target: Version::new(0, 0, 0),
            updated_manifest: String::new(),
            graduated: String::new(),
        };
        let action = run("git", &["rev-parse", "--abbrev-ref", "HEAD"]);
        assert(action@ == command("git"@, seq!["rev-parse"@, "--abbrev-ref"@, "HEAD"@])) by {
            assert(["rev-parse", "--abbrev-ref", "HEAD"]@.map_values(|s: &str| s@) =~= seq!["rev-parse"@, "--abbrev-ref"@, "HEAD"@]);
        }
        (state, action)
    }

    /// Whether the workflow is over.
    pub fn is_done(&self) -> (b: bool)
        ensures
            b == (self@.stage == Stage::Done),
    {
        self.stage == Stage::Done
    }

    fn finish(self, outcome: Result<Version, XtaskError>) -> (r: (Preparation, Action))
        ensures
            r == (Preparation { stage: Stage::Done, ..self }, Action::Finish(outcome)),
    {
        (Preparation { stage: Stage::Done, ..self }, Action::Finish(outcome))
    }

    /// The next state and action after `event`, the report of the previous
    /// action.
    #[verifier::rlimit(100)]
    pub fn step(self, event: Event) -> (r: (Preparation, Action))
        ensures
            (r.0@, r.1@) == preparation_step(self@, event@),
    {
        let text = event.text();
        let target = self.target;
        match self.stage {
            Stage::Branch => {
                let chars = chars_of(text.as_str());
                let branch = chars_trim(chars.as_slice());
                if !crate::text::chars_eq_str(branch.as_slice(), "main") {
                    let b = string_from_chars(branch.as_slice());
                    self.finish(Err(XtaskError::NotOnMain { branch: b }))
                } else {
                    let a = run("git", &["status", "--porcelain"]);
                    proof { assert(["status", "--porcelain"]@.map_values(|s: &str| s@) =~= seq!["status"@, "--porcelain"@]); }
                    (Preparation { stage: Stage::Status, ..self }, a)
                }
            },
            Stage::Status => {
                let chars = chars_of(text.as_str());
                let status = chars_trim(chars.as_slice());
                if status.len() != 0 {
                    self.finish(Err(XtaskError::DirtyWorkingTree))
                } else {
                    let a = run("git", &["pull", "--ff-only", "origin", "main"]);
                    proof { assert(["pull", "--ff-only", "origin", "main"]@.map_values(|s: &str| s@) =~= seq!["pull"@, "--ff-only"@, "origin"@, "main"@]); }
                    (Preparation { stage: Stage::Pull, ..self }, a)
                }
            },
            Stage::Pull => (Preparation { stage: Stage::Manifest, ..self }, Action::Read { file: "Cargo.toml".to_owned() }),
            Stage::Manifest => (
                Preparation { stage: Stage::Changelog, manifest: text, ..self },
                Action::Read { file: "CHANGELOG.md".to_owned() },
            ),
            Stage::Changelog => {
                match plan(self.manifest.as_str(), text.as_str(), self.request, self.date.as_str()) {
                    Err(e) => self.finish(Err(e)),
                    Ok((target, updated, graduated)) => {
                        let branch = branch_name(&target);
                        let arguments = vec!["checkout".to_owned(), "-b".to_owned(), branch];
                        proof { assert(string_texts(arguments@) =~= seq!["checkout"@, "-b"@, branch_text(target@)]); }
                        (
                            Preparation { stage: Stage::Checkout, target, updated_manifest: updated, graduated, ..self },
                            Action::Run { program: "git".to_owned(), arguments },
                        )
                    },
                }
            },
            Stage::Checkout => {
                let contents = self.updated_manifest.clone();
                (Preparation { stage: Stage::WriteManifest, ..self }, Action::Write { file: "Cargo.toml".to_owned(), contents })
            },
            Stage::WriteManifest => {
                let contents = self.graduated.clone();
                (Preparation { stage: Stage::WriteChangelog, ..self }, Action::Write { file: "CHANGELOG.md".to_owned(), contents })
            },
            Stage::WriteChangelog => {
                let a = run("git", &["add", "CHANGELOG.md", "Cargo.toml"]);
                proof { assert(["add", "CHANGELOG.md", "Cargo.toml"]@.map_values(|s: &str| s@) =~= seq!["add"@, "CHANGELOG.md"@, "Cargo.toml"@]); }
                (Preparation { stage: Stage::Add, ..self }, a)
            },
            Stage::Add => {
                let t = target.text();
                let mut message = chars_of("release(v");
                push_all(&mut message, t.as_slice());
                push_str(&mut message, "): bump isochron to ");
                push_all(&mut message, t.as_slice());
                push_str(&mut message, " and graduate the changelog");
                let arguments = vec!["commit".to_owned(), "-m".to_owned(), string_from_chars(message.as_slice())];
                proof { assert(string_texts(arguments@) =~= seq!["commit"@, "-m"@, commit_message(target@)]); }
                (Preparation { stage: Stage::Commit, ..self }, Action::Run { program: "git".to_owned(), arguments })
            },
            Stage::Commit => {
                let a = run("cargo", &["fmt", "--all", "--check"]);
                proof { assert(["fmt", "--all", "--check"]@.map_values(|s: &str| s@) =~= seq!["fmt"@, "--all"@, "--check"@]); }
                (Preparation { stage: Stage::Format, ..self }, a)
            },
            Stage::Format => {
                let a = run("cargo", &["clippy", "--workspace", "--all-targets", "--all-features", "--", "-D", "warnings"]);
                proof {
                    assert(["clippy", "--workspace", "--all-targets", "--all-features", "--", "-D", "warnings"]@.map_values(|s: &str| s@)
                        =~= seq!["clippy"@, "--workspace"@, "--all-targets"@, "--all-features"@, "--"@, "-D"@, "warnings"@]);
                }
                (Preparation { stage: Stage::Lint, ..self }, a)
            },
            Stage::Lint => {
                let a = run("cargo", &["test", "--workspace", "--all-features"]);
                proof { assert(["test", "--workspace", "--all-features"]@.map_values(|s: &str| s@) =~= seq!["test"@, "--workspace"@, "--all-features"@]); }
                (Preparation { stage: Stage::Test, ..self }, a)
            },
            Stage::Test => (Preparation { stage: Stage::ApiManifest, ..self }, Action::Read { file: "Cargo.toml".to_owned() }),
            Stage::ApiManifest => {
                match declared_next_release(text.as_str()) {
                    Err(e) => self.finish(Err(e)),
                    Ok(declared) => {
                        let arguments = semver_checks_arguments(declared);
                        let a = run("cargo", arguments.as_slice());
                        (Preparation { stage: Stage::ApiCheck, ..self }, a)
                    },
                }
            },
            Stage::ApiCheck => {
                if self.is_dry_run {
                    self.finish(Ok(target))
                } else {
                    let arguments = vec!["push".to_owned(), "-u".to_owned(), "origin".to_owned(), branch_name(&target)];
                    proof { assert(string_texts(arguments@) =~= seq!["push"@, "-u"@, "origin"@, branch_text(target@)]); }
                    (Preparation { stage: Stage::Push, ..self }, Action::Run { program: "git".to_owned(), arguments })
                }
            },
            Stage::Push => {
                let t = target.text();
                let mut title = chars_of("release(v");
                push_all(&mut title, t.as_slice());
                push_str(&mut title, "): bump isochron and graduate the changelog");
                let arguments = vec![
                    "pr".to_owned(), "create".to_owned(), "--base".to_owned(), "main".to_owned(), "--head".to_owned(),
                    branch_name(&target), "--title".to_owned(), string_from_chars(title.as_slice()), "--body".to_owned(),
                    release_pull_request_body(&target),
                ];
                proof {
                    assert(string_texts(arguments@) =~= seq![
                        "pr"@, "create"@, "--base"@, "main"@, "--head"@, branch_text(target@), "--title"@,
                        pull_request_title(target@), "--body"@, pull_request_body(target@),
                    ]);
                }
                (Preparation { stage: Stage::PullRequest, ..self }, Action::Run { program: "gh".to_owned(), arguments })
            },
            Stage::PullRequest => self.finish(Ok(target)),
            Stage::Done => self.finish(Ok(target)),
        }
    }
}

} // verus!
