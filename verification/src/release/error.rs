//! The error type shared by the release tooling.
use vstd::prelude::*;

use crate::text::push_str;

verus! {

/// Every way a release task can fail on its own terms. Input and output
/// failures belong to the caller that performs them.
#[derive(Debug, Clone, PartialEq, Eq)]
pub enum XtaskError {
    /// The changelog has no `## [Unreleased]` heading.
    MissingUnreleasedSection,
    /// A heading mentions "unreleased" but not in the exact expected form.
    MalformedUnreleasedHeading {
        /// The `line` of the failure, verbatim.
        line: String,
    },
    /// The `## [Unreleased]` section has no bullet line.
    EmptyUnreleasedSection,
    /// The target version already has a released heading in the changelog.
    VersionAlreadyReleased {
        /// The `version` of the failure, verbatim.
        version: String,
    },
    /// The changelog has no `[Unreleased]: ` link reference definition.
    MissingUnreleasedLink,
    /// The requested version section is absent from the changelog.
    SectionNotFound {
        /// The `version` of the failure, verbatim.
        version: String,
    },
    /// The requested version section has no body once trimmed.
    EmptySection {
        /// The `version` of the failure, verbatim.
        version: String,
    },
    /// A version string does not parse as a strict `SemVer` core `x.y.z`.
    InvalidVersion {
        /// The `input` of the failure, verbatim.
        input: String,
    },
    /// The requested version is not strictly greater than the current one.
    VersionNotGreater {
        /// The `current` of the failure, verbatim.
        current: String,
        /// The `target` of the failure, verbatim.
        target: String,
    },
    /// The manifest has no `version` key under `[package]`.
    ManifestVersionNotFound,
    /// The manifest has no `next-release` key under `[package.metadata.isochron]`.
    NextReleaseNotFound,
    /// The `next-release` declaration is not `patch`, `minor` or `major`.
    InvalidNextRelease {
        /// The `value` of the failure, verbatim.
        value: String,
    },
    /// The requested release bumps less than the declared next release.
    BumpBelowDeclaredRelease {
        /// The `declared` of the failure, verbatim.
        declared: String,
        /// The `requested` of the failure, verbatim.
        requested: String,
    },
    /// The current branch is not `main`.
    NotOnMain {
        /// The `branch` of the failure, verbatim.
        branch: String,
    },
    /// The working tree has uncommitted changes.
    DirtyWorkingTree,
    /// An external command exited with a non success status.
    CommandFailed {
        /// The `program` of the failure, verbatim.
        program: String,
        /// The `status` of the failure, verbatim.
        status: String,
    },
    /// A release tag is not of the form `vX.Y.Z`.
    InvalidReleaseTag {
        /// The `tag` of the failure, verbatim.
        tag: String,
    },
    /// The tag version and the packaged version disagree.
    TagVersionMismatch {
        /// The `tag_version` of the failure, verbatim.
        tag_version: String,
        /// The `package_version` of the failure, verbatim.
        package_version: String,
    },
    /// The output of `cargo pkgid` carries no readable version.
    UnreadablePackageId {
        /// The `output` of the failure, verbatim.
        output: String,
    },
    /// The tag does not resolve to the commit that is checked out.
    TagNotCheckedOut {
        /// The `tag_commit` of the failure, verbatim.
        tag_commit: String,
        /// The `head_commit` of the failure, verbatim.
        head_commit: String,
    },
    /// The tagged commit is not on the first-parent line of `origin/main`.
    CommitNotOnMainLine {
        /// The `commit` of the failure, verbatim.
        commit: String,
    },
    /// The command line arguments could not be interpreted.
    Usage(String),
}

/// The mathematical content of an [`XtaskError`].
pub ghost enum XtaskErrorView {
    MissingUnreleasedSection,
    MalformedUnreleasedHeading { line: Seq<char> },
    EmptyUnreleasedSection,
    VersionAlreadyReleased { version: Seq<char> },
    MissingUnreleasedLink,
    SectionNotFound { version: Seq<char> },
    EmptySection { version: Seq<char> },
    InvalidVersion { input: Seq<char> },
    VersionNotGreater { current: Seq<char>, target: Seq<char> },
    ManifestVersionNotFound,
    NextReleaseNotFound,
    InvalidNextRelease { value: Seq<char> },
    BumpBelowDeclaredRelease { declared: Seq<char>, requested: Seq<char> },
    NotOnMain { branch: Seq<char> },
    DirtyWorkingTree,
    CommandFailed { program: Seq<char>, status: Seq<char> },
    InvalidReleaseTag { tag: Seq<char> },
    TagVersionMismatch { tag_version: Seq<char>, package_version: Seq<char> },
    UnreadablePackageId { output: Seq<char> },
    TagNotCheckedOut { tag_commit: Seq<char>, head_commit: Seq<char> },
    CommitNotOnMainLine { commit: Seq<char> },
    Usage(Seq<char>),
}

impl View for XtaskError {
    type V = XtaskErrorView;

    open spec fn view(&self) -> XtaskErrorView {
        match self {
            XtaskError::MissingUnreleasedSection => XtaskErrorView::MissingUnreleasedSection,
            XtaskError::MalformedUnreleasedHeading { line } => XtaskErrorView::MalformedUnreleasedHeading { line: line@ },
            XtaskError::EmptyUnreleasedSection => XtaskErrorView::EmptyUnreleasedSection,
            XtaskError::VersionAlreadyReleased { version } => XtaskErrorView::VersionAlreadyReleased { version: version@ },
            XtaskError::MissingUnreleasedLink => XtaskErrorView::MissingUnreleasedLink,
            XtaskError::SectionNotFound { version } => XtaskErrorView::SectionNotFound { version: version@ },
            XtaskError::EmptySection { version } => XtaskErrorView::EmptySection { version: version@ },
            XtaskError::InvalidVersion { input } => XtaskErrorView::InvalidVersion { input: input@ },
            XtaskError::VersionNotGreater { current, target } => XtaskErrorView::VersionNotGreater { current: current@, target: target@ },
            XtaskError::ManifestVersionNotFound => XtaskErrorView::ManifestVersionNotFound,
            XtaskError::NextReleaseNotFound => XtaskErrorView::NextReleaseNotFound,
            XtaskError::InvalidNextRelease { value } => XtaskErrorView::InvalidNextRelease { value: value@ },
            XtaskError::BumpBelowDeclaredRelease { declared, requested } => XtaskErrorView::BumpBelowDeclaredRelease { declared: declared@, requested: requested@ },
            XtaskError::NotOnMain { branch } => XtaskErrorView::NotOnMain { branch: branch@ },
            XtaskError::DirtyWorkingTree => XtaskErrorView::DirtyWorkingTree,
            XtaskError::CommandFailed { program, status } => XtaskErrorView::CommandFailed { program: program@, status: status@ },
            XtaskError::InvalidReleaseTag { tag } => XtaskErrorView::InvalidReleaseTag { tag: tag@ },
            XtaskError::TagVersionMismatch { tag_version, package_version } => XtaskErrorView::TagVersionMismatch { tag_version: tag_version@, package_version: package_version@ },
            XtaskError::UnreadablePackageId { output } => XtaskErrorView::UnreadablePackageId { output: output@ },
            XtaskError::TagNotCheckedOut { tag_commit, head_commit } => XtaskErrorView::TagNotCheckedOut { tag_commit: tag_commit@, head_commit: head_commit@ },
            XtaskError::CommitNotOnMainLine { commit } => XtaskErrorView::CommitNotOnMainLine { commit: commit@ },
            XtaskError::Usage(message) => XtaskErrorView::Usage(message@),
        }
    }
}

/// The message that describes an error to the person running the task.
pub open spec fn message(e: XtaskErrorView) -> Seq<char> {
    match e {
        XtaskErrorView::MissingUnreleasedSection => "CHANGELOG.md has no `## [Unreleased]` heading; add one above the latest release"@,
        XtaskErrorView::MalformedUnreleasedHeading { line } => "CHANGELOG.md has a heading that looks like the unreleased section but is not exactly `## [Unreleased]`: `"@ + line + "`; rename it to `## [Unreleased]`"@,
        XtaskErrorView::EmptyUnreleasedSection => "The `## [Unreleased]` section in CHANGELOG.md has no content; add at least one bullet before preparing a release"@,
        XtaskErrorView::VersionAlreadyReleased { version } => "Version `"@ + version + "` already has a released section in CHANGELOG.md; choose a different version"@,
        XtaskErrorView::MissingUnreleasedLink => "CHANGELOG.md has no `[Unreleased]: ` link reference definition; add one so the compare link can be updated"@,
        XtaskErrorView::SectionNotFound { version } => "CHANGELOG.md has no `## ["@ + version + "]` section; check the version number"@,
        XtaskErrorView::EmptySection { version } => "The `## ["@ + version + "]` section in CHANGELOG.md has no content"@,
        XtaskErrorView::InvalidVersion { input } => "`"@ + input + "` is not a valid version; expected a strict SemVer core `x.y.z` with no leading zeros, prerelease or build metadata"@,
        XtaskErrorView::VersionNotGreater { current, target } => "Requested version `"@ + target + "` is not strictly greater than the current version `"@ + current + "`; choose a higher version"@,
        XtaskErrorView::ManifestVersionNotFound => "Cargo.toml has no `version` key under `[package]`; add one before running this command"@,
        XtaskErrorView::NextReleaseNotFound => "Cargo.toml has no `next-release` key under `[package.metadata.isochron]`; declare `patch`, `minor` or `major` before running this command"@,
        XtaskErrorView::InvalidNextRelease { value } => "`"@ + value + "` is not a valid `next-release` declaration in Cargo.toml; expected `patch`, `minor` or `major`"@,
        XtaskErrorView::BumpBelowDeclaredRelease { declared, requested } => "The requested version is a `"@ + requested + "` release but Cargo.toml declares a `"@ + declared + "` release; request at least a `"@ + declared + "` release"@,
        XtaskErrorView::NotOnMain { branch } => "Must be on branch `main` to prepare a release, but the current branch is `"@ + branch + "`; switch to `main` first"@,
        XtaskErrorView::DirtyWorkingTree => "The working tree has uncommitted changes; commit or stash them before preparing a release"@,
        XtaskErrorView::CommandFailed { program, status } => "Command `"@ + program + "` failed with exit status "@ + status + "; check its output above for details"@,
        XtaskErrorView::InvalidReleaseTag { tag } => "Release tag `"@ + tag + "` is not of the form `vX.Y.Z` with no prerelease or build metadata; delete the tag and push a corrected one"@,
        XtaskErrorView::TagVersionMismatch { tag_version, package_version } => "Tag version `"@ + tag_version + "` does not match the packaged version `"@ + package_version + "`; the tag was pushed for a version this commit does not carry"@,
        XtaskErrorView::UnreadablePackageId { output } => "Could not read a version from the `cargo pkgid` output `"@ + output + "`"@,
        XtaskErrorView::TagNotCheckedOut { tag_commit, head_commit } => "The tag points at commit `"@ + tag_commit + "` but commit `"@ + head_commit + "` is checked out; release from the tagged commit only"@,
        XtaskErrorView::CommitNotOnMainLine { commit } => "Commit `"@ + commit + "` is not on the first-parent line of `origin/main`; only a commit that `main` itself points at may be released"@,
        XtaskErrorView::Usage(text) => text,
    }
}

impl XtaskError {
    /// The message that describes the error.
    pub fn to_string(&self) -> (s: String)
        ensures
            s@ == message(self@),
    {
        let mut out: Vec<char> = Vec::new();
        match self {
            XtaskError::MissingUnreleasedSection => {
                push_str(&mut out, "CHANGELOG.md has no `## [Unreleased]` heading; add one above the latest release");
            },
            XtaskError::MalformedUnreleasedHeading { line } => {
                push_str(&mut out, "CHANGELOG.md has a heading that looks like the unreleased section but is not exactly `## [Unreleased]`: `");
                push_str(&mut out, line.as_str());
                push_str(&mut out, "`; rename it to `## [Unreleased]`");
            },
            XtaskError::EmptyUnreleasedSection => {
                push_str(&mut out, "The `## [Unreleased]` section in CHANGELOG.md has no content; add at least one bullet before preparing a release");
            },
            XtaskError::VersionAlreadyReleased { version } => {
                push_str(&mut out, "Version `");
                push_str(&mut out, version.as_str());
                push_str(&mut out, "` already has a released section in CHANGELOG.md; choose a different version");
            },
            XtaskError::MissingUnreleasedLink => {
                push_str(&mut out, "CHANGELOG.md has no `[Unreleased]: ` link reference definition; add one so the compare link can be updated");
            },
            XtaskError::SectionNotFound { version } => {
                push_str(&mut out, "CHANGELOG.md has no `## [");
                push_str(&mut out, version.as_str());
                push_str(&mut out, "]` section; check the version number");
            },
            XtaskError::EmptySection { version } => {
                push_str(&mut out, "The `## [");
                push_str(&mut out, version.as_str());
                push_str(&mut out, "]` section in CHANGELOG.md has no content");
            },
            XtaskError::InvalidVersion { input } => {
                push_str(&mut out, "`");
                push_str(&mut out, input.as_str());
                push_str(&mut out, "` is not a valid version; expected a strict SemVer core `x.y.z` with no leading zeros, prerelease or build metadata");
            },
            XtaskError::VersionNotGreater { current, target } => {
                push_str(&mut out, "Requested version `");
                push_str(&mut out, target.as_str());
                push_str(&mut out, "` is not strictly greater than the current version `");
                push_str(&mut out, current.as_str());
                push_str(&mut out, "`; choose a higher version");
            },
            XtaskError::ManifestVersionNotFound => {
                push_str(&mut out, "Cargo.toml has no `version` key under `[package]`; add one before running this command");
            },
            XtaskError::NextReleaseNotFound => {
                push_str(&mut out, "Cargo.toml has no `next-release` key under `[package.metadata.isochron]`; declare `patch`, `minor` or `major` before running this command");
            },
            XtaskError::InvalidNextRelease { value } => {
                push_str(&mut out, "`");
                push_str(&mut out, value.as_str());
                push_str(&mut out, "` is not a valid `next-release` declaration in Cargo.toml; expected `patch`, `minor` or `major`");
            },
            XtaskError::BumpBelowDeclaredRelease { declared, requested } => {
                push_str(&mut out, "The requested version is a `");
                push_str(&mut out, requested.as_str());
                push_str(&mut out, "` release but Cargo.toml declares a `");
                push_str(&mut out, declared.as_str());
                push_str(&mut out, "` release; request at least a `");
                push_str(&mut out, declared.as_str());
                push_str(&mut out, "` release");
            },
            XtaskError::NotOnMain { branch } => {
                push_str(&mut out, "Must be on branch `main` to prepare a release, but the current branch is `");
                push_str(&mut out, branch.as_str());
                push_str(&mut out, "`; switch to `main` first");
            },
            XtaskError::DirtyWorkingTree => {
                push_str(&mut out, "The working tree has uncommitted changes; commit or stash them before preparing a release");
            },
            XtaskError::CommandFailed { program, status } => {
                push_str(&mut out, "Command `");
                push_str(&mut out, program.as_str());
                push_str(&mut out, "` failed with exit status ");
                push_str(&mut out, status.as_str());
                push_str(&mut out, "; check its output above for details");
            },
            XtaskError::InvalidReleaseTag { tag } => {
                push_str(&mut out, "Release tag `");
                push_str(&mut out, tag.as_str());
                push_str(&mut out, "` is not of the form `vX.Y.Z` with no prerelease or build metadata; delete the tag and push a corrected one");
            },
            XtaskError::TagVersionMismatch { tag_version, package_version } => {
                push_str(&mut out, "Tag version `");
                push_str(&mut out, tag_version.as_str());
                push_str(&mut out, "` does not match the packaged version `");
                push_str(&mut out, package_version.as_str());
                push_str(&mut out, "`; the tag was pushed for a version this commit does not carry");
            },
            XtaskError::UnreadablePackageId { output } => {
                push_str(&mut out, "Could not read a version from the `cargo pkgid` output `");
                push_str(&mut out, output.as_str());
                push_str(&mut out, "`");
            },
            XtaskError::TagNotCheckedOut { tag_commit, head_commit } => {
                push_str(&mut out, "The tag points at commit `");
                push_str(&mut out, tag_commit.as_str());
                push_str(&mut out, "` but commit `");
                push_str(&mut out, head_commit.as_str());
                push_str(&mut out, "` is checked out; release from the tagged commit only");
            },
            XtaskError::CommitNotOnMainLine { commit } => {
                push_str(&mut out, "Commit `");
                push_str(&mut out, commit.as_str());
                push_str(&mut out, "` is not on the first-parent line of `origin/main`; only a commit that `main` itself points at may be released");
            },
            XtaskError::Usage(text) => {
                push_str(&mut out, text.as_str());
            },
        }
        crate::text::string_from_chars(out.as_slice())
    }
}

} // verus!
