use isochron::release::changelog::{graduate, release_notes};
use isochron::release::error::XtaskError;
use isochron::release::version::Version;

/// The repository's own changelog.
const REPOSITORY_CHANGELOG: &str = r###"# Changelog

All notable changes to this project will be documented in this file.
The format is based on [Keep a Changelog](https://keepachangelog.com/en/1.1.0/),
and this project adheres to [Semantic Versioning](https://semver.org/spec/v2.0.0.html).

## [Unreleased]

### Added

- A stability rule for the wording of `describe()`: unchanged within a minor release line, documented in the rustdoc and in `docs/SEMVER_POLICY.md`. (#43)

### Changed

- Raise the MSRV from Rust 1.88 to 1.89 for the August 2026 fleet baseline and prefer MSRV-compatible dependency versions during Cargo updates.
- Release tooling moved from a shell script and cargo-release to a dependency-free `cargo xtask` (`release-prep`, `release-notes`).

### Fixed

- `CronSchedule::is_match` now returns `false` for instants with a non-zero nanosecond, consistent with `next_after` and `prev_before` which only yield whole-second occurrences. (#40)
- Day-of-week out-of-range errors now report the accepted upper bound `7` (the Sunday alias) instead of `6`. (#44)
- A day-of-week step starting from the Sunday alias, such as `7/2`, is now rejected with an explicit reason instead of a misleading range error. (#63)
- The README quick start now shows the actual `next_after` and `describe` results and runs as a doctest, so it can no longer drift. (#43)
- Release preparation no longer aborts on the current changelog format: graduation turns `[Unreleased]` into a dated version heading, reopens an empty `[Unreleased]` section, updates the compare links, and fails with an explicit message before creating a branch when the section is missing, malformed or empty. The preparation branch is now `chore/release-vX.Y.Z`. (#29)
- Release notes are now extracted from the matching changelog section by exact heading comparison, and a missing section fails the release instead of publishing placeholder notes. (#42)

### Security

- A release tag is now verified before anything can reach crates.io: the tag must read `vX.Y.Z`, match the packaged version, carry a non-empty changelog section, point at the commit being built, and sit on the first-parent line of `origin/main`. Publication moved to a protected environment that requires a maintainer approval and mints a short lived crates.io token through trusted publishing, so no long lived registry token is used. The manual dispatch of the release workflow can no longer publish. (#39)

## [0.1.1] - 2026-06-18

### Changed

- Stricter field parsing: a leading `+` sign (`+5`) or zero-padded numbers (`007`, `00`) are now rejected as non-canonical, in both values and `/N` step tokens, matching standard Vixie cron. The single digit `0` stays valid.
- The `Upcoming` iterator type is now `#[must_use]`, so binding it without consuming the iterator is linted.

## [0.1.0] - 2026-06-15

### Added

- Parse Vixie-standard cron expressions (five or six fields, macros).
- Compute next and previous occurrences in strict UTC with a bounded horizon.
- Planning helpers: `upcoming` iterator and `time_until_next`.
- English `describe` of a schedule.
- Value equality and hashing ignore source spelling: equivalent schedules (for example `0` and `7`, or `MON` and `1`) now compare equal.
- `describe` collapses full fields instead of enumerating them and renders six-field expressions with clearer phrasing.

[Unreleased]: https://github.com/nubster-opensources/isochron/compare/v0.1.1...HEAD
[0.1.1]: https://github.com/nubster-opensources/isochron/compare/v0.1.0...v0.1.1
[0.1.0]: https://github.com/nubster-opensources/isochron/releases/tag/v0.1.0
"###;

const FIXTURE_CHANGELOG: &str = r"## [Unreleased]

### Added

- Add new thing. (#1)

### Fixed

- Fix a bug. (#2)

## [0.1.1] - 2026-06-18

### Changed

- Something changed.

[Unreleased]: https://github.com/nubster-opensources/isochron/compare/v0.1.1...HEAD
[0.1.1]: https://github.com/nubster-opensources/isochron/compare/v0.1.0...v0.1.1
[0.1.0]: https://github.com/nubster-opensources/isochron/releases/tag/v0.1.0
";

#[test]
fn graduates_the_unreleased_section_exactly() {
    let expected = r"## [Unreleased]

## [0.1.2] - 2026-09-15

### Added

- Add new thing. (#1)

### Fixed

- Fix a bug. (#2)

## [0.1.1] - 2026-06-18

### Changed

- Something changed.

[Unreleased]: https://github.com/nubster-opensources/isochron/compare/v0.1.2...HEAD
[0.1.2]: https://github.com/nubster-opensources/isochron/compare/v0.1.1...v0.1.2
[0.1.1]: https://github.com/nubster-opensources/isochron/compare/v0.1.0...v0.1.1
[0.1.0]: https://github.com/nubster-opensources/isochron/releases/tag/v0.1.0
";

    let graduated = graduate(FIXTURE_CHANGELOG, &Version::new(0, 1, 2), "2026-09-15").unwrap();
    assert_eq!(graduated, expected);
}

#[test]
fn graduated_heading_carries_the_date_exactly_once() {
    let graduated = graduate(FIXTURE_CHANGELOG, &Version::new(0, 1, 2), "2026-09-15").unwrap();
    let occurrences = graduated.matches("## [0.1.2] - 2026-09-15").count();
    assert_eq!(occurrences, 1);
    assert!(!graduated.contains("## [0.1.2]\n"));
    assert!(!graduated.to_lowercase().contains("(unreleased)"));
}

#[test]
fn missing_unreleased_section_is_reported() {
    let changelog = r"## [0.1.1] - 2026-06-18

### Changed

- Something changed.

[0.1.1]: https://github.com/nubster-opensources/isochron/releases/tag/v0.1.1
";
    let error = graduate(changelog, &Version::new(0, 1, 2), "2026-09-15").unwrap_err();
    assert!(matches!(error, XtaskError::MissingUnreleasedSection));
}

#[test]
fn malformed_unreleased_heading_without_brackets_is_reported() {
    let changelog = r"## Unreleased

- Something pending.

[Unreleased]: https://github.com/nubster-opensources/isochron/compare/v0.1.1...HEAD
";
    let error = graduate(changelog, &Version::new(0, 1, 2), "2026-09-15").unwrap_err();
    assert!(matches!(
        error,
        XtaskError::MalformedUnreleasedHeading { line } if line == "## Unreleased"
    ));
}

#[test]
fn malformed_unreleased_heading_takes_priority_over_missing_section() {
    let changelog = r"## [unreleased]

- Something pending.

[Unreleased]: https://github.com/nubster-opensources/isochron/compare/v0.1.1...HEAD
";
    let error = graduate(changelog, &Version::new(0, 1, 2), "2026-09-15").unwrap_err();
    assert!(matches!(
        error,
        XtaskError::MalformedUnreleasedHeading { .. }
    ));
}

#[test]
fn malformed_unreleased_heading_embedded_in_version_heading_is_reported() {
    let changelog = r"## 0.1.2 (unreleased)

- Something pending.

[Unreleased]: https://github.com/nubster-opensources/isochron/compare/v0.1.1...HEAD
";
    let error = graduate(changelog, &Version::new(0, 1, 2), "2026-09-15").unwrap_err();
    assert!(matches!(
        error,
        XtaskError::MalformedUnreleasedHeading { .. }
    ));
}

#[test]
fn empty_unreleased_section_is_reported() {
    let changelog = r"## [Unreleased]

## [0.1.1] - 2026-06-18

### Changed

- Something changed.

[Unreleased]: https://github.com/nubster-opensources/isochron/compare/v0.1.1...HEAD
[0.1.1]: https://github.com/nubster-opensources/isochron/releases/tag/v0.1.1
";
    let error = graduate(changelog, &Version::new(0, 1, 2), "2026-09-15").unwrap_err();
    assert!(matches!(error, XtaskError::EmptyUnreleasedSection));
}

#[test]
fn unreleased_section_with_only_empty_subheadings_is_reported() {
    let changelog = r"## [Unreleased]

### Added

### Fixed

## [0.1.1] - 2026-06-18

### Changed

- Something changed.

[Unreleased]: https://github.com/nubster-opensources/isochron/compare/v0.1.1...HEAD
[0.1.1]: https://github.com/nubster-opensources/isochron/releases/tag/v0.1.1
";
    let error = graduate(changelog, &Version::new(0, 1, 2), "2026-09-15").unwrap_err();
    assert!(matches!(error, XtaskError::EmptyUnreleasedSection));
}

#[test]
fn version_already_released_is_reported() {
    let changelog = r"## [Unreleased]

- Pending change.

## [0.1.2] - 2026-08-01

### Added

- Already released.

[Unreleased]: https://github.com/nubster-opensources/isochron/compare/v0.1.2...HEAD
[0.1.2]: https://github.com/nubster-opensources/isochron/releases/tag/v0.1.2
";
    let error = graduate(changelog, &Version::new(0, 1, 2), "2026-09-15").unwrap_err();
    assert!(matches!(
        error,
        XtaskError::VersionAlreadyReleased { version } if version == "0.1.2"
    ));
}

#[test]
fn missing_unreleased_link_is_reported() {
    let changelog = r"## [Unreleased]

- Pending change.

## [0.1.1] - 2026-06-18

### Changed

- Something changed.

[0.1.1]: https://github.com/nubster-opensources/isochron/releases/tag/v0.1.1
";
    let error = graduate(changelog, &Version::new(0, 1, 2), "2026-09-15").unwrap_err();
    assert!(matches!(error, XtaskError::MissingUnreleasedLink));
}

#[test]
fn extracts_body_between_adjacent_headings() {
    let changelog = r"## [Unreleased]

- Nothing yet.

## [0.2.0] - 2026-08-01

### Added

- Feature two.

## [0.1.0] - 2026-07-01

### Added

- Feature one.

[Unreleased]: https://github.com/nubster-opensources/isochron/compare/v0.2.0...HEAD
[0.2.0]: https://github.com/nubster-opensources/isochron/compare/v0.1.0...v0.2.0
[0.1.0]: https://github.com/nubster-opensources/isochron/releases/tag/v0.1.0
";
    let notes = release_notes(changelog, "0.2.0").unwrap();
    assert_eq!(notes, "### Added\n\n- Feature two.");
}

#[test]
fn does_not_match_versions_sharing_a_prefix() {
    let changelog = r"## [0.1.10] - 2026-09-01

### Added

- Ten body.

## [0.1.1-rc.1] - 2026-08-15

### Added

- Release candidate body.

## [0.1.1] - 2026-06-18

### Changed

- Stricter field parsing text.

[0.1.10]: https://github.com/nubster-opensources/isochron/releases/tag/v0.1.10
[0.1.1-rc.1]: https://github.com/nubster-opensources/isochron/releases/tag/v0.1.1-rc.1
[0.1.1]: https://github.com/nubster-opensources/isochron/releases/tag/v0.1.1
";
    let notes = release_notes(changelog, "0.1.1").unwrap();
    assert_eq!(notes, "### Changed\n\n- Stricter field parsing text.");
}

#[test]
fn oldest_section_stops_before_link_definitions() {
    let changelog = r"## [0.1.0] - 2026-06-15

### Added

- Initial release.

[0.1.0]: https://github.com/nubster-opensources/isochron/releases/tag/v0.1.0
";
    let notes = release_notes(changelog, "0.1.0").unwrap();
    assert_eq!(notes, "### Added\n\n- Initial release.");
}

#[test]
fn missing_version_is_reported() {
    let changelog = r"## [0.1.0] - 2026-06-15

### Added

- Initial release.

[0.1.0]: https://github.com/nubster-opensources/isochron/releases/tag/v0.1.0
";
    let error = release_notes(changelog, "0.9.0").unwrap_err();
    assert!(matches!(error, XtaskError::SectionNotFound { version } if version == "0.9.0"));
}

#[test]
fn empty_section_is_reported() {
    let changelog = r"## [0.1.2] - 2026-09-15

## [0.1.1] - 2026-06-18

### Changed

- Something changed.

[0.1.2]: https://github.com/nubster-opensources/isochron/releases/tag/v0.1.2
[0.1.1]: https://github.com/nubster-opensources/isochron/releases/tag/v0.1.1
";
    let error = release_notes(changelog, "0.1.2").unwrap_err();
    assert!(matches!(error, XtaskError::EmptySection { version } if version == "0.1.2"));
}

#[test]
fn real_changelog_release_notes_for_0_1_1_match_the_repository_file() {
    let real_changelog = REPOSITORY_CHANGELOG;
    let expected = "### Changed\n\n\
- Stricter field parsing: a leading `+` sign (`+5`) or zero-padded numbers (`007`, `00`) are now rejected as non-canonical, in both values and `/N` step tokens, matching standard Vixie cron. The single digit `0` stays valid.\n\
- The `Upcoming` iterator type is now `#[must_use]`, so binding it without consuming the iterator is linted.";
    assert_eq!(release_notes(real_changelog, "0.1.1").unwrap(), expected);
}

#[test]
fn release_notes_round_trips_the_graduated_unreleased_body() {
    let changelog = r"## [Unreleased]

### Added

- New feature bullet.

## [0.1.1] - 2026-06-18

### Changed

- Old change bullet.

[Unreleased]: https://github.com/nubster-opensources/isochron/compare/v0.1.1...HEAD
[0.1.1]: https://github.com/nubster-opensources/isochron/releases/tag/v0.1.1
";
    let graduated = graduate(changelog, &Version::new(0, 1, 2), "2026-09-15").unwrap();
    let notes = release_notes(&graduated, "0.1.2").unwrap();
    assert_eq!(notes, "### Added\n\n- New feature bullet.");
}


#[test]
fn graduation_keeps_the_other_sections_notes() {
    let graduated = graduate(REPOSITORY_CHANGELOG, &Version::new(0, 2, 0), "2026-09-01").expect("graduates");
    for other in ["0.1.1", "0.1.0", "9.9.9"] {
        assert_eq!(release_notes(&graduated, other), release_notes(REPOSITORY_CHANGELOG, other));
    }
    assert!(release_notes(&graduated, "0.1.1").is_ok());
    assert!(release_notes(&graduated, "9.9.9").is_err());
}

#[test]
fn graduation_opens_an_empty_unreleased_section_above_the_one_dated_heading() {
    let graduated = graduate(REPOSITORY_CHANGELOG, &Version::new(0, 2, 0), "2026-09-01").expect("graduates");
    let lines: Vec<&str> = graduated.split('\n').collect();
    let original: Vec<&str> = REPOSITORY_CHANGELOG.split('\n').collect();
    let h = original.iter().position(|l| *l == "## [Unreleased]").expect("heading");
    assert_eq!(lines[..h], original[..h]);
    assert_eq!(lines[h], "## [Unreleased]");
    assert_eq!(lines[h + 1], "");
    assert_eq!(lines[h + 2], "## [0.2.0] - 2026-09-01");
    let headings = lines.iter().filter(|l| l.starts_with("## [0.2.0]")).count();
    assert_eq!(headings, 1);
}
