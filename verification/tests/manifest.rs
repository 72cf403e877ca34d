use isochron::release::error::XtaskError;
use isochron::release::manifest::{
    declared_next_release, package_version, with_declared_next_release, with_package_version,
};
use isochron::release::version::{BumpLevel, Version};

const DECLARED_MINOR_MANIFEST: &str = "[package]
name = \"isochron\"
version = \"0.1.2\"

[package.metadata.docs.rs]
all-features = true

[package.metadata.isochron]
next-release = \"minor\"

[dependencies]
thiserror = \"2\"
";

const FIXTURE_MANIFEST: &str = "[package]\n\
name = \"isochron\"\n\
version = \"0.1.1\"\n\
edition = \"2024\"\n\
rust-version = \"1.89\"\n\
\n\
[dependencies]\n\
time = { version = \"0.3\", features = [\"macros\"] }\n\
\n\
[workspace]\n\
members = [\"xtask\"]\n";

/// The repository's own manifest, as the release tooling finds it.
const REPOSITORY_MANIFEST: &str = "[package]
name = \"isochron\"
version = \"0.1.1\"
edition = \"2024\"
rust-version = \"1.89\"
description = \"A pure, deterministic cron occurrence engine on time\"
license = \"MIT OR Apache-2.0\"
repository = \"https://github.com/nubster-opensources/isochron\"
readme = \"README.md\"
keywords = [\"cron\", \"schedule\", \"time\"]
categories = [\"date-and-time\"]

[package.metadata.docs.rs]
all-features = true

[package.metadata.isochron]
next-release = \"patch\"

[dependencies]
thiserror = \"2\"
time = { version = \"0.3\", features = [\"macros\"] }

[lints.rust]
unsafe_code = \"forbid\"

[workspace]
members = [\"xtask\"]
";

#[test]
fn reads_the_package_version() {
    assert_eq!(
        package_version(FIXTURE_MANIFEST).unwrap(),
        Version::new(0, 1, 1)
    );
}

#[test]
fn reports_missing_version_key() {
    let manifest = "[package]\nname = \"isochron\"\n";
    assert!(matches!(
        package_version(manifest),
        Err(XtaskError::ManifestVersionNotFound)
    ));
}

#[test]
fn reports_unparsable_version_value() {
    let manifest = "[package]\nname = \"isochron\"\nversion = \"not-a-version\"\n";
    assert!(matches!(
        package_version(manifest),
        Err(XtaskError::InvalidVersion { .. })
    ));
}

#[test]
fn replaces_only_the_package_version() {
    let updated = with_package_version(FIXTURE_MANIFEST, &Version::new(0, 2, 0)).unwrap();
    let expected = FIXTURE_MANIFEST.replace("version = \"0.1.1\"", "version = \"0.2.0\"");
    assert_eq!(updated, expected);
    assert_eq!(package_version(&updated).unwrap(), Version::new(0, 2, 0));
}

#[test]
fn real_manifest_version_round_trips() {
    let real_manifest = REPOSITORY_MANIFEST;
    let current = package_version(real_manifest).unwrap();
    let rewritten = with_package_version(real_manifest, &current).unwrap();
    assert_eq!(rewritten, real_manifest);
}

#[test]
fn reads_each_declared_next_release_level() {
    for (value, level) in [
        ("patch", BumpLevel::Patch),
        ("minor", BumpLevel::Minor),
        ("major", BumpLevel::Major),
    ] {
        let manifest = DECLARED_MINOR_MANIFEST.replace(
            "next-release = \"minor\"",
            &format!("next-release = \"{value}\""),
        );
        assert_eq!(declared_next_release(&manifest).unwrap(), level);
    }
}

#[test]
fn reports_a_manifest_without_the_isochron_metadata_table() {
    let manifest = "[package]
name = \"isochron\"
version = \"0.1.2\"
";
    assert!(matches!(
        declared_next_release(manifest),
        Err(XtaskError::NextReleaseNotFound)
    ));
}

#[test]
fn ignores_a_next_release_key_outside_the_isochron_metadata_table() {
    let manifest = "[package]
name = \"isochron\"
next-release = \"minor\"

[package.metadata.docs.rs]
next-release = \"minor\"
";
    assert!(matches!(
        declared_next_release(manifest),
        Err(XtaskError::NextReleaseNotFound)
    ));
}

#[test]
fn reports_an_unknown_next_release_value_verbatim() {
    let manifest =
        DECLARED_MINOR_MANIFEST.replace("next-release = \"minor\"", "next-release = \"Minor\"");
    assert!(matches!(
        declared_next_release(&manifest),
        Err(XtaskError::InvalidNextRelease { value }) if value == "Minor"
    ));
}

#[test]
fn replaces_only_the_next_release_declaration() {
    let updated =
        with_declared_next_release(DECLARED_MINOR_MANIFEST, BumpLevel::Patch).unwrap();
    let expected =
        DECLARED_MINOR_MANIFEST.replace("next-release = \"minor\"", "next-release = \"patch\"");
    assert_eq!(updated, expected);
    assert_eq!(declared_next_release(&updated).unwrap(), BumpLevel::Patch);
}

#[test]
fn reports_a_missing_declaration_when_rewriting() {
    let manifest = "[package]
name = \"isochron\"
version = \"0.1.2\"
";
    assert!(matches!(
        with_declared_next_release(manifest, BumpLevel::Patch),
        Err(XtaskError::NextReleaseNotFound)
    ));
}

#[test]
fn real_manifest_next_release_round_trips() {
    let real_manifest = REPOSITORY_MANIFEST;
    let declared = declared_next_release(real_manifest).unwrap();
    let rewritten = with_declared_next_release(real_manifest, declared).unwrap();
    assert_eq!(rewritten, real_manifest);
}

#[test]
fn ignores_lookalike_keys_and_keeps_indentation() {
    let manifest = "[package]\nrust-version = \"1.89\"\n  version = \"1.2.3\" # pinned\r\n";
    assert_eq!(package_version(manifest).unwrap(), Version::new(1, 2, 3));
    let updated = with_package_version(manifest, &Version::new(1, 3, 0)).unwrap();
    assert_eq!(
        updated,
        "[package]\nrust-version = \"1.89\"\n  version = \"1.3.0\" # pinned\r\n"
    );
}

#[test]
fn a_version_outside_the_package_table_is_not_read() {
    let manifest = "[dependencies]\nversion = \"1.0.0\"\n";
    assert!(matches!(
        package_version(manifest),
        Err(XtaskError::ManifestVersionNotFound)
    ));
}
