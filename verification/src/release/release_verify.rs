//! Verifies that a release tag may be published, before any step that can
//! reach crates.io.
//!
//! Publication is irreversible: a version can be yanked, never deleted nor
//! reused. Every check therefore runs before the publishing job receives any
//! credential, and the first failure stops the sequence.
use vstd::prelude::*;

use crate::release::changelog::{notes_of, release_notes};
use crate::release::error::{XtaskError, XtaskErrorView};
use crate::release::version::{parse_version, version_text, Version};
use crate::release::workflow::{event_text, run, string_texts, Action, ActionView, Event, EventView};
use crate::text::{
    chars_eq, chars_of, chars_split, chars_starts_with_str, chars_trim, slice_chars, split_on,
    starts_with, string_from_chars, trim, views,
};

verus! {

/// The version a release tag claims: `v` followed by a strict `SemVer` core
/// `x.y.z`.
pub open spec fn tag_claim(tag: Seq<char>) -> Option<(nat, nat, nat)> {
    if tag.len() > 0 && tag[0] == 'v' {
        parse_version(tag.skip(1))
    } else {
        None
    }
}

/// Parses a release tag into the version it claims to publish.
///
/// The accepted shape is `v` followed by a strict `SemVer` core `x.y.z`, the
/// same grammar the release preparation uses. Prereleases and build metadata
/// are refused.
///
/// # Errors
///
/// [`XtaskError::InvalidReleaseTag`] carrying the tag verbatim.
pub fn tag_version(tag: &str) -> (r: Result<Version, XtaskError>)
    ensures
        match (r, tag_claim(tag@)) {
            (Ok(v), Some(w)) => v@ == w,
            (Err(e), None) => e@ == XtaskErrorView::InvalidReleaseTag { tag: tag@ },
            _ => false,
        },
{
    let chars = chars_of(tag);
    if chars.len() == 0 || chars[0] != 'v' {
        return Err(XtaskError::InvalidReleaseTag { tag: tag.to_owned() });
    }
    let rest = slice_chars(chars.as_slice(), 1, chars.len());
    assert(rest@ =~= tag@.skip(1));
    let text = string_from_chars(rest.as_slice());
    match Version::parse(text.as_str()) {
        Ok(v) => Ok(v),
        Err(_) => Err(XtaskError::InvalidReleaseTag { tag: tag.to_owned() }),
    }
}

/// The offset of the last `c` in `s`, if any.
pub open spec fn last_index_of(s: Seq<char>, c: char) -> Option<int> {
    if s.contains(c) {
        Some(choose|i: int| 0 <= i < s.len() && s[i] == c && forall|k: int| i < k < s.len() ==> s[k] != c)
    } else {
        None
    }
}

/// The version text in the output of `cargo pkgid`: what follows the last
/// `#` of the trimmed output, without a leading `isochron@`.
pub open spec fn pkgid_version_text(output: Seq<char>) -> Option<Seq<char>> {
    let t = trim(output);
    match last_index_of(t, '#') {
        None => None,
        Some(i) => {
            let fragment = t.skip(i + 1);
            if starts_with(fragment, "isochron@"@) {
                Some(fragment.skip(9))
            } else {
                Some(fragment)
            }
        },
    }
}

/// The package version that the output of `cargo pkgid` reports.
pub open spec fn pkgid_version(output: Seq<char>) -> Option<(nat, nat, nat)> {
    match pkgid_version_text(output) {
        Some(text) => parse_version(text),
        None => None,
    }
}

fn last_hash(s: &[char]) -> (r: Option<usize>)
    ensures
        r matches Some(i) ==> last_index_of(s@, '#') == Some(i as int) && i < s.len(),
        r is None ==> last_index_of(s@, '#') is None,
{
    let mut i: usize = s.len();
    while i > 0
        invariant
            i <= s.len(),
            forall|k: int| i <= k < s.len() ==> s@[k] != '#',
        decreases i,
    {
        if s[i - 1] == '#' {
            proof {
                let j = choose|j: int| 0 <= j < s@.len() && s@[j] == '#' && forall|k: int| j < k < s@.len() ==> s@[k] != '#';
                assert(j == i - 1) by {
                    if j < i - 1 { assert(s@[i - 1] == '#'); }
                }
            }
            return Some(i - 1);
        }
        i = i - 1;
    }
    assert(!s@.contains('#'));
    None
}

/// Reads the package version out of the output of `cargo pkgid`.
///
/// Cargo prints either `...#0.1.2`, when the directory is named after the
/// package, or `...#isochron@0.1.2` otherwise. Both forms are accepted.
///
/// # Errors
///
/// [`XtaskError::UnreadablePackageId`] carrying the output verbatim.
pub fn package_version_from_pkgid(pkgid_output: &str) -> (r: Result<Version, XtaskError>)
    ensures
        match (r, pkgid_version(pkgid_output@)) {
            (Ok(v), Some(w)) => v@ == w,
            (Err(e), None) => e@ == XtaskErrorView::UnreadablePackageId { output: pkgid_output@ },
            _ => false,
        },
{
    let chars = chars_of(pkgid_output);
    let t = chars_trim(chars.as_slice());
    let unreadable = XtaskError::UnreadablePackageId { output: pkgid_output.to_owned() };
    let hash = match last_hash(t.as_slice()) {
        Some(i) => i,
        None => {
            return Err(unreadable);
        },
    };
    let fragment = slice_chars(t.as_slice(), hash + 1, t.len());
    assert(fragment@ =~= t@.skip(hash + 1));
    proof {
        reveal_strlit("isochron@");
    }
    let text = if chars_starts_with_str(fragment.as_slice(), "isochron@") {
        let rest = slice_chars(fragment.as_slice(), 9, fragment.len());
        assert(rest@ =~= fragment@.skip(9));
        rest
    } else {
        fragment
    };
    let text = string_from_chars(text.as_slice());
    match Version::parse(text.as_str()) {
        Ok(v) => Ok(v),
        Err(_) => Err(unreadable),
    }
}

/// A line without one trailing carriage return (`str::lines`).
pub open spec fn without_cr(line: Seq<char>) -> Seq<char> {
    if line.len() > 0 && line.last() == '\r' { line.drop_last() } else { line }
}

/// Whether `commit` is a whole line of the listing, compared exactly.
pub open spec fn listed(commit: Seq<char>, listing: Seq<char>) -> bool {
    &&& commit.len() > 0
    &&& exists|i: int| 0 <= i < split_on(listing, '\n').len() && without_cr(#[trigger] split_on(listing, '\n')[i]) == commit
}

/// Whether `commit` appears as a whole line of a `git rev-list
/// --first-parent` listing.
///
/// The comparison is exact: an abbreviated identifier does not match a full
/// one, so that a short prefix is not enough to claim membership of the
/// released history.
pub fn is_on_first_parent_line(commit: &str, first_parent_listing: &str) -> (b: bool)
    ensures
        b == listed(commit@, first_parent_listing@),
{
    let c = chars_of(commit);
    if c.len() == 0 {
        return false;
    }
    let listing = chars_of(first_parent_listing);
    let lines = chars_split(listing.as_slice(), '\n');
    let ghost all = split_on(first_parent_listing@, '\n');
    let mut i: usize = 0;
    while i < lines.len()
        invariant
            i <= lines.len(),
            views(lines@) == all,
            all == split_on(first_parent_listing@, '\n'),
            c@ == commit@,
            c@.len() > 0,
            forall|k: int| 0 <= k < i ==> without_cr(#[trigger] all[k]) != commit@,
        decreases lines.len() - i,
    {
        let line = lines[i].as_slice();
        let n = line.len();
        let stripped = if n > 0 && line[n - 1] == '\r' { slice_chars(line, 0, n - 1) } else { slice_chars(line, 0, n) };
        proof {
            assert(all[i as int] == lines@[i as int]@);
            assert(stripped@ =~= without_cr(all[i as int]));
        }
        if chars_eq(stripped.as_slice(), c.as_slice()) {
            assert(without_cr(split_on(first_parent_listing@, '\n')[i as int]) == commit@);
            return true;
        }
        i = i + 1;
    }
    false
}

/// The steps of a release verification, in order.
#[derive(Debug, Clone, Copy, PartialEq, Eq, Structural)]
pub enum Check {
    /// `cargo pkgid` was asked for the packaged version.
    Pkgid,
    /// The changelog was asked for.
    Changelog,
    /// The commit of the tag was asked for.
    TagCommit,
    /// The checked out commit was asked for.
    HeadCommit,
    /// `origin/main` was refreshed.
    Fetch,
    /// The first-parent line of `origin/main` was asked for.
    Listing,
    /// The verification is over.
    Done,
}

/// A release verification in progress.
#[derive(Debug)]
pub struct Verification {
    check: Check,
    tag: String,
    version: Version,
    tag_commit: String,
}

/// The mathematical content of a [`Verification`].
pub ghost struct VerificationView {
    pub check: Check,
    pub tag: Seq<char>,
    pub version: (nat, nat, nat),
    pub tag_commit: Seq<char>,
}

impl View for Verification {
    type V = VerificationView;

    closed spec fn view(&self) -> VerificationView {
        VerificationView { check: self.check, tag: self.tag@, version: self.version@, tag_commit: self.tag_commit@ }
    }
}

/// The first action of the verification of `tag`: the tag is parsed before
/// any command runs, so that no unvalidated string reaches `git`.
pub open spec fn verification_start(tag: Seq<char>) -> ActionView {
    match tag_claim(tag) {
        None => ActionView::Finish(Err(XtaskErrorView::InvalidReleaseTag { tag })),
        Some(_) => ActionView::Run { program: "cargo"@, arguments: seq!["pkgid"@, "--package"@, "isochron"@] },
    }
}

/// The next state and action of a release verification after `event`. The
/// checks run in this order, each stopping the sequence on failure: the
/// packaged version equals the tag's, the changelog has a non empty section
/// for it, the tag resolves to the checked out commit, `origin/main` is
/// refreshed, and that commit is on its first-parent line.
pub open spec fn verification_step(s: VerificationView, event: EventView) -> (VerificationView, ActionView) {
    let text = event_text(event);
    let done = VerificationView { check: Check::Done, ..s };
    match s.check {
        Check::Pkgid => match pkgid_version(text) {
            None => (done, ActionView::Finish(Err(XtaskErrorView::UnreadablePackageId { output: text }))),
            Some(p) => if p != s.version {
                (done, ActionView::Finish(Err(XtaskErrorView::TagVersionMismatch {
                    tag_version: version_text(s.version),
                    package_version: version_text(p),
                })))
            } else {
                (VerificationView { check: Check::Changelog, ..s }, ActionView::Read { file: "CHANGELOG.md"@ })
            },
        },
        Check::Changelog => match notes_of(text, version_text(s.version)) {
            Err(e) => (done, ActionView::Finish(Err(e))),
            Ok(_) => (
                VerificationView { check: Check::TagCommit, ..s },
                ActionView::Run { program: "git"@, arguments: seq!["rev-parse"@, s.tag + "^{commit}"@] },
            ),
        },
        Check::TagCommit => (
            VerificationView { check: Check::HeadCommit, tag_commit: trim(text), ..s },
            ActionView::Run { program: "git"@, arguments: seq!["rev-parse"@, "HEAD"@] },
        ),
        Check::HeadCommit => if trim(text) != s.tag_commit {
            (done, ActionView::Finish(Err(XtaskErrorView::TagNotCheckedOut { tag_commit: s.tag_commit, head_commit: trim(text) })))
        } else {
            (
                VerificationView { check: Check::Fetch, ..s },
                ActionView::Run { program: "git"@, arguments: seq!["fetch"@, "origin"@, "main"@] },
            )
        },
        Check::Fetch => (
            VerificationView { check: Check::Listing, ..s },
            ActionView::Run { program: "git"@, arguments: seq!["rev-list"@, "--first-parent"@, "origin/main"@] },
        ),
        Check::Listing => if listed(s.tag_commit, text) {
            (done, ActionView::Finish(Ok(s.version)))
        } else {
            (done, ActionView::Finish(Err(XtaskErrorView::CommitNotOnMainLine { commit: s.tag_commit })))
        },
        Check::Done => (done, ActionView::Finish(Ok(s.version))),
    }
}

impl Verification {
    /// Starts the verification that `tag` may be published from the checked
    /// out commit.
    pub fn start(tag: &str) -> (r: (Verification, Action))
        ensures
            r.1@ == verification_start(tag@),
            r.0@.tag == tag@,
            r.1@ is Run ==> r.0@.check == Check::Pkgid && tag_claim(tag@) == Some(r.0@.version),
            !(r.1@ is Run) ==> r.0@.check == Check::Done,
    {
        match tag_version(tag) {
            Err(e) => (
                Verification { check: Check::Done, tag: tag.to_owned(), version: Version::new(0, 0, 0), tag_commit: String::new() },
                Action::Finish(Err(e)),
            ),
            Ok(version) => {
                let a = run("cargo", &["pkgid", "--package", "isochron"]);
                proof { assert(["pkgid", "--package", "isochron"]@.map_values(|s: &str| s@) =~= seq!["pkgid"@, "--package"@, "isochron"@]); }
                (Verification { check: Check::Pkgid, tag: tag.to_owned(), version, tag_commit: String::new() }, a)
            },
        }
    }

    /// Whether the verification is over.
    pub fn is_done(&self) -> (b: bool)
        ensures
            b == (self@.check == Check::Done),
    {
        self.check == Check::Done
    }

    /// The next state and action after `event`, the report of the previous
    /// action.
    #[verifier::rlimit(50)]
    pub fn step(self, event: Event) -> (r: (Verification, Action))
        ensures
            (r.0@, r.1@) == verification_step(self@, event@),
    {
        let text = event.text();
        let version = self.version;
        match self.check {
            Check::Pkgid => match package_version_from_pkgid(text.as_str()) {
                Err(e) => (Verification { check: Check::Done, ..self }, Action::Finish(Err(e))),
                Ok(p) => {
                    proof {
                        crate::release::version::lemma_version_view(p, version);
                    }
                    if p != version {
                        let e = XtaskError::TagVersionMismatch { tag_version: version.to_string(), package_version: p.to_string() };
                        (Verification { check: Check::Done, ..self }, Action::Finish(Err(e)))
                    } else {
                        (Verification { check: Check::Changelog, ..self }, Action::Read { file: "CHANGELOG.md".to_owned() })
                    }
                },
            },
            Check::Changelog => {
                let v = version.to_string();
                match release_notes(text.as_str(), v.as_str()) {
                    Err(e) => (Verification { check: Check::Done, ..self }, Action::Finish(Err(e))),
                    Ok(_) => {
                        let mut reference = chars_of(self.tag.as_str());
                        crate::text::push_str(&mut reference, "^{commit}");
                        let arguments = vec!["rev-parse".to_owned(), string_from_chars(reference.as_slice())];
                        proof { assert(string_texts(arguments@) =~= seq!["rev-parse"@, self@.tag + "^{commit}"@]); }
                        (Verification { check: Check::TagCommit, ..self }, Action::Run { program: "git".to_owned(), arguments })
                    },
                }
            },
            Check::TagCommit => {
                let chars = chars_of(text.as_str());
                let commit = chars_trim(chars.as_slice());
                let a = run("git", &["rev-parse", "HEAD"]);
                proof { assert(["rev-parse", "HEAD"]@.map_values(|s: &str| s@) =~= seq!["rev-parse"@, "HEAD"@]); }
                (Verification { check: Check::HeadCommit, tag_commit: string_from_chars(commit.as_slice()), ..self }, a)
            },
            Check::HeadCommit => {
                let chars = chars_of(text.as_str());
                let head = chars_trim(chars.as_slice());
                let tag_commit = chars_of(self.tag_commit.as_str());
                if !chars_eq(head.as_slice(), tag_commit.as_slice()) {
                    let e = XtaskError::TagNotCheckedOut { tag_commit: self.tag_commit.clone(), head_commit: string_from_chars(head.as_slice()) };
                    (Verification { check: Check::Done, ..self }, Action::Finish(Err(e)))
                } else {
                    let a = run("git", &["fetch", "origin", "main"]);
                    proof { assert(["fetch", "origin", "main"]@.map_values(|s: &str| s@) =~= seq!["fetch"@, "origin"@, "main"@]); }
                    (Verification { check: Check::Fetch, ..self }, a)
                }
            },
            Check::Fetch => {
                let a = run("git", &["rev-list", "--first-parent", "origin/main"]);
                proof { assert(["rev-list", "--first-parent", "origin/main"]@.map_values(|s: &str| s@) =~= seq!["rev-list"@, "--first-parent"@, "origin/main"@]); }
                (Verification { check: Check::Listing, ..self }, a)
            },
            Check::Listing => {
                if is_on_first_parent_line(self.tag_commit.as_str(), text.as_str()) {
                    (Verification { check: Check::Done, ..self }, Action::Finish(Ok(version)))
                } else {
                    let e = XtaskError::CommitNotOnMainLine { commit: self.tag_commit.clone() };
                    (Verification { check: Check::Done, ..self }, Action::Finish(Err(e)))
                }
            },
            Check::Done => (Verification { check: Check::Done, ..self }, Action::Finish(Ok(version))),
        }
    }
}

/// A listing made of the lines `entries` (none holding a line break, each
/// possibly ending in a carriage return) lists `commit` (which holds no
/// carriage return) exactly when `commit` is non-empty and one of the
/// entries, at any position, is `commit` or `commit` followed by a carriage
/// return.
pub proof fn lemma_listed_at_any_line(commit: Seq<char>, entries: Seq<Seq<char>>)
    requires
        entries.len() >= 1,
        forall|k: int| 0 <= k < entries.len() ==> !(#[trigger] entries[k]).contains('\n'),
        !commit.contains('\r'),
    ensures
        listed(commit, crate::text::join(entries, "\n"@)) <==> (commit.len() > 0 && exists|i: int|
            0 <= i < entries.len() && (entries[i] == commit || entries[i] == commit.push('\r'))),
{
    reveal_strlit("\n");
    assert("\n"@ =~= seq!['\n']);
    crate::text::lemma_split_join(entries, '\n');
    let lines = split_on(crate::text::join(entries, "\n"@), '\n');
    assert(lines == entries);
    assert forall|i: int| 0 <= i < entries.len() implies (without_cr(#[trigger] entries[i]) == commit <==> (
        entries[i] == commit || entries[i] == commit.push('\r'))) by {
        let e = entries[i];
        if e.len() > 0 && e.last() == '\r' {
            if e == commit {
                assert(commit[commit.len() - 1] == '\r');
                assert(commit.contains('\r'));
            }
            if without_cr(e) == commit {
                assert(e =~= commit.push('\r'));
            }
            if e == commit.push('\r') {
                assert(e.drop_last() =~= commit);
            }
        } else {
            if e == commit.push('\r') {
                assert(e.last() == '\r');
            }
        }
    }
    if commit.len() > 0 {
        if exists|i: int| 0 <= i < entries.len() && (entries[i] == commit || entries[i] == commit.push('\r')) {
            let i = choose|i: int| 0 <= i < entries.len() && (entries[i] == commit || entries[i] == commit.push('\r'));
            assert(without_cr(lines[i]) == commit);
        }
    }
}

} // verus!
