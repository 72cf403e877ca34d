//! Strict `SemVer` core versions and version bump requests.
use vstd::prelude::*;

use crate::release::error::{XtaskError, XtaskErrorView};
use crate::text::{
    is_digit, join, lemma_canonical_decimal, lemma_decimal, lemma_join_split,
    lemma_split_join, chars_eq_str, chars_is_canonical_decimal, chars_of, chars_split, decimal, decimal_chars,
    digits_value, is_canonical_decimal, parse_digits_u64, push_all, push_str, split_on,
    string_from_chars, views,
};

verus! {

/// A strict `SemVer` core version: `major.minor.patch`, no prerelease or
/// build metadata.
#[derive(Debug, Clone, Copy, PartialEq, Eq, Structural)]
pub struct Version {
    major: u64,
    minor: u64,
    patch: u64,
}

impl View for Version {
    type V = (nat, nat, nat);

    closed spec fn view(&self) -> (nat, nat, nat) {
        (self.major as nat, self.minor as nat, self.patch as nat)
    }
}

/// The largest value of a version component.
pub open spec fn component_max() -> nat {
    u64::MAX as nat
}

/// Components that fit a version.
pub open spec fn fits(v: (nat, nat, nat)) -> bool {
    v.0 <= component_max() && v.1 <= component_max() && v.2 <= component_max()
}

/// `a` comes strictly before `b` in version order (by major, then minor,
/// then patch).
pub open spec fn version_lt(a: (nat, nat, nat), b: (nat, nat, nat)) -> bool {
    a.0 < b.0 || (a.0 == b.0 && (a.1 < b.1 || (a.1 == b.1 && a.2 < b.2)))
}

/// The text of a version, `major.minor.patch` in decimal.
pub open spec fn version_text(v: (nat, nat, nat)) -> Seq<char> {
    decimal(v.0) + "."@ + decimal(v.1) + "."@ + decimal(v.2)
}

/// The version that `input` spells: exactly three dot-separated canonical
/// decimal components (no sign, no leading zero unless the component is
/// `0`), each within `u64`.
pub open spec fn parse_version(input: Seq<char>) -> Option<(nat, nat, nat)> {
    let parts = split_on(input, '.');
    if parts.len() == 3 && is_canonical_decimal(parts[0]) && is_canonical_decimal(parts[1])
        && is_canonical_decimal(parts[2]) && digits_value(parts[0]) <= component_max()
        && digits_value(parts[1]) <= component_max() && digits_value(parts[2]) <= component_max() {
        Some((digits_value(parts[0]), digits_value(parts[1]), digits_value(parts[2])))
    } else {
        None
    }
}

/// Equal views mean equal versions.
pub proof fn lemma_version_view(a: Version, b: Version)
    ensures
        (a@ == b@) == (a == b),
        fits(a@),
{
}

impl Version {
    /// Builds a version from its three numeric components.
    pub fn new(major: u64, minor: u64, patch: u64) -> (v: Version)
        ensures
            v@ == (major as nat, minor as nat, patch as nat),
    {
        Version { major, minor, patch }
    }

    /// The three numeric components, major first.
    pub fn components(&self) -> (c: (u64, u64, u64))
        ensures
            (c.0 as nat, c.1 as nat, c.2 as nat) == self@,
    {
        (self.major, self.minor, self.patch)
    }

    /// Parses a strict `SemVer` core version `x.y.z`.
    ///
    /// # Errors
    ///
    /// [`XtaskError::InvalidVersion`] carrying the input verbatim.
    pub fn parse(input: &str) -> (r: Result<Version, XtaskError>)
        ensures
            match (r, parse_version(input@)) {
                (Ok(v), Some(w)) => v@ == w,
                (Err(e), None) => e@ == XtaskErrorView::InvalidVersion { input: input@ },
                _ => false,
            },
    {
        let chars = chars_of(input);
        let parts = chars_split(chars.as_slice(), '.');
        let invalid = XtaskError::InvalidVersion { input: input.to_owned() };
        if parts.len() != 3 {
            return Err(invalid);
        }
        proof {
            assert(views(parts@)[0] == parts@[0]@);
            assert(views(parts@)[1] == parts@[1]@);
            assert(views(parts@)[2] == parts@[2]@);
        }
        let major = match component(parts[0].as_slice()) {
            Some(v) => v,
            None => {
                return Err(invalid);
            },
        };
        let minor = match component(parts[1].as_slice()) {
            Some(v) => v,
            None => {
                return Err(invalid);
            },
        };
        let patch = match component(parts[2].as_slice()) {
            Some(v) => v,
            None => {
                return Err(invalid);
            },
        };
        Ok(Version { major, minor, patch })
    }

    /// The text of the version, `major.minor.patch`.
    pub fn to_string(&self) -> (s: String)
        ensures
            s@ == version_text(self@),
    {
        string_from_chars(self.text().as_slice())
    }

    /// The text of the version, as characters.
    pub fn text(&self) -> (out: Vec<char>)
        ensures
            out@ == version_text(self@),
    {
        let mut out = decimal_chars(self.major);
        push_str(&mut out, ".");
        let minor = decimal_chars(self.minor);
        push_all(&mut out, minor.as_slice());
        push_str(&mut out, ".");
        let patch = decimal_chars(self.patch);
        push_all(&mut out, patch.as_slice());
        out
    }

    /// Whether `self` comes strictly before `other`.
    pub fn is_less_than(&self, other: &Version) -> (b: bool)
        ensures
            b == version_lt(self@, other@),
    {
        self.major < other.major || (self.major == other.major && (self.minor < other.minor || (
        self.minor == other.minor && self.patch < other.patch)))
    }
}

/// One dot-separated component: canonical digits within `u64`.
fn component(part: &[char]) -> (r: Option<u64>)
    ensures
        r == (if is_canonical_decimal(part@) && digits_value(part@) <= component_max() {
            Some(digits_value(part@) as u64)
        } else {
            None::<u64>
        }),
{
    if !chars_is_canonical_decimal(part) {
        return None;
    }
    parse_digits_u64(part)
}

impl core::str::FromStr for Version {
    type Err = XtaskError;

    fn from_str(input: &str) -> (r: Result<Version, XtaskError>)
        ensures
            match (r, parse_version(input@)) {
                (Ok(v), Some(w)) => v@ == w,
                (Err(e), None) => e@ == XtaskErrorView::InvalidVersion { input: input@ },
                _ => false,
            },
    {
        Version::parse(input)
    }
}

/// A semantic version component to increment.
#[derive(Debug, Clone, Copy, PartialEq, Eq, Structural)]
pub enum BumpLevel {
    /// Increment the patch component.
    Patch,
    /// Increment the minor component and reset the patch component.
    Minor,
    /// Increment the major component and reset the minor and patch components.
    Major,
}

/// The rank of a level: `Patch < Minor < Major`.
pub open spec fn level_rank(level: BumpLevel) -> int {
    match level {
        BumpLevel::Patch => 0,
        BumpLevel::Minor => 1,
        BumpLevel::Major => 2,
    }
}

/// The name of a level, as written in the manifest and on the command line.
pub open spec fn level_name(level: BumpLevel) -> Seq<char> {
    match level {
        BumpLevel::Patch => "patch"@,
        BumpLevel::Minor => "minor"@,
        BumpLevel::Major => "major"@,
    }
}

/// The level a name denotes, exactly as written.
pub open spec fn level_of_name(name: Seq<char>) -> Option<BumpLevel> {
    if name == "patch"@ {
        Some(BumpLevel::Patch)
    } else if name == "minor"@ {
        Some(BumpLevel::Minor)
    } else if name == "major"@ {
        Some(BumpLevel::Major)
    } else {
        None
    }
}

impl BumpLevel {
    /// The name of the level.
    pub fn as_str(self) -> (s: &'static str)
        ensures
            s@ == level_name(self),
    {
        match self {
            BumpLevel::Patch => "patch",
            BumpLevel::Minor => "minor",
            BumpLevel::Major => "major",
        }
    }

    /// Whether `self` is a strictly smaller bump than `other`.
    pub fn is_below(self, other: BumpLevel) -> (b: bool)
        ensures
            b == (level_rank(self) < level_rank(other)),
    {
        let rank = |level: BumpLevel| -> (r: u8)
            ensures
                r == level_rank(level),
            {
                match level {
                    BumpLevel::Patch => 0,
                    BumpLevel::Minor => 1,
                    BumpLevel::Major => 2,
                }
            };
        rank(self) < rank(other)
    }
}

/// The level a name denotes.
pub fn level_from_name(name: &[char]) -> (r: Option<BumpLevel>)
    ensures
        r == level_of_name(name@),
{
    if chars_eq_str(name, "patch") {
        Some(BumpLevel::Patch)
    } else if chars_eq_str(name, "minor") {
        Some(BumpLevel::Minor)
    } else if chars_eq_str(name, "major") {
        Some(BumpLevel::Major)
    } else {
        None
    }
}

/// A requested next version: either a relative bump or an exact target.
#[derive(Debug, Clone, Copy, PartialEq, Eq, Structural)]
pub enum VersionRequest {
    /// Bump the current version by one level.
    Level(BumpLevel),
    /// Use this exact version, provided it is strictly greater than the
    /// current one.
    Exact(Version),
}

/// What a request argument denotes: a level keyword (exactly `patch`,
/// `minor` or `major`), or else an exact version.
pub open spec fn parse_request(input: Seq<char>) -> Option<VersionRequestView> {
    match level_of_name(input) {
        Some(level) => Some(VersionRequestView::Level(level)),
        None => match parse_version(input) {
            Some(v) => Some(VersionRequestView::Exact(v)),
            None => None,
        },
    }
}

/// The mathematical content of a [`VersionRequest`].
pub ghost enum VersionRequestView {
    Level(BumpLevel),
    Exact((nat, nat, nat)),
}

impl View for VersionRequest {
    type V = VersionRequestView;

    open spec fn view(&self) -> VersionRequestView {
        match *self {
            VersionRequest::Level(level) => VersionRequestView::Level(level),
            VersionRequest::Exact(v) => VersionRequestView::Exact(v@),
        }
    }
}

/// The version a request designates from `current`, before the check that
/// it is greater.
pub open spec fn requested_target(request: VersionRequestView, current: (nat, nat, nat)) -> (nat, nat, nat) {
    match request {
        VersionRequestView::Level(BumpLevel::Patch) => (current.0, current.1, current.2 + 1),
        VersionRequestView::Level(BumpLevel::Minor) => (current.0, current.1 + 1, 0),
        VersionRequestView::Level(BumpLevel::Major) => (current.0 + 1, 0, 0),
        VersionRequestView::Exact(v) => v,
    }
}

/// The bumped component of `current` stays within `u64`.
pub open spec fn bump_fits(request: VersionRequestView, current: (nat, nat, nat)) -> bool {
    fits(requested_target(request, current))
}

impl VersionRequest {
    /// Parses a request: `patch`, `minor`, `major` or an exact version.
    ///
    /// # Errors
    ///
    /// [`XtaskError::InvalidVersion`] carrying the input verbatim.
    pub fn parse(input: &str) -> (r: Result<VersionRequest, XtaskError>)
        ensures
            match (r, parse_request(input@)) {
                (Ok(q), Some(w)) => q@ == w,
                (Err(e), None) => e@ == XtaskErrorView::InvalidVersion { input: input@ },
                _ => false,
            },
    {
        let chars = chars_of(input);
        match level_from_name(chars.as_slice()) {
            Some(level) => Ok(VersionRequest::Level(level)),
            None => match Version::parse(input) {
                Ok(v) => Ok(VersionRequest::Exact(v)),
                Err(e) => Err(e),
            },
        }
    }

    /// The requested version, refusing a target that is not strictly
    /// greater than `current`.
    ///
    /// # Errors
    ///
    /// [`XtaskError::VersionNotGreater`] with both versions as text.
    pub fn resolve(&self, current: &Version) -> (r: Result<Version, XtaskError>)
        requires
            bump_fits(self@, current@),
        ensures
            ({
                let target = requested_target(self@, current@);
                match r {
                    Ok(v) => v@ == target && version_lt(current@, target),
                    Err(e) => !version_lt(current@, target) && e@ == XtaskErrorView::VersionNotGreater {
                        current: version_text(current@),
                        target: version_text(target),
                    },
                }
            }),
    {
        proof {
            lemma_version_view(*current, *current);
        }
        let target = match self {
            VersionRequest::Level(BumpLevel::Patch) => Version::new(current.major, current.minor, current.patch + 1),
            VersionRequest::Level(BumpLevel::Minor) => Version::new(current.major, current.minor + 1, 0),
            VersionRequest::Level(BumpLevel::Major) => Version::new(current.major + 1, 0, 0),
            VersionRequest::Exact(version) => *version,
        };
        if !current.is_less_than(&target) {
            return Err(XtaskError::VersionNotGreater {
                current: current.to_string(),
                target: target.to_string(),
            });
        }
        Ok(target)
    }
}

impl core::str::FromStr for VersionRequest {
    type Err = XtaskError;

    fn from_str(input: &str) -> (r: Result<VersionRequest, XtaskError>)
        ensures
            match (r, parse_request(input@)) {
                (Ok(q), Some(w)) => q@ == w,
                (Err(e), None) => e@ == XtaskErrorView::InvalidVersion { input: input@ },
                _ => false,
            },
    {
        VersionRequest::parse(input)
    }
}

/// The decimal rendering of a number holds no dot.
proof fn lemma_decimal_has_no_dot(n: nat)
    ensures
        !decimal(n).contains('.'),
{
    lemma_decimal(n);
    if decimal(n).contains('.') {
        let i = choose|i: int| 0 <= i < decimal(n).len() && decimal(n)[i] == '.';
        assert(is_digit(decimal(n)[i]));
    }
}

/// The text of a version is its three renderings joined with dots.
proof fn lemma_version_text_join(v: (nat, nat, nat))
    ensures
        version_text(v) == join(seq![decimal(v.0), decimal(v.1), decimal(v.2)], "."@),
{
    let pieces = seq![decimal(v.0), decimal(v.1), decimal(v.2)];
    assert(pieces.drop_last() =~= seq![decimal(v.0), decimal(v.1)]);
    assert(pieces.drop_last().drop_last() =~= seq![decimal(v.0)]);
    assert(join(pieces.drop_last().drop_last(), "."@) == decimal(v.0));
    assert(join(pieces.drop_last(), "."@) == decimal(v.0) + "."@ + decimal(v.1));
}

/// Writing a version and parsing the text gives the version back.
pub proof fn lemma_version_text_round_trip(v: (nat, nat, nat))
    requires
        fits(v),
    ensures
        parse_version(version_text(v)) == Some(v),
{
    reveal_strlit(".");
    let pieces = seq![decimal(v.0), decimal(v.1), decimal(v.2)];
    lemma_version_text_join(v);
    lemma_decimal_has_no_dot(v.0);
    lemma_decimal_has_no_dot(v.1);
    lemma_decimal_has_no_dot(v.2);
    lemma_decimal(v.0);
    lemma_decimal(v.1);
    lemma_decimal(v.2);
    assert("."@ =~= seq!['.']);
    assert forall|i: int| 0 <= i < pieces.len() implies !(#[trigger] pieces[i]).contains('.') by {}
    lemma_split_join(pieces, '.');
}

/// Parsing a version text and writing the version gives the text back: a
/// strict version has exactly one spelling.
pub proof fn lemma_version_parse_round_trip(s: Seq<char>)
    requires
        parse_version(s) is Some,
    ensures
        version_text(parse_version(s)->Some_0) == s,
{
    reveal_strlit(".");
    let parts = split_on(s, '.');
    lemma_canonical_decimal(parts[0]);
    lemma_canonical_decimal(parts[1]);
    lemma_canonical_decimal(parts[2]);
    lemma_join_split(s, '.');
    let v = parse_version(s)->Some_0;
    lemma_version_text_join(v);
    assert("."@ =~= seq!['.']);
    assert(seq![decimal(v.0), decimal(v.1), decimal(v.2)] =~= parts);
}

/// The name of a level names that level.
pub proof fn lemma_level_name_round_trip(level: BumpLevel)
    ensures
        level_of_name(level_name(level)) == Some(level),
{
    reveal_strlit("patch");
    reveal_strlit("minor");
    reveal_strlit("major");
    match level {
        BumpLevel::Patch => {},
        BumpLevel::Minor => {
            assert("minor"@[0] != "patch"@[0]);
        },
        BumpLevel::Major => {
            assert("major"@[0] != "patch"@[0]);
            assert("major"@[1] != "minor"@[1]);
        },
    }
}

/// The name of a level holds neither a quote nor a line break.
pub proof fn lemma_level_name_plain(level: BumpLevel)
    ensures
        !level_name(level).contains('"'),
        !level_name(level).contains('\n'),
{
    reveal_strlit("patch");
    reveal_strlit("minor");
    reveal_strlit("major");
}

} // verus!
