//! Text operations on `Cargo.toml`, scoped to the `[package]` table's
//! `version` key and to the `[package.metadata.isochron]` table's
//! `next-release` declaration. Everything outside the value being replaced is
//! kept character for character.
use vstd::prelude::*;

use crate::release::error::{XtaskError, XtaskErrorView};
use crate::release::version::{
    fits, lemma_version_parse_round_trip, lemma_version_text_round_trip, level_from_name,
    level_name, level_of_name, parse_version, version_text, BumpLevel, Version,
};
use crate::text::{
    chars_eq_str, chars_index_of_from, chars_join, chars_of, chars_split, chars_starts_with_str,
    chars_trim, count_leading_space, index_of, join, leading_space, lemma_index_of,
    lemma_index_of_none, lemma_join_split, push_all, slice_chars, split_on, starts_with, string_from_chars, trim,
    trim_start, views,
};

verus! {

/// The heading of the `[package]` table.
pub open spec fn package_heading() -> Seq<char> {
    "[package]"@
}

/// The start of a `version` key line, once its indentation is removed.
pub open spec fn version_prefix() -> Seq<char> {
    "version = \""@
}

/// The heading of the `[package.metadata.isochron]` table.
pub open spec fn isochron_heading() -> Seq<char> {
    "[package.metadata.isochron]"@
}

/// The start of a `next-release` key line, once its indentation is removed.
pub open spec fn next_release_prefix() -> Seq<char> {
    "next-release = \""@
}

/// The range of the quoted value of a key whose line, once its indentation
/// is removed, starts with `prefix` (which ends with the opening quote): from
/// just after the prefix to the next `"`. A lookalike key such as
/// `rust-version` does not start with the prefix.
pub open spec fn key_value_range(line: Seq<char>, prefix: Seq<char>) -> Option<(int, int)> {
    let lead = leading_space(line) as int;
    let t = line.skip(lead);
    if starts_with(t, prefix) {
        match index_of(t.skip(prefix.len() as int), '"') {
            Some(k) => Some((lead + prefix.len(), lead + prefix.len() + k)),
            None => None,
        }
    } else {
        None
    }
}

/// A line that opens a table: it starts with `[` once trimmed.
pub open spec fn is_table_line(line: Seq<char>) -> bool {
    trim(line).len() > 0 && trim(line)[0] == '['
}

/// The index of the first line, at or after `i`, that carries the key
/// `prefix` inside the table `heading`; `inside` says whether line `i` lies
/// in that table. A table starts at a line whose trimmed text is exactly its
/// heading and ends at the next table line.
pub open spec fn key_line_from(lines: Seq<Seq<char>>, i: int, inside: bool, heading: Seq<char>, prefix: Seq<char>) -> Option<int>
    decreases lines.len() - i,
{
    if i < 0 || i >= lines.len() {
        None
    } else if is_table_line(lines[i]) {
        key_line_from(lines, i + 1, trim(lines[i]) == heading, heading, prefix)
    } else if inside && key_value_range(lines[i], prefix) is Some {
        Some(i)
    } else {
        key_line_from(lines, i + 1, inside, heading, prefix)
    }
}

/// The index of the line that carries the key `prefix` inside the table
/// `heading` of a manifest split into lines.
pub open spec fn key_line(lines: Seq<Seq<char>>, heading: Seq<char>, prefix: Seq<char>) -> Option<int> {
    key_line_from(lines, 0, false, heading, prefix)
}

/// The quoted value of the key at line `i`.
pub open spec fn value_at(lines: Seq<Seq<char>>, i: int, prefix: Seq<char>) -> Seq<char> {
    let (s, e) = key_value_range(lines[i], prefix)->Some_0;
    lines[i].subrange(s, e)
}

/// The lines with the quoted value of the key at line `i` replaced by `value`.
pub open spec fn with_value_at(lines: Seq<Seq<char>>, i: int, prefix: Seq<char>, value: Seq<char>) -> Seq<Seq<char>> {
    let (s, e) = key_value_range(lines[i], prefix)->Some_0;
    lines.update(i, lines[i].take(s) + value + lines[i].skip(e))
}

/// The lines of a manifest.
pub open spec fn manifest_lines(manifest: Seq<char>) -> Seq<Seq<char>> {
    split_on(manifest, '\n')
}

/// The version that the `[package]` table declares.
pub open spec fn manifest_version(manifest: Seq<char>) -> Result<(nat, nat, nat), XtaskErrorView> {
    let lines = manifest_lines(manifest);
    match key_line(lines, package_heading(), version_prefix()) {
        Some(i) => match parse_version(value_at(lines, i, version_prefix())) {
            Some(v) => Ok(v),
            None => Err(XtaskErrorView::InvalidVersion { input: value_at(lines, i, version_prefix()) }),
        },
        None => Err(XtaskErrorView::ManifestVersionNotFound),
    }
}

/// The manifest with the `[package]` version replaced by `version`.
pub open spec fn manifest_with_version(manifest: Seq<char>, version: (nat, nat, nat)) -> Result<Seq<char>, XtaskErrorView> {
    let lines = manifest_lines(manifest);
    match key_line(lines, package_heading(), version_prefix()) {
        Some(i) => Ok(join(with_value_at(lines, i, version_prefix(), version_text(version)), "\n"@)),
        None => Err(XtaskErrorView::ManifestVersionNotFound),
    }
}

/// The release type that `[package.metadata.isochron]` declares.
pub open spec fn manifest_next_release(manifest: Seq<char>) -> Result<BumpLevel, XtaskErrorView> {
    let lines = manifest_lines(manifest);
    match key_line(lines, isochron_heading(), next_release_prefix()) {
        Some(i) => match level_of_name(value_at(lines, i, next_release_prefix())) {
            Some(level) => Ok(level),
            None => Err(XtaskErrorView::InvalidNextRelease { value: value_at(lines, i, next_release_prefix()) }),
        },
        None => Err(XtaskErrorView::NextReleaseNotFound),
    }
}

/// The manifest with the `next-release` declaration replaced by `level`.
pub open spec fn manifest_with_next_release(manifest: Seq<char>, level: BumpLevel) -> Result<Seq<char>, XtaskErrorView> {
    let lines = manifest_lines(manifest);
    match key_line(lines, isochron_heading(), next_release_prefix()) {
        Some(i) => Ok(join(with_value_at(lines, i, next_release_prefix(), level_name(level)), "\n"@)),
        None => Err(XtaskErrorView::NextReleaseNotFound),
    }
}

/// The range of the quoted value of the key `prefix` in `line`.
#[verifier::rlimit(40)]
fn value_range(line: &[char], prefix: &str) -> (r: Option<(usize, usize)>)
    ensures
        match r {
            Some((s, e)) => key_value_range(line@, prefix@) == Some((s as int, e as int)) && s <= e <= line@.len(),
            None => key_value_range(line@, prefix@) is None,
        },
{
    let lead = count_leading_space(line);
    let t = slice_chars(line, lead, line.len());
    assert(t@ =~= line@.skip(lead as int));
    if !chars_starts_with_str(t.as_slice(), prefix) {
        return None;
    }
    let p = prefix.unicode_len();
    match chars_index_of_from(t.as_slice(), '"', p) {
        Some(q) => {
            proof {
                let rest = t@.skip(p as int);
                assert forall|k: int| 0 <= k < q - p implies rest[k] != '"' by {
                    assert(rest[k] == t@[p + k]);
                }
                lemma_index_of(rest, '"', q - p);
            }
            Some((lead + p, lead + q))
        },
        None => {
            proof {
                let rest = t@.skip(p as int);
                assert forall|k: int| 0 <= k < rest.len() implies rest[k] != '"' by {
                    assert(rest[k] == t@[p + k]);
                }
                lemma_index_of_none(rest, '"');
            }
            None
        },
    }
}

/// Whether a line opens a table.
fn table_line(line: &[char]) -> (r: Option<Vec<char>>)
    ensures
        match r {
            Some(t) => is_table_line(line@) && t@ == trim(line@),
            None => !is_table_line(line@),
        },
{
    let t = chars_trim(line);
    if t.len() > 0 && t[0] == '[' {
        Some(t)
    } else {
        None
    }
}

/// The line carrying the key `prefix` inside the table `heading`, with the
/// range of its value.
fn find_key_line(lines: &Vec<Vec<char>>, heading: &str, prefix: &str) -> (r: Option<(usize, usize, usize)>)
    ensures
        match r {
            Some((i, s, e)) => key_line(views(lines@), heading@, prefix@) == Some(i as int) && i < lines@.len()
                && key_value_range(lines@[i as int]@, prefix@) == Some((s as int, e as int))
                && s <= e <= lines@[i as int]@.len(),
            None => key_line(views(lines@), heading@, prefix@) is None,
        },
{
    let ghost all = views(lines@);
    let mut inside = false;
    let mut i: usize = 0;
    while i < lines.len()
        invariant
            i <= lines.len(),
            all == views(lines@),
            key_line(all, heading@, prefix@) == key_line_from(all, i as int, inside, heading@, prefix@),
        decreases lines.len() - i,
    {
        let line = lines[i].as_slice();
        assert(all[i as int] == lines@[i as int]@);
        match table_line(line) {
            Some(t) => {
                inside = chars_eq_str(t.as_slice(), heading);
            },
            None => {
                if inside {
                    match value_range(line, prefix) {
                        Some((s, e)) => {
                            return Some((i, s, e));
                        },
                        None => {},
                    }
                }
            },
        }
        i = i + 1;
    }
    None
}

/// The lines of the manifest with the value at line `i` replaced.
fn replace_value(lines: &Vec<Vec<char>>, i: usize, s: usize, e: usize, value: &[char]) -> (out: Vec<char>)
    requires
        i < lines@.len(),
        s <= e <= lines@[i as int]@.len(),
    ensures
        out@ == join(views(lines@).update(i as int, lines@[i as int]@.take(s as int) + value@ + lines@[i as int]@.skip(e as int)), "\n"@),
{
    let line = lines[i].as_slice();
    let mut replaced = slice_chars(line, 0, s);
    push_all(&mut replaced, value);
    let tail = slice_chars(line, e, line.len());
    push_all(&mut replaced, tail.as_slice());
    assert(replaced@ =~= line@.take(s as int) + value@ + line@.skip(e as int));
    let mut updated: Vec<Vec<char>> = Vec::new();
    let mut k: usize = 0;
    while k < lines.len()
        invariant
            k <= lines.len(),
            i < lines@.len(),
            updated@.len() == k,
            forall|j: int| 0 <= j < k ==> (#[trigger] updated@[j])@ == (if j == i { replaced@ } else { lines@[j]@ }),
        decreases lines.len() - k,
    {
        if k == i {
            updated.push(slice_chars(replaced.as_slice(), 0, replaced.len()));
        } else {
            updated.push(slice_chars(lines[k].as_slice(), 0, lines[k].len()));
        }
        k = k + 1;
    }
    assert(views(updated@) =~= views(lines@).update(i as int, replaced@));
    let newline = chars_of("\n");
    chars_join(updated.as_slice(), newline.as_slice())
}

/// Reads the `version` key of the `[package]` table.
///
/// # Errors
///
/// [`XtaskError::ManifestVersionNotFound`] when the key is absent, and
/// [`XtaskError::InvalidVersion`] when its value is not a strict version.
pub fn package_version(manifest: &str) -> (r: Result<Version, XtaskError>)
    ensures
        match (r, manifest_version(manifest@)) {
            (Ok(v), Ok(w)) => v@ == w,
            (Err(e), Err(w)) => e@ == w,
            _ => false,
        },
{
    let chars = chars_of(manifest);
    let lines = chars_split(chars.as_slice(), '\n');
    match find_key_line(&lines, "[package]", "version = \"") {
        Some((i, s, e)) => {
            let value = slice_chars(lines[i].as_slice(), s, e);
            proof {
                assert(views(lines@)[i as int] == lines@[i as int]@);
            }
            let text = string_from_chars(value.as_slice());
            Version::parse(text.as_str())
        },
        None => Err(XtaskError::ManifestVersionNotFound),
    }
}

/// Returns `manifest` with the `[package]` table's `version` key replaced by
/// `version`, leaving everything else character for character identical.
///
/// # Errors
///
/// [`XtaskError::ManifestVersionNotFound`] when the key is absent.
pub fn with_package_version(manifest: &str, version: &Version) -> (r: Result<String, XtaskError>)
    ensures
        match (r, manifest_with_version(manifest@, version@)) {
            (Ok(s), Ok(w)) => s@ == w,
            (Err(e), Err(w)) => e@ == w,
            _ => false,
        },
{
    let chars = chars_of(manifest);
    let lines = chars_split(chars.as_slice(), '\n');
    match find_key_line(&lines, "[package]", "version = \"") {
        Some((i, s, e)) => {
            let text = version.text();
            let out = replace_value(&lines, i, s, e, text.as_slice());
            proof {
                assert(views(lines@)[i as int] == lines@[i as int]@);
            }
            Ok(string_from_chars(out.as_slice()))
        },
        None => Err(XtaskError::ManifestVersionNotFound),
    }
}

/// Reads the `next-release` declaration of the `[package.metadata.isochron]`
/// table.
///
/// The declaration is mandatory: a missing key is an error, never an
/// implicit `patch`, so that a misspelt table cannot silently change which
/// release type the API check applies.
///
/// # Errors
///
/// [`XtaskError::NextReleaseNotFound`] when the key is absent, and
/// [`XtaskError::InvalidNextRelease`] carrying an unknown value verbatim.
pub fn declared_next_release(manifest: &str) -> (r: Result<BumpLevel, XtaskError>)
    ensures
        match (r, manifest_next_release(manifest@)) {
            (Ok(v), Ok(w)) => v == w,
            (Err(e), Err(w)) => e@ == w,
            _ => false,
        },
{
    let chars = chars_of(manifest);
    let lines = chars_split(chars.as_slice(), '\n');
    match find_key_line(&lines, "[package.metadata.isochron]", "next-release = \"") {
        Some((i, s, e)) => {
            let value = slice_chars(lines[i].as_slice(), s, e);
            proof {
                assert(views(lines@)[i as int] == lines@[i as int]@);
            }
            match level_from_name(value.as_slice()) {
                Some(level) => Ok(level),
                None => Err(XtaskError::InvalidNextRelease { value: string_from_chars(value.as_slice()) }),
            }
        },
        None => Err(XtaskError::NextReleaseNotFound),
    }
}

/// Returns `manifest` with the `next-release` declaration replaced by
/// `level`, leaving everything else character for character identical.
///
/// # Errors
///
/// [`XtaskError::NextReleaseNotFound`] when the declaration is absent.
pub fn with_declared_next_release(manifest: &str, level: BumpLevel) -> (r: Result<String, XtaskError>)
    ensures
        match (r, manifest_with_next_release(manifest@, level)) {
            (Ok(s), Ok(w)) => s@ == w,
            (Err(e), Err(w)) => e@ == w,
            _ => false,
        },
{
    let chars = chars_of(manifest);
    let lines = chars_split(chars.as_slice(), '\n');
    match find_key_line(&lines, "[package.metadata.isochron]", "next-release = \"") {
        Some((i, s, e)) => {
            let name = chars_of(level.as_str());
            let out = replace_value(&lines, i, s, e, name.as_slice());
            proof {
                assert(views(lines@)[i as int] == lines@[i as int]@);
            }
            Ok(string_from_chars(out.as_slice()))
        },
        None => Err(XtaskError::NextReleaseNotFound),
    }
}

// ---------------------------------------------------------------------------
// Laws
// ---------------------------------------------------------------------------

/// The line of a found key carries its value.
proof fn lemma_key_line_found(lines: Seq<Seq<char>>, i: int, inside: bool, heading: Seq<char>, prefix: Seq<char>)
    requires
        key_line_from(lines, i, inside, heading, prefix) is Some,
    ensures
        ({
            let k = key_line_from(lines, i, inside, heading, prefix)->Some_0;
            0 <= k < lines.len() && key_value_range(lines[k], prefix) is Some
        }),
    decreases lines.len() - i,
{
    if 0 <= i < lines.len() {
        if is_table_line(lines[i]) {
            lemma_key_line_found(lines, i + 1, trim(lines[i]) == heading, heading, prefix);
        } else if !(inside && key_value_range(lines[i], prefix) is Some) {
            lemma_key_line_found(lines, i + 1, inside, heading, prefix);
        }
    }
}

/// The value range lies within its line.
proof fn lemma_value_range_bounds(line: Seq<char>, prefix: Seq<char>)
    requires
        key_value_range(line, prefix) is Some,
    ensures
        ({
            let (s, e) = key_value_range(line, prefix)->Some_0;
            0 <= s <= e < line.len() && line[e] == '"'
        }),
{
    let lead = leading_space(line) as int;
    crate::text::lemma_leading_space_bound(line);
    let t = line.skip(lead);
    let rest = t.skip(prefix.len() as int);
    let k = crate::text::lemma_index_of_some(rest, '"');
    assert(rest[k] == line[lead + prefix.len() + k]);
}

/// Rewriting the `[package]` version with the version it declares gives the
/// manifest back, character for character.
pub proof fn lemma_package_version_rewrite_identity(manifest: Seq<char>)
    requires
        manifest_version(manifest) is Ok,
    ensures
        manifest_with_version(manifest, manifest_version(manifest)->Ok_0) == Ok::<Seq<char>, XtaskErrorView>(manifest),
{
    let lines = manifest_lines(manifest);
    lemma_key_line_found(lines, 0, false, package_heading(), version_prefix());
    let i = key_line(lines, package_heading(), version_prefix())->Some_0;
    lemma_value_range_bounds(lines[i], version_prefix());
    let value = value_at(lines, i, version_prefix());
    lemma_version_parse_round_trip(value);
    let (s, e) = key_value_range(lines[i], version_prefix())->Some_0;
    assert(lines[i].take(s) + value + lines[i].skip(e) =~= lines[i]);
    assert(with_value_at(lines, i, version_prefix(), version_text(manifest_version(manifest)->Ok_0)) =~= lines);
    lemma_join_split(manifest, '\n');
    assert("\n"@ =~= seq!['\n']) by {
        reveal_strlit("\n");
    }
}

/// Rewriting the `next-release` declaration with the level it declares
/// gives the manifest back, character for character.
pub proof fn lemma_next_release_rewrite_identity(manifest: Seq<char>)
    requires
        manifest_next_release(manifest) is Ok,
    ensures
        manifest_with_next_release(manifest, manifest_next_release(manifest)->Ok_0) == Ok::<Seq<char>, XtaskErrorView>(manifest),
{
    let lines = manifest_lines(manifest);
    lemma_key_line_found(lines, 0, false, isochron_heading(), next_release_prefix());
    let i = key_line(lines, isochron_heading(), next_release_prefix())->Some_0;
    lemma_value_range_bounds(lines[i], next_release_prefix());
    let value = value_at(lines, i, next_release_prefix());
    let level = manifest_next_release(manifest)->Ok_0;
    assert(level_name(level) == value) by {
        reveal_strlit("patch");
        reveal_strlit("minor");
        reveal_strlit("major");
    }
    let (s, e) = key_value_range(lines[i], next_release_prefix())->Some_0;
    assert(lines[i].take(s) + value + lines[i].skip(e) =~= lines[i]);
    assert(with_value_at(lines, i, next_release_prefix(), level_name(level)) =~= lines);
    lemma_join_split(manifest, '\n');
    assert("\n"@ =~= seq!['\n']) by {
        reveal_strlit("\n");
    }
}

/// A scan result lies at or after where the scan starts.
proof fn lemma_key_line_at_or_after(lines: Seq<Seq<char>>, j: int, inside: bool, heading: Seq<char>, prefix: Seq<char>)
    ensures
        key_line_from(lines, j, inside, heading, prefix) matches Some(k) ==> j <= k,
    decreases lines.len() - j,
{
    if 0 <= j < lines.len() {
        if is_table_line(lines[j]) {
            lemma_key_line_at_or_after(lines, j + 1, trim(lines[j]) == heading, heading, prefix);
        } else if !(inside && key_value_range(lines[j], prefix) is Some) {
            lemma_key_line_at_or_after(lines, j + 1, inside, heading, prefix);
        }
    }
}

/// A scan that found line `i` finds it again in lines that agree before
/// `i` and still carry the key at `i`.
proof fn lemma_key_line_same(
    lines: Seq<Seq<char>>,
    other: Seq<Seq<char>>,
    j: int,
    inside: bool,
    i: int,
    heading: Seq<char>,
    prefix: Seq<char>,
)
    requires
        0 <= j,
        key_line_from(lines, j, inside, heading, prefix) == Some(i),
        other.len() == lines.len(),
        forall|k: int| j <= k < i ==> other[k] == lines[k],
        !is_table_line(other[i]),
        key_value_range(other[i], prefix) is Some,
    ensures
        key_line_from(other, j, inside, heading, prefix) == Some(i),
    decreases lines.len() - j,
{
    lemma_key_line_at_or_after(lines, j, inside, heading, prefix);
    if j < i {
        if is_table_line(lines[j]) {
            lemma_key_line_same(lines, other, j + 1, trim(lines[j]) == heading, i, heading, prefix);
        } else {
            lemma_key_line_same(lines, other, j + 1, inside, i, heading, prefix);
        }
    } else {
        if is_table_line(lines[j]) {
            lemma_key_line_at_or_after(lines, j + 1, trim(lines[j]) == heading, heading, prefix);
        } else if !(inside && key_value_range(lines[j], prefix) is Some) {
            lemma_key_line_at_or_after(lines, j + 1, inside, heading, prefix);
        }
    }
}

/// A text whose first character is not whitespace keeps it when trimmed.
proof fn lemma_trim_first(t: Seq<char>)
    requires
        t.len() > 0,
        !crate::text::is_space(t[0]),
    ensures
        crate::text::trim_start(t) == t,
        crate::text::trim_end(t).len() > 0,
        crate::text::trim_end(t)[0] == t[0],
        trim(t).len() > 0,
        trim(t)[0] == t[0],
{
    crate::text::lemma_leading_space(t, 0);
    assert(crate::text::trim_start(t) =~= t);
    lemma_trailing_below(t);
}

/// Trailing whitespace stops before a first character that is not
/// whitespace.
proof fn lemma_trailing_below(t: Seq<char>)
    requires
        t.len() > 0,
        !crate::text::is_space(t[0]),
    ensures
        crate::text::trailing_space(t) < t.len(),
    decreases t.len(),
{
    if t.len() > 1 && crate::text::is_space(t.last()) {
        assert(t.drop_last()[0] == t[0]);
        lemma_trailing_below(t.drop_last());
    }
}

/// Replacing the value of a key line by a value free of quotes leaves a key
/// line whose value is the new one.
#[verifier::rlimit(100)]
proof fn lemma_replaced_line(line: Seq<char>, prefix: Seq<char>, value: Seq<char>)
    requires
        key_value_range(line, prefix) is Some,
        prefix.len() > 0,
        !crate::text::is_space(prefix[0]),
        prefix[0] != '[',
        !value.contains('"'),
    ensures
        key_value_range(line.take(key_value_range(line, prefix)->Some_0.0) + value + line.skip(key_value_range(line, prefix)->Some_0.1), prefix)
            == Some((key_value_range(line, prefix)->Some_0.0, key_value_range(line, prefix)->Some_0.0 + value.len())),
        !is_table_line(line.take(key_value_range(line, prefix)->Some_0.0) + value + line.skip(key_value_range(line, prefix)->Some_0.1)),
        !is_table_line(line),
{
    let (s, e) = key_value_range(line, prefix)->Some_0;
    lemma_value_range_bounds(line, prefix);
    let new = line.take(s) + value + line.skip(e);
    let lead = leading_space(line) as int;
    crate::text::lemma_leading_space_bound(line);
    let t = line.skip(lead);
    assert(t.take(prefix.len() as int) == prefix);
    assert(line[lead] == prefix[0]) by {
        assert(t[0] == line[lead]);
        assert(t.take(prefix.len() as int)[0] == t[0]);
    }
    assert forall|k: int| 0 <= k < lead implies crate::text::is_space(new[k]) by {
        assert(new[k] == line[k]);
    }
    assert(new[lead] == line[lead]);
    crate::text::lemma_leading_space(new, lead);
    let t2 = new.skip(lead);
    assert(t2.take(prefix.len() as int) =~= prefix) by {
        assert forall|k: int| 0 <= k < prefix.len() implies t2[k] == prefix[k] by {
            assert(t2[k] == new[lead + k]);
            assert(new[lead + k] == line[lead + k]);
            assert(t[k] == line[lead + k]);
            assert(t.take(prefix.len() as int)[k] == t[k]);
        }
    }
    let rest = t2.skip(prefix.len() as int);
    assert(rest =~= value + line.skip(e));
    assert forall|k: int| 0 <= k < value.len() implies rest[k] != '"' by {
        assert(rest[k] == value[k]);
        if value[k] == '"' {
            assert(value.contains('"'));
        }
    }
    assert(rest[value.len() as int] == line[e]);
    lemma_index_of(rest, '"', value.len() as int);
    assert(t2[0] == prefix[0]);
    lemma_trim_first(t2);
    assert(crate::text::trim_start(new) == t2);
    lemma_trim_first(t);
    crate::text::lemma_leading_space(line, lead);
    assert(crate::text::trim_start(line) == t);
}

/// Writing a value into the key line of a manifest and reading the key back
/// gives the value written.
#[verifier::rlimit(100)]
proof fn lemma_rewrite_reads_back(manifest: Seq<char>, heading: Seq<char>, prefix: Seq<char>, value: Seq<char>)
    requires
        key_line(manifest_lines(manifest), heading, prefix) is Some,
        prefix.len() > 0,
        !crate::text::is_space(prefix[0]),
        prefix[0] != '[',
        !value.contains('"'),
        !value.contains('\n'),
    ensures
        ({
            let lines = manifest_lines(manifest);
            let i = key_line(lines, heading, prefix)->Some_0;
            let rewritten = join(with_value_at(lines, i, prefix, value), "\n"@);
            &&& manifest_lines(rewritten) == with_value_at(lines, i, prefix, value)
            &&& key_line(manifest_lines(rewritten), heading, prefix) == Some(i)
            &&& value_at(manifest_lines(rewritten), i, prefix) == value
        }),
{
    let lines = manifest_lines(manifest);
    lemma_key_line_found(lines, 0, false, heading, prefix);
    let i = key_line(lines, heading, prefix)->Some_0;
    let (s, e) = key_value_range(lines[i], prefix)->Some_0;
    lemma_value_range_bounds(lines[i], prefix);
    lemma_replaced_line(lines[i], prefix, value);
    let updated = with_value_at(lines, i, prefix, value);
    let new = lines[i].take(s) + value + lines[i].skip(e);
    crate::text::lemma_split_pieces(manifest, '\n');
    assert forall|k: int| 0 <= k < updated.len() implies !(#[trigger] updated[k]).contains('\n') by {
        if k == i {
            if new.contains('\n') {
                let w = choose|w: int| 0 <= w < new.len() && new[w] == '\n';
                if w < s {
                    assert(lines[i][w] == '\n');
                } else if w < s + value.len() {
                    assert(value[w - s] == '\n');
                } else {
                    assert(lines[i][w - s - value.len() + e] == '\n');
                }
            }
        }
    }
    crate::text::lemma_split_nonempty(manifest, '\n');
    assert("\n"@ =~= seq!['\n']) by {
        reveal_strlit("\n");
    }
    crate::text::lemma_split_join(updated, '\n');
    lemma_key_line_same(lines, updated, 0, false, i, heading, prefix);
    assert(new.subrange(s, s + value.len()) =~= value);
}

/// Writing a version into the manifest and reading it back gives that
/// version.
pub proof fn lemma_package_version_reads_back(manifest: Seq<char>, version: (nat, nat, nat))
    requires
        fits(version),
        manifest_with_version(manifest, version) is Ok,
    ensures
        manifest_version(manifest_with_version(manifest, version)->Ok_0) == Ok::<(nat, nat, nat), XtaskErrorView>(version),
{
    reveal_strlit("version = \"");
    let text = version_text(version);
    lemma_version_text_round_trip(version);
    assert(!text.contains('"') && !text.contains('\n')) by {
        let parts = split_on(text, '.');
        crate::text::lemma_decimal(version.0);
        crate::text::lemma_decimal(version.1);
        crate::text::lemma_decimal(version.2);
        if text.contains('"') || text.contains('\n') {
            let w = choose|w: int| 0 <= w < text.len() && (text[w] == '"' || text[w] == '\n');
            let a = crate::text::decimal(version.0);
            let b = crate::text::decimal(version.1);
            let c = crate::text::decimal(version.2);
            assert(text =~= a + "."@ + b + "."@ + c);
            reveal_strlit(".");
            if w < a.len() {
                assert(crate::text::is_digit(a[w]));
            } else if w == a.len() {
            } else if w < a.len() + 1 + b.len() {
                assert(crate::text::is_digit(b[w - a.len() - 1]));
            } else if w == a.len() + 1 + b.len() {
            } else {
                assert(crate::text::is_digit(c[w - a.len() - 2 - b.len()]));
            }
        }
    }
    lemma_rewrite_reads_back(manifest, package_heading(), version_prefix(), text);
}

/// Writing a release level into the manifest and reading it back gives that
/// level.
pub proof fn lemma_next_release_reads_back(manifest: Seq<char>, level: BumpLevel)
    requires
        manifest_with_next_release(manifest, level) is Ok,
    ensures
        manifest_next_release(manifest_with_next_release(manifest, level)->Ok_0) == Ok::<BumpLevel, XtaskErrorView>(level),
{
    reveal_strlit("next-release = \"");
    let name = level_name(level);
    crate::release::version::lemma_level_name_plain(level);
    crate::release::version::lemma_level_name_round_trip(level);
    lemma_rewrite_reads_back(manifest, isochron_heading(), next_release_prefix(), name);
}

} // verus!
