//! Changelog graduation and per version release notes extraction, in the
//! Keep a Changelog format. A changelog is handled as its lines, split on
//! `\n` and joined back with `\n`.
use vstd::prelude::*;

use crate::release::error::{XtaskError, XtaskErrorView};
use crate::release::version::{version_text, Version};
use crate::text::{
    all_space, chars_contains, chars_eq_str, chars_find, chars_join, chars_lower, chars_of,
    chars_split, chars_starts_with, chars_starts_with_str, contains_seq, find_seq, join,
    lower_all, push_all, push_str, slice_chars, split_on, starts_with, string_from_chars, views,
};

verus! {

/// The exact heading line of a well formed `Unreleased` section.
pub open spec fn unreleased_heading() -> Seq<char> {
    "## [Unreleased]"@
}

/// The exact start of the `Unreleased` link reference definition.
pub open spec fn unreleased_link_prefix() -> Seq<char> {
    "[Unreleased]: "@
}

/// A link reference definition, `[label]: target`.
pub open spec fn is_link_reference_line(line: Seq<char>) -> bool {
    starts_with(line, "["@) && contains_seq(line, "]:"@)
}

/// A second-level heading.
pub open spec fn is_heading(line: Seq<char>) -> bool {
    starts_with(line, "## "@)
}

/// The release heading for exactly `version`: `## [version]` followed by the
/// end of the line or ` - `, so `0.1.1` never matches `0.1.10` or
/// `0.1.1-rc.1`.
pub open spec fn heading_matches_version(line: Seq<char>, version: Seq<char>) -> bool {
    let prefix = "## ["@ + version + "]"@;
    starts_with(line, prefix) && (line.len() == prefix.len() || starts_with(line.skip(prefix.len() as int), " - "@))
}

/// A heading that mentions "unreleased" in any case. (Lowercasing by ASCII
/// rules or by Unicode rules gives the same answer here: no character
/// outside ASCII lowercases to one of the letters of "unreleased".)
pub open spec fn looks_unreleased(line: Seq<char>) -> bool {
    is_heading(line) && contains_seq(lower_all(line), "unreleased"@)
}

/// The first index at or after `i` of the exact `## [Unreleased]` line.
pub open spec fn exact_heading_from(lines: Seq<Seq<char>>, i: int) -> Option<int>
    decreases lines.len() - i,
{
    if i < 0 || i >= lines.len() {
        None
    } else if lines[i] == unreleased_heading() {
        Some(i)
    } else {
        exact_heading_from(lines, i + 1)
    }
}

/// The first index at or after `i` of a heading that looks like the
/// unreleased one.
pub open spec fn malformed_from(lines: Seq<Seq<char>>, i: int) -> Option<int>
    decreases lines.len() - i,
{
    if i < 0 || i >= lines.len() {
        None
    } else if looks_unreleased(lines[i]) {
        Some(i)
    } else {
        malformed_from(lines, i + 1)
    }
}

/// The index of the `## [Unreleased]` heading, or the error for its absence:
/// a heading that looks like it in another form is reported first.
pub open spec fn unreleased_index(lines: Seq<Seq<char>>) -> Result<int, XtaskErrorView> {
    match exact_heading_from(lines, 0) {
        Some(i) => Ok(i),
        None => match malformed_from(lines, 0) {
            Some(i) => Err(XtaskErrorView::MalformedUnreleasedHeading { line: lines[i] }),
            None => Err(XtaskErrorView::MissingUnreleasedSection),
        },
    }
}

/// The index right after a section's body starting at `i`: the next `## `
/// heading, the first link reference definition, or the end.
pub open spec fn section_end_from(lines: Seq<Seq<char>>, i: int) -> int
    decreases lines.len() - i,
{
    if i < 0 || i >= lines.len() {
        lines.len() as int
    } else if is_heading(lines[i]) || is_link_reference_line(lines[i]) {
        i
    } else {
        section_end_from(lines, i + 1)
    }
}

/// The number of blank lines at the start.
pub open spec fn leading_blank(lines: Seq<Seq<char>>) -> nat
    decreases lines.len(),
{
    if lines.len() > 0 && all_space(lines[0]) {
        1 + leading_blank(lines.drop_first())
    } else {
        0
    }
}

/// The number of blank lines at the end.
pub open spec fn trailing_blank(lines: Seq<Seq<char>>) -> nat
    decreases lines.len(),
{
    if lines.len() > 0 && all_space(lines.last()) {
        1 + trailing_blank(lines.drop_last())
    } else {
        0
    }
}

/// The lines without blank lines (empty once trimmed) at either end.
pub open spec fn trim_blank_lines(lines: Seq<Seq<char>>) -> Seq<Seq<char>> {
    let rest = lines.skip(leading_blank(lines) as int);
    rest.take(rest.len() - trailing_blank(rest))
}

/// Some line is a bullet, `- ...`.
pub open spec fn has_bullet(lines: Seq<Seq<char>>) -> bool {
    exists|i: int| 0 <= i < lines.len() && starts_with(#[trigger] lines[i], "- "@)
}

/// Some line is the release heading of `version`.
pub open spec fn is_released(lines: Seq<Seq<char>>, version: Seq<char>) -> bool {
    exists|i: int| 0 <= i < lines.len() && heading_matches_version(#[trigger] lines[i], version)
}

/// The first index at or after `i` of the `[Unreleased]: ` definition.
pub open spec fn link_index_from(lines: Seq<Seq<char>>, i: int) -> Option<int>
    decreases lines.len() - i,
{
    if i < 0 || i >= lines.len() {
        None
    } else if starts_with(lines[i], unreleased_link_prefix()) {
        Some(i)
    } else {
        link_index_from(lines, i + 1)
    }
}

/// The compare URL prefix (up to and including `compare/`) and the previous
/// version of an `[Unreleased]: <prefix>v<previous>...HEAD` definition.
pub open spec fn split_unreleased_link(line: Seq<char>) -> Option<(Seq<char>, Seq<char>)> {
    if starts_with(line, unreleased_link_prefix()) {
        let target = line.skip(14);
        match find_seq(target, "compare/v"@) {
            Some(c) => {
                let after = target.skip(c + 9);
                if after.len() >= 7 && after.skip(after.len() - 7) == "...HEAD"@ {
                    Some((target.take(c + 8), after.take(after.len() - 7)))
                } else {
                    None
                }
            },
            None => None,
        }
    } else {
        None
    }
}

/// The lines of a graduated changelog: everything before the `Unreleased`
/// heading, an empty `Unreleased` section, the new version heading with the
/// trimmed former unreleased body, and everything after that body with the
/// `Unreleased` definition replaced by the new compare links.
pub open spec fn graduated_lines(
    lines: Seq<Seq<char>>,
    heading: int,
    end: int,
    link: int,
    version: Seq<char>,
    date: Seq<char>,
    prefix: Seq<char>,
    previous: Seq<char>,
) -> Seq<Seq<char>> {
    let new_unreleased = "[Unreleased]: "@ + prefix + "v"@ + version + "...HEAD"@;
    let new_version = "["@ + version + "]: "@ + prefix + "v"@ + previous + "...v"@ + version;
    let body = trim_blank_lines(lines.subrange(heading + 1, end));
    lines.take(heading) + seq![unreleased_heading(), Seq::empty(), "## ["@ + version + "] - "@ + date, Seq::empty()]
        + body + seq![Seq::<char>::empty()] + lines.subrange(end, link) + seq![new_unreleased, new_version]
        + lines.skip(link + 1)
}

/// The graduated changelog, or why it cannot be graduated, checked in this
/// order: the `Unreleased` heading, a bullet in its body, the version not
/// yet released, the `Unreleased` definition after the body.
pub open spec fn graduation(changelog: Seq<char>, version: (nat, nat, nat), date: Seq<char>) -> Result<Seq<char>, XtaskErrorView> {
    let lines = split_on(changelog, '\n');
    let v = version_text(version);
    match unreleased_index(lines) {
        Err(e) => Err(e),
        Ok(h) => {
            let end = section_end_from(lines, h + 1);
            if !has_bullet(trim_blank_lines(lines.subrange(h + 1, end))) {
                Err(XtaskErrorView::EmptyUnreleasedSection)
            } else if is_released(lines, v) {
                Err(XtaskErrorView::VersionAlreadyReleased { version: v })
            } else {
                match link_index_from(lines, end) {
                    None => Err(XtaskErrorView::MissingUnreleasedLink),
                    Some(link) => match split_unreleased_link(lines[link]) {
                        None => Err(XtaskErrorView::MissingUnreleasedLink),
                        Some((prefix, previous)) => Ok(join(graduated_lines(lines, h, end, link, v, date, prefix, previous), "\n"@)),
                    },
                }
            }
        },
    }
}

/// The first index of the release heading of `version`.
pub open spec fn version_heading_from(lines: Seq<Seq<char>>, i: int, version: Seq<char>) -> Option<int>
    decreases lines.len() - i,
{
    if i < 0 || i >= lines.len() {
        None
    } else if heading_matches_version(lines[i], version) {
        Some(i)
    } else {
        version_heading_from(lines, i + 1, version)
    }
}

/// The body of the `## [version]` section, trimmed of blank lines at either
/// end, without its heading.
pub open spec fn notes_of(changelog: Seq<char>, version: Seq<char>) -> Result<Seq<char>, XtaskErrorView> {
    let lines = split_on(changelog, '\n');
    match version_heading_from(lines, 0, version) {
        None => Err(XtaskErrorView::SectionNotFound { version }),
        Some(h) => {
            let body = trim_blank_lines(lines.subrange(h + 1, section_end_from(lines, h + 1)));
            if body.len() == 0 {
                Err(XtaskErrorView::EmptySection { version })
            } else {
                Ok(join(body, "\n"@))
            }
        },
    }
}

// ---------------------------------------------------------------------------
// Line predicates
// ---------------------------------------------------------------------------

fn link_reference_line(line: &[char]) -> (b: bool)
    ensures
        b == is_link_reference_line(line@),
{
    let bracket = chars_of("]:");
    chars_starts_with_str(line, "[") && chars_contains(line, bracket.as_slice())
}

fn heading_line(line: &[char]) -> (b: bool)
    ensures
        b == is_heading(line@),
{
    chars_starts_with_str(line, "## ")
}

fn matches_version(line: &[char], version: &[char]) -> (b: bool)
    ensures
        b == heading_matches_version(line@, version@),
{
    let mut prefix = chars_of("## [");
    push_all(&mut prefix, version);
    push_str(&mut prefix, "]");
    if !chars_starts_with(line, prefix.as_slice()) {
        return false;
    }
    let rest = slice_chars(line, prefix.len(), line.len());
    assert(rest@ =~= line@.skip(prefix@.len() as int));
    rest.len() == 0 || chars_starts_with_str(rest.as_slice(), " - ")
}

fn unreleased_lookalike(line: &[char]) -> (b: bool)
    ensures
        b == looks_unreleased(line@),
{
    let lowered = chars_lower(line);
    let word = chars_of("unreleased");
    heading_line(line) && chars_contains(lowered.as_slice(), word.as_slice())
}

fn all_blank(line: &[char]) -> (b: bool)
    ensures
        b == all_space(line@),
{
    let mut i: usize = 0;
    while i < line.len()
        invariant
            i <= line.len(),
            forall|k: int| 0 <= k < i ==> crate::text::is_space(#[trigger] line@[k]),
        decreases line.len() - i,
    {
        if !crate::text::char_is_space(line[i]) {
            return false;
        }
        i = i + 1;
    }
    true
}

// ---------------------------------------------------------------------------
// Scans
// ---------------------------------------------------------------------------

/// Finds the index of the exact `## [Unreleased]` heading line.
fn find_unreleased_heading_index(lines: &Vec<Vec<char>>) -> (r: Result<usize, XtaskError>)
    ensures
        match (r, unreleased_index(views(lines@))) {
            (Ok(i), Ok(j)) => i == j && i < lines@.len(),
            (Err(e), Err(w)) => e@ == w,
            _ => false,
        },
{
    let ghost all = views(lines@);
    let mut i: usize = 0;
    while i < lines.len()
        invariant
            i <= lines.len(),
            all == views(lines@),
            exact_heading_from(all, 0) == exact_heading_from(all, i as int),
        decreases lines.len() - i,
    {
        assert(all[i as int] == lines@[i as int]@);
        if chars_eq_str(lines[i].as_slice(), "## [Unreleased]") {
            return Ok(i);
        }
        i = i + 1;
    }
    let mut j: usize = 0;
    while j < lines.len()
        invariant
            j <= lines.len(),
            all == views(lines@),
            exact_heading_from(all, 0) is None,
            malformed_from(all, 0) == malformed_from(all, j as int),
        decreases lines.len() - j,
    {
        assert(all[j as int] == lines@[j as int]@);
        if unreleased_lookalike(lines[j].as_slice()) {
            return Err(XtaskError::MalformedUnreleasedHeading { line: string_from_chars(lines[j].as_slice()) });
        }
        j = j + 1;
    }
    Err(XtaskError::MissingUnreleasedSection)
}

/// The index right after a section's body starting at `start`.
fn find_section_end(lines: &Vec<Vec<char>>, start: usize) -> (end: usize)
    requires
        start <= lines@.len(),
    ensures
        end == section_end_from(views(lines@), start as int),
        start <= end <= lines@.len(),
{
    let ghost all = views(lines@);
    let mut i: usize = start;
    while i < lines.len()
        invariant
            start <= i <= lines.len(),
            all == views(lines@),
            section_end_from(all, start as int) == section_end_from(all, i as int),
        decreases lines.len() - i,
    {
        assert(all[i as int] == lines@[i as int]@);
        if heading_line(lines[i].as_slice()) || link_reference_line(lines[i].as_slice()) {
            return i;
        }
        i = i + 1;
    }
    i
}

proof fn lemma_leading_blank(lines: Seq<Seq<char>>, k: int)
    requires
        0 <= k <= lines.len(),
        forall|j: int| 0 <= j < k ==> all_space(#[trigger] lines[j]),
        k == lines.len() || !all_space(lines[k]),
    ensures
        leading_blank(lines) == k,
    decreases k,
{
    if k > 0 {
        assert(all_space(lines[0]));
        lemma_leading_blank(lines.drop_first(), k - 1);
    }
}

proof fn lemma_trailing_blank(lines: Seq<Seq<char>>, k: int)
    requires
        0 <= k <= lines.len(),
        forall|j: int| k <= j < lines.len() ==> all_space(#[trigger] lines[j]),
        k == 0 || !all_space(lines[k - 1]),
    ensures
        trailing_blank(lines) == lines.len() - k,
    decreases lines.len() - k,
{
    if k < lines.len() {
        assert(all_space(lines.last()));
        lemma_trailing_blank(lines.drop_last(), k);
    }
}

/// The range `[from, to)` of the lines between `start` and `end` left once
/// blank lines are trimmed from both ends.
fn trimmed_range(lines: &Vec<Vec<char>>, start: usize, end: usize) -> (r: (usize, usize))
    requires
        start <= end <= lines@.len(),
    ensures
        start <= r.0 <= r.1 <= end,
        views(lines@).subrange(r.0 as int, r.1 as int) == trim_blank_lines(views(lines@).subrange(start as int, end as int)),
{
    let ghost all = views(lines@);
    let ghost body = all.subrange(start as int, end as int);
    let mut from = start;
    while from < end && all_blank(lines[from].as_slice())
        invariant
            start <= from <= end <= lines@.len(),
            all == views(lines@),
            body == all.subrange(start as int, end as int),
            forall|j: int| start <= j < from ==> all_space(#[trigger] all[j]),
        decreases end - from,
    {
        assert(all[from as int] == lines@[from as int]@);
        from = from + 1;
    }
    proof {
        if from < end {
            assert(all[from as int] == lines@[from as int]@);
        }
        assert forall|j: int| 0 <= j < from - start implies all_space(#[trigger] body[j]) by {
            assert(body[j] == all[start + j]);
        }
        lemma_leading_blank(body, from - start);
    }
    let mut to = end;
    while to > from && all_blank(lines[to - 1].as_slice())
        invariant
            start <= from <= to <= end <= lines@.len(),
            all == views(lines@),
            forall|j: int| to <= j < end ==> all_space(#[trigger] all[j]),
        decreases to - from,
    {
        assert(all[to - 1] == lines@[to - 1]@);
        to = to - 1;
    }
    proof {
        let rest = body.skip(from - start);
        if to > from {
            assert(all[to - 1] == lines@[to - 1]@);
            assert(rest[to - 1 - from] == all[to - 1]);
        }
        assert forall|j: int| to - from <= j < rest.len() implies all_space(#[trigger] rest[j]) by {
            assert(rest[j] == all[from + j]);
        }
        lemma_trailing_blank(rest, to - from);
        assert(all.subrange(from as int, to as int) =~= rest.take(rest.len() - trailing_blank(rest)));
    }
    (from, to)
}

/// Some line of `lines[from..to]` is a bullet.
fn any_bullet(lines: &Vec<Vec<char>>, from: usize, to: usize) -> (b: bool)
    requires
        from <= to <= lines@.len(),
    ensures
        b == has_bullet(views(lines@).subrange(from as int, to as int)),
{
    let ghost part = views(lines@).subrange(from as int, to as int);
    let mut i = from;
    while i < to
        invariant
            from <= i <= to <= lines@.len(),
            part == views(lines@).subrange(from as int, to as int),
            forall|k: int| 0 <= k < i - from ==> !starts_with(#[trigger] part[k], "- "@),
        decreases to - i,
    {
        assert(part[i - from] == lines@[i as int]@);
        if chars_starts_with_str(lines[i].as_slice(), "- ") {
            return true;
        }
        i = i + 1;
    }
    false
}

/// Some line is the release heading of `version`.
fn any_release_heading(lines: &Vec<Vec<char>>, version: &[char]) -> (b: bool)
    ensures
        b == is_released(views(lines@), version@),
{
    let ghost all = views(lines@);
    let mut i: usize = 0;
    while i < lines.len()
        invariant
            i <= lines.len(),
            all == views(lines@),
            forall|k: int| 0 <= k < i ==> !heading_matches_version(#[trigger] all[k], version@),
        decreases lines.len() - i,
    {
        assert(all[i as int] == lines@[i as int]@);
        if matches_version(lines[i].as_slice(), version) {
            return true;
        }
        i = i + 1;
    }
    false
}

/// The first index at or after `start` of the `[Unreleased]: ` definition.
fn find_link_index(lines: &Vec<Vec<char>>, start: usize) -> (r: Option<usize>)
    requires
        start <= lines@.len(),
    ensures
        r matches Some(i) ==> link_index_from(views(lines@), start as int) == Some(i as int) && start <= i < lines@.len(),
        r is None ==> link_index_from(views(lines@), start as int) is None,
{
    let ghost all = views(lines@);
    let mut i: usize = start;
    while i < lines.len()
        invariant
            start <= i <= lines.len(),
            all == views(lines@),
            link_index_from(all, start as int) == link_index_from(all, i as int),
        decreases lines.len() - i,
    {
        assert(all[i as int] == lines@[i as int]@);
        if chars_starts_with_str(lines[i].as_slice(), "[Unreleased]: ") {
            return Some(i);
        }
        i = i + 1;
    }
    None
}

/// The first index of the release heading of `version`.
fn find_version_heading(lines: &Vec<Vec<char>>, version: &[char]) -> (r: Option<usize>)
    ensures
        r matches Some(i) ==> version_heading_from(views(lines@), 0, version@) == Some(i as int) && i < lines@.len(),
        r is None ==> version_heading_from(views(lines@), 0, version@) is None,
{
    let ghost all = views(lines@);
    let mut i: usize = 0;
    while i < lines.len()
        invariant
            i <= lines.len(),
            all == views(lines@),
            version_heading_from(all, 0, version@) == version_heading_from(all, i as int, version@),
        decreases lines.len() - i,
    {
        assert(all[i as int] == lines@[i as int]@);
        if matches_version(lines[i].as_slice(), version) {
            return Some(i);
        }
        i = i + 1;
    }
    None
}

/// Splits an `[Unreleased]: <prefix>v<previous>...HEAD` definition.
#[verifier::rlimit(40)]
fn split_link(line: &[char]) -> (r: Option<(Vec<char>, Vec<char>)>)
    ensures
        match r {
            Some((p, v)) => split_unreleased_link(line@) == Some((p@, v@)),
            None => split_unreleased_link(line@) is None,
        },
{
    proof {
        reveal_strlit("[Unreleased]: ");
        reveal_strlit("...HEAD");
        reveal_strlit("compare/v");
    }
    if !chars_starts_with_str(line, "[Unreleased]: ") {
        return None;
    }
    let target = slice_chars(line, 14, line.len());
    assert(target@ =~= line@.skip(14));
    let marker = chars_of("compare/v");
    let c = match chars_find(target.as_slice(), marker.as_slice()) {
        Some(c) => c,
        None => {
            return None;
        },
    };
    let after = slice_chars(target.as_slice(), c + 9, target.len());
    assert(after@ =~= target@.skip(c + 9));
    if after.len() < 7 {
        return None;
    }
    let tail = slice_chars(after.as_slice(), after.len() - 7, after.len());
    assert(tail@ =~= after@.skip(after@.len() - 7));
    if !chars_eq_str(tail.as_slice(), "...HEAD") {
        return None;
    }
    let prefix = slice_chars(target.as_slice(), 0, c + 8);
    let previous = slice_chars(after.as_slice(), 0, after.len() - 7);
    assert(prefix@ =~= target@.take(c + 8));
    assert(previous@ =~= after@.take(after@.len() - 7));
    Some((prefix, previous))
}

// ---------------------------------------------------------------------------
// Graduation and release notes
// ---------------------------------------------------------------------------

/// Appends copies of `lines[from..to]`.
fn push_lines(out: &mut Vec<Vec<char>>, lines: &Vec<Vec<char>>, from: usize, to: usize)
    requires
        from <= to <= lines@.len(),
    ensures
        views(final(out)@) == views(old(out)@) + views(lines@).subrange(from as int, to as int),
{
    let ghost start = views(out@);
    let mut i = from;
    while i < to
        invariant
            from <= i <= to <= lines@.len(),
            views(out@) == start + views(lines@).subrange(from as int, i as int),
        decreases to - i,
    {
        let ghost before = out@;
        let copy = slice_chars(lines[i].as_slice(), 0, lines[i].len());
        assert(copy@ =~= lines@[i as int]@);
        out.push(copy);
        proof {
            assert(out@.drop_last() == before);
            assert(views(out@) =~= views(before).push(lines@[i as int]@));
            assert(views(lines@).subrange(from as int, i + 1) =~= views(lines@).subrange(from as int, i as int).push(lines@[i as int]@));
        }
        i = i + 1;
    }
}

/// Appends one line.
fn push_line(out: &mut Vec<Vec<char>>, line: Vec<char>)
    ensures
        views(final(out)@) == views(old(out)@).push(line@),
{
    let ghost before = out@;
    out.push(line);
    assert(out@.drop_last() == before);
    assert(views(out@) =~= views(before).push(line@));
}

/// Moves the `## [Unreleased]` body under a new `## [version] - date`
/// heading, updates the link reference definitions accordingly, and keeps an
/// empty `## [Unreleased]` heading at the top.
///
/// # Errors
///
/// [`XtaskError::MalformedUnreleasedHeading`],
/// [`XtaskError::MissingUnreleasedSection`],
/// [`XtaskError::EmptyUnreleasedSection`],
/// [`XtaskError::VersionAlreadyReleased`] or
/// [`XtaskError::MissingUnreleasedLink`], in the order of the checks.
#[verifier::rlimit(60)]
pub fn graduate(changelog: &str, version: &Version, date: &str) -> (r: Result<String, XtaskError>)
    ensures
        match (r, graduation(changelog@, version@, date@)) {
            (Ok(s), Ok(w)) => s@ == w,
            (Err(e), Err(w)) => e@ == w,
            _ => false,
        },
{
    let chars = chars_of(changelog);
    let lines = chars_split(chars.as_slice(), '\n');
    let ghost all = views(lines@);
    let h = match find_unreleased_heading_index(&lines) {
        Ok(h) => h,
        Err(e) => {
            return Err(e);
        },
    };
    assert(h < lines.len());
    let end = find_section_end(&lines, h + 1);
    let (from, to) = trimmed_range(&lines, h + 1, end);
    if !any_bullet(&lines, from, to) {
        return Err(XtaskError::EmptyUnreleasedSection);
    }
    let v = version.text();
    if any_release_heading(&lines, v.as_slice()) {
        return Err(XtaskError::VersionAlreadyReleased { version: string_from_chars(v.as_slice()) });
    }
    let link = match find_link_index(&lines, end) {
        Some(link) => link,
        None => {
            return Err(XtaskError::MissingUnreleasedLink);
        },
    };
    assert(all[link as int] == lines@[link as int]@);
    let (prefix, previous) = match split_link(lines[link].as_slice()) {
        Some(parts) => parts,
        None => {
            return Err(XtaskError::MissingUnreleasedLink);
        },
    };
    let mut new_unreleased = chars_of("[Unreleased]: ");
    push_all(&mut new_unreleased, prefix.as_slice());
    push_str(&mut new_unreleased, "v");
    push_all(&mut new_unreleased, v.as_slice());
    push_str(&mut new_unreleased, "...HEAD");
    let mut new_version = chars_of("[");
    push_all(&mut new_version, v.as_slice());
    push_str(&mut new_version, "]: ");
    push_all(&mut new_version, prefix.as_slice());
    push_str(&mut new_version, "v");
    push_all(&mut new_version, previous.as_slice());
    push_str(&mut new_version, "...v");
    push_all(&mut new_version, v.as_slice());
    let mut heading = chars_of("## [");
    push_all(&mut heading, v.as_slice());
    push_str(&mut heading, "] - ");
    let d = chars_of(date);
    push_all(&mut heading, d.as_slice());

    let mut out: Vec<Vec<char>> = Vec::new();
    push_lines(&mut out, &lines, 0, h);
    push_line(&mut out, chars_of("## [Unreleased]"));
    push_line(&mut out, Vec::new());
    push_line(&mut out, heading);
    push_line(&mut out, Vec::new());
    push_lines(&mut out, &lines, from, to);
    push_line(&mut out, Vec::new());
    push_lines(&mut out, &lines, end, link);
    push_line(&mut out, new_unreleased);
    push_line(&mut out, new_version);
    push_lines(&mut out, &lines, link + 1, lines.len());
    proof {
        let expected = graduated_lines(all, h as int, end as int, link as int, version_text(version@), date@, prefix@, previous@);
        assert(views(out@) =~= expected);
    }
    let newline = chars_of("\n");
    let joined = chars_join(out.as_slice(), newline.as_slice());
    Ok(string_from_chars(joined.as_slice()))
}

/// Extracts the body of the `## [version]` section, trimmed of leading and
/// trailing blank lines, without its heading.
///
/// # Errors
///
/// [`XtaskError::SectionNotFound`] when there is no such section, and
/// [`XtaskError::EmptySection`] when its body is blank.
pub fn release_notes(changelog: &str, version: &str) -> (r: Result<String, XtaskError>)
    ensures
        match (r, notes_of(changelog@, version@)) {
            (Ok(s), Ok(w)) => s@ == w,
            (Err(e), Err(w)) => e@ == w,
            _ => false,
        },
{
    let chars = chars_of(changelog);
    let lines = chars_split(chars.as_slice(), '\n');
    let v = chars_of(version);
    let h = match find_version_heading(&lines, v.as_slice()) {
        Some(h) => h,
        None => {
            return Err(XtaskError::SectionNotFound { version: version.to_owned() });
        },
    };
    assert(h < lines.len());
    let end = find_section_end(&lines, h + 1);
    let (from, to) = trimmed_range(&lines, h + 1, end);
    if from == to {
        return Err(XtaskError::EmptySection { version: version.to_owned() });
    }
    let mut out: Vec<Vec<char>> = Vec::new();
    push_lines(&mut out, &lines, from, to);
    assert(views(out@) =~= views(lines@).subrange(from as int, to as int));
    let newline = chars_of("\n");
    let joined = chars_join(out.as_slice(), newline.as_slice());
    Ok(string_from_chars(joined.as_slice()))
}

// ---------------------------------------------------------------------------
// Laws
// ---------------------------------------------------------------------------

/// A line free of line breaks.
pub open spec fn plain(line: Seq<char>) -> bool {
    !line.contains('\n')
}

proof fn lemma_leading_blank_bound(lines: Seq<Seq<char>>)
    ensures
        leading_blank(lines) <= lines.len(),
        forall|k: int| 0 <= k < leading_blank(lines) ==> all_space(#[trigger] lines[k]),
        leading_blank(lines) == lines.len() || !all_space(lines[leading_blank(lines) as int]),
    decreases lines.len(),
{
    if lines.len() > 0 && all_space(lines[0]) {
        let rest = lines.drop_first();
        lemma_leading_blank_bound(rest);
        assert forall|k: int| 0 <= k < leading_blank(lines) implies all_space(#[trigger] lines[k]) by {
            if k > 0 {
                assert(lines[k] == rest[k - 1]);
            }
        }
        if leading_blank(lines) < lines.len() {
            assert(lines[leading_blank(lines) as int] == rest[leading_blank(rest) as int]);
        }
    }
}

proof fn lemma_trailing_blank_bound(lines: Seq<Seq<char>>)
    ensures
        trailing_blank(lines) <= lines.len(),
        trailing_blank(lines) == lines.len() || !all_space(lines[lines.len() - trailing_blank(lines) - 1]),
    decreases lines.len(),
{
    if lines.len() > 0 && all_space(lines.last()) {
        let rest = lines.drop_last();
        lemma_trailing_blank_bound(rest);
        if trailing_blank(lines) < lines.len() {
            assert(lines[lines.len() - trailing_blank(lines) - 1] == rest[rest.len() - trailing_blank(rest) - 1]);
        }
    }
}

/// The trimmed lines are a run of the lines whose ends are not blank.
proof fn lemma_trimmed(lines: Seq<Seq<char>>)
    ensures
        ({
            let t = trim_blank_lines(lines);
            let lb = leading_blank(lines) as int;
            &&& lb + t.len() <= lines.len()
            &&& forall|k: int| 0 <= k < t.len() ==> #[trigger] t[k] == lines[lb + k]
            &&& t.len() > 0 ==> !all_space(t[0]) && !all_space(t.last())
        }),
{
    lemma_leading_blank_bound(lines);
    let lb = leading_blank(lines) as int;
    let rest = lines.skip(lb);
    lemma_trailing_blank_bound(rest);
    let t = trim_blank_lines(lines);
    if t.len() > 0 {
        assert(t[0] == lines[lb]);
        assert(t.last() == rest[rest.len() - trailing_blank(rest) - 1]);
    }
}

/// Lines with non-blank ends, between two blank lines, trim back to
/// themselves.
proof fn lemma_trim_padded(body: Seq<Seq<char>>)
    requires
        body.len() > 0,
        !all_space(body[0]),
        !all_space(body.last()),
    ensures
        trim_blank_lines(seq![Seq::<char>::empty()] + body + seq![Seq::<char>::empty()]) == body,
{
    let padded = seq![Seq::<char>::empty()] + body + seq![Seq::<char>::empty()];
    assert(all_space(Seq::<char>::empty()));
    assert forall|j: int| 0 <= j < 1 implies all_space(#[trigger] padded[j]) by {}
    assert(padded[1] == body[0]);
    lemma_leading_blank(padded, 1);
    let rest = padded.skip(1);
    assert(rest =~= body + seq![Seq::<char>::empty()]);
    assert forall|j: int| rest.len() - 1 <= j < rest.len() implies all_space(#[trigger] rest[j]) by {}
    assert(rest[rest.len() - 2] == body.last());
    lemma_trailing_blank(rest, rest.len() - 1);
    assert(rest.take(rest.len() - 1) =~= body);
}

proof fn lemma_version_heading_at(lines: Seq<Seq<char>>, i: int, j: int, version: Seq<char>)
    requires
        0 <= i <= j < lines.len(),
        forall|k: int| i <= k < j ==> !heading_matches_version(#[trigger] lines[k], version),
        heading_matches_version(lines[j], version),
    ensures
        version_heading_from(lines, i, version) == Some(j),
    decreases j - i,
{
    if i < j {
        lemma_version_heading_at(lines, i + 1, j, version);
    }
}

proof fn lemma_section_end_at(lines: Seq<Seq<char>>, i: int, j: int)
    requires
        0 <= i <= j < lines.len(),
        forall|k: int| i <= k < j ==> !(is_heading(#[trigger] lines[k]) || is_link_reference_line(lines[k])),
        is_heading(lines[j]) || is_link_reference_line(lines[j]),
    ensures
        section_end_from(lines, i) == j,
    decreases j - i,
{
    if i < j {
        lemma_section_end_at(lines, i + 1, j);
    }
}

proof fn lemma_section_end_facts(lines: Seq<Seq<char>>, i: int)
    requires
        0 <= i <= lines.len(),
    ensures
        i <= section_end_from(lines, i) <= lines.len(),
        forall|k: int| i <= k < section_end_from(lines, i) ==> !(is_heading(#[trigger] lines[k]) || is_link_reference_line(lines[k])),
        section_end_from(lines, i) < lines.len() ==> is_heading(lines[section_end_from(lines, i)]) || is_link_reference_line(lines[section_end_from(lines, i)]),
    decreases lines.len() - i,
{
    if i < lines.len() && !(is_heading(lines[i]) || is_link_reference_line(lines[i])) {
        lemma_section_end_facts(lines, i + 1);
    }
}

proof fn lemma_link_index_facts(lines: Seq<Seq<char>>, i: int)
    requires
        0 <= i,
        link_index_from(lines, i) is Some,
    ensures
        i <= link_index_from(lines, i)->Some_0 < lines.len(),
    decreases lines.len() - i,
{
    if i < lines.len() && !starts_with(lines[i], unreleased_link_prefix()) {
        lemma_link_index_facts(lines, i + 1);
    }
}

proof fn lemma_unreleased_index_facts(lines: Seq<Seq<char>>, i: int)
    requires
        0 <= i,
        exact_heading_from(lines, i) is Some,
    ensures
        i <= exact_heading_from(lines, i)->Some_0 < lines.len(),
        lines[exact_heading_from(lines, i)->Some_0] == unreleased_heading(),
    decreases lines.len() - i,
{
    if i < lines.len() && lines[i] != unreleased_heading() {
        lemma_unreleased_index_facts(lines, i + 1);
    }
}

/// Parts of a plain line are plain.
proof fn lemma_plain_parts(line: Seq<char>, a: int, b: int)
    requires
        plain(line),
        0 <= a <= b <= line.len(),
    ensures
        plain(line.subrange(a, b)),
{
    if line.subrange(a, b).contains('\n') {
        let w = choose|w: int| 0 <= w < b - a && line.subrange(a, b)[w] == '\n';
        assert(line[a + w] == '\n');
    }
}

/// A concatenation of plain texts is plain.
proof fn lemma_plain_concat(x: Seq<char>, y: Seq<char>)
    requires
        plain(x),
        plain(y),
    ensures
        plain(x + y),
{
    if (x + y).contains('\n') {
        let w = choose|w: int| 0 <= w < x.len() + y.len() && (x + y)[w] == '\n';
        if w < x.len() {
            assert(x[w] == '\n');
        } else {
            assert(y[w - x.len()] == '\n');
        }
    }
}

/// The text of a version is plain and starts with a digit.
proof fn lemma_version_text_shape(v: (nat, nat, nat))
    ensures
        plain(version_text(v)),
        version_text(v).len() > 0,
        crate::text::is_digit(version_text(v)[0]),
{
    reveal_strlit(".");
    crate::text::lemma_decimal(v.0);
    crate::text::lemma_decimal(v.1);
    crate::text::lemma_decimal(v.2);
    let a = crate::text::decimal(v.0);
    let b = crate::text::decimal(v.1);
    let c = crate::text::decimal(v.2);
    assert forall|k: int| 0 <= k < a.len() implies a[k] != '\n' by {
        assert(crate::text::is_digit(a[k]));
    }
    assert forall|k: int| 0 <= k < b.len() implies b[k] != '\n' by {
        assert(crate::text::is_digit(b[k]));
    }
    assert forall|k: int| 0 <= k < c.len() implies c[k] != '\n' by {
        assert(crate::text::is_digit(c[k]));
    }
    lemma_plain_concat(a, "."@);
    lemma_plain_concat(a + "."@, b);
    lemma_plain_concat(a + "."@ + b, "."@);
    lemma_plain_concat(a + "."@ + b + "."@, c);
    assert(version_text(v)[0] == a[0]);
}

/// Every line of a graduated changelog is plain when its ingredients are.
#[verifier::rlimit(60)]
proof fn lemma_graduated_plain(
    lines: Seq<Seq<char>>,
    h: int,
    end: int,
    link: int,
    version: Seq<char>,
    date: Seq<char>,
    prefix: Seq<char>,
    previous: Seq<char>,
)
    requires
        0 <= h < end <= link < lines.len(),
        forall|k: int| 0 <= k < lines.len() ==> plain(#[trigger] lines[k]),
        plain(version),
        plain(date),
        plain(prefix),
        plain(previous),
    ensures
        ({
            let g = graduated_lines(lines, h, end, link, version, date, prefix, previous);
            forall|k: int| 0 <= k < g.len() ==> plain(#[trigger] g[k])
        }),
{
    reveal_strlit("## [Unreleased]");
    reveal_strlit("## [");
    reveal_strlit("] - ");
    reveal_strlit("[Unreleased]: ");
    reveal_strlit("[");
    reveal_strlit("v");
    reveal_strlit("...HEAD");
    reveal_strlit("]: ");
    reveal_strlit("...v");
    let raw = lines.subrange(h + 1, end);
    let body = trim_blank_lines(raw);
    lemma_trimmed(raw);
    let b = body.len() as int;
    let new_unreleased = "[Unreleased]: "@ + prefix + "v"@ + version + "...HEAD"@;
    let new_version = "["@ + version + "]: "@ + prefix + "v"@ + previous + "...v"@ + version;
    let heading = "## ["@ + version + "] - "@ + date;
    assert(plain(heading)) by {
        lemma_plain_concat("## ["@, version);
        lemma_plain_concat("## ["@ + version, "] - "@);
        lemma_plain_concat("## ["@ + version + "] - "@, date);
    }
    assert(plain(new_unreleased)) by {
        lemma_plain_concat("[Unreleased]: "@, prefix);
        lemma_plain_concat("[Unreleased]: "@ + prefix, "v"@);
        lemma_plain_concat("[Unreleased]: "@ + prefix + "v"@, version);
        lemma_plain_concat("[Unreleased]: "@ + prefix + "v"@ + version, "...HEAD"@);
    }
    assert(plain(new_version)) by {
        lemma_plain_concat("["@, version);
        lemma_plain_concat("["@ + version, "]: "@);
        lemma_plain_concat("["@ + version + "]: "@, prefix);
        lemma_plain_concat("["@ + version + "]: "@ + prefix, "v"@);
        lemma_plain_concat("["@ + version + "]: "@ + prefix + "v"@, previous);
        lemma_plain_concat("["@ + version + "]: "@ + prefix + "v"@ + previous, "...v"@);
        lemma_plain_concat("["@ + version + "]: "@ + prefix + "v"@ + previous + "...v"@, version);
    }
    assert(plain(unreleased_heading()));
    assert(plain(Seq::<char>::empty()));
    let g = graduated_lines(lines, h, end, link, version, date, prefix, previous);
    assert forall|k: int| 0 <= k < g.len() implies plain(#[trigger] g[k]) by {
        if k < h {
            assert(g[k] == lines[k]);
        } else if k < h + 4 {
        } else if k < h + 4 + b {
            assert(g[k] == body[k - h - 4]);
            assert(body[k - h - 4] == raw[leading_blank(raw) + k - h - 4]);
        } else if k == h + 4 + b {
        } else if k < h + 5 + b + (link - end) {
            assert(g[k] == lines[end + k - h - 5 - b]);
        } else if k == h + 5 + b + (link - end) {
        } else if k == h + 6 + b + (link - end) {
        } else {
            assert(g[k] == lines[link + 1 + k - h - 7 - b - (link - end)]);
        }
    }
}

/// The first release heading of the version in a graduated changelog is
/// the new one, two lines below the kept `Unreleased` heading.
#[verifier::rlimit(60)]
proof fn lemma_graduated_heading(
    lines: Seq<Seq<char>>,
    h: int,
    end: int,
    link: int,
    version: Seq<char>,
    date: Seq<char>,
    prefix: Seq<char>,
    previous: Seq<char>,
)
    requires
        0 <= h < end <= link < lines.len(),
        !is_released(lines, version),
        version.len() > 0,
        crate::text::is_digit(version[0]),
    ensures
        version_heading_from(graduated_lines(lines, h, end, link, version, date, prefix, previous), 0, version) == Some(h + 2),
{
    reveal_strlit("## [Unreleased]");
    reveal_strlit("## [");
    reveal_strlit("] - ");
    reveal_strlit("]");
    reveal_strlit(" - ");
    let g = graduated_lines(lines, h, end, link, version, date, prefix, previous);
    let heading = "## ["@ + version + "] - "@ + date;
    assert forall|k: int| 0 <= k < h + 2 implies !heading_matches_version(#[trigger] g[k], version) by {
        if k < h {
            assert(g[k] == lines[k]);
            if heading_matches_version(lines[k], version) {
                assert(is_released(lines, version));
            }
        } else if k == h {
            let p = "## ["@ + version + "]"@;
            assert(g[k] == unreleased_heading());
            if starts_with(g[k], p) {
                assert(g[k].take(p.len() as int)[4] == p[4]);
                assert(p[4] == version[0]);
            }
        } else {
            assert(g[k] == Seq::<char>::empty());
        }
    }
    assert(g[h + 2] == heading);
    let p = "## ["@ + version + "]"@;
    assert(heading.take(p.len() as int) =~= p);
    assert(heading.skip(p.len() as int).take(3) =~= " - "@);
    lemma_version_heading_at(g, 0, h + 2, version);
}

/// The new section of a graduated changelog ends after the body and one
/// blank line, and its trimmed body is the former unreleased body.
#[verifier::rlimit(60)]
proof fn lemma_graduated_section(
    lines: Seq<Seq<char>>,
    h: int,
    end: int,
    link: int,
    version: Seq<char>,
    date: Seq<char>,
    prefix: Seq<char>,
    previous: Seq<char>,
)
    requires
        0 <= h < end <= link < lines.len(),
        end == section_end_from(lines, h + 1),
        trim_blank_lines(lines.subrange(h + 1, end)).len() > 0,
    ensures
        ({
            let g = graduated_lines(lines, h, end, link, version, date, prefix, previous);
            let body = trim_blank_lines(lines.subrange(h + 1, end));
            trim_blank_lines(g.subrange(h + 3, section_end_from(g, h + 3))) == body
        }),
{
    reveal_strlit("[Unreleased]: ");
    reveal_strlit("]:");
    reveal_strlit("[");
    reveal_strlit("## ");
    let g = graduated_lines(lines, h, end, link, version, date, prefix, previous);
    let raw = lines.subrange(h + 1, end);
    let body = trim_blank_lines(raw);
    lemma_trimmed(raw);
    lemma_section_end_facts(lines, h + 1);
    let b = body.len() as int;
    let new_unreleased = "[Unreleased]: "@ + prefix + "v"@ + version + "...HEAD"@;
    let stop = h + 5 + b;
    assert forall|k: int| h + 3 <= k < stop implies !(is_heading(#[trigger] g[k]) || is_link_reference_line(g[k])) by {
        if k == h + 3 || k == h + 4 + b {
            assert(g[k] == Seq::<char>::empty());
        } else {
            assert(g[k] == body[k - h - 4]);
            let r = leading_blank(raw) + k - h - 4;
            assert(body[k - h - 4] == raw[r]);
            assert(raw[r] == lines[h + 1 + r]);
        }
    }
    if end < link {
        assert(g[stop] == lines[end]);
    } else {
        assert(g[stop] == new_unreleased);
        assert(new_unreleased.take(1) =~= "["@);
        assert(new_unreleased.subrange(11, 13) =~= "]:"@);
        assert(crate::text::occurs_at(new_unreleased, "]:"@, 11));
    }
    lemma_section_end_at(g, h + 3, stop);
    assert(g.subrange(h + 3, stop) =~= seq![Seq::<char>::empty()] + body + seq![Seq::<char>::empty()]);
    lemma_trim_padded(body);
}

/// The parts of a plain `[Unreleased]` definition are plain.
proof fn lemma_link_parts_plain(line: Seq<char>)
    requires
        plain(line),
        split_unreleased_link(line) is Some,
    ensures
        plain(split_unreleased_link(line)->Some_0.0),
        plain(split_unreleased_link(line)->Some_0.1),
{
    reveal_strlit("compare/v");
    reveal_strlit("[Unreleased]: ");
    let (prefix, previous) = split_unreleased_link(line)->Some_0;
    let target = line.skip(14);
    assert(contains_seq(target, "compare/v"@));
    let w = choose|at: int| crate::text::occurs_at(target, "compare/v"@, at);
    crate::text::lemma_find_seq_some(target, "compare/v"@, w);
    let c = find_seq(target, "compare/v"@)->Some_0;
    assert(c + 9 <= target.len());
    assert(plain(target)) by {
        lemma_plain_parts(line, 14, line.len() as int);
        assert(line.subrange(14, line.len() as int) == target);
    }
    assert(plain(prefix)) by {
        lemma_plain_parts(target, 0, c + 8);
        assert(target.subrange(0, c + 8) == prefix);
    }
    assert(plain(previous)) by {
        let after = target.skip(c + 9);
        lemma_plain_parts(target, c + 9, target.len() as int);
        assert(target.subrange(c + 9, target.len() as int) == after);
        lemma_plain_parts(after, 0, after.len() - 7);
        assert(after.subrange(0, after.len() - 7) == previous);
    }
}

/// The release notes of a freshly graduated version are exactly the former
/// unreleased body, trimmed of blank lines (for a date free of line
/// breaks).
#[verifier::rlimit(60)]
pub proof fn lemma_notes_of_graduated(changelog: Seq<char>, version: (nat, nat, nat), date: Seq<char>)
    requires
        graduation(changelog, version, date) is Ok,
        plain(date),
    ensures
        ({
            let lines = split_on(changelog, '\n');
            let h = unreleased_index(lines)->Ok_0;
            let body = trim_blank_lines(lines.subrange(h + 1, section_end_from(lines, h + 1)));
            notes_of(graduation(changelog, version, date)->Ok_0, version_text(version)) == Ok::<Seq<char>, XtaskErrorView>(join(body, "\n"@))
        }),
{
    reveal_strlit("\n");
    let lines = split_on(changelog, '\n');
    crate::text::lemma_split_pieces(changelog, '\n');
    let v = version_text(version);
    lemma_version_text_shape(version);
    lemma_unreleased_index_facts(lines, 0);
    let h = unreleased_index(lines)->Ok_0;
    lemma_section_end_facts(lines, h + 1);
    let end = section_end_from(lines, h + 1);
    let raw = lines.subrange(h + 1, end);
    let body = trim_blank_lines(raw);
    lemma_link_index_facts(lines, end);
    let link = link_index_from(lines, end)->Some_0;
    let (prefix, previous) = split_unreleased_link(lines[link])->Some_0;
    let g = graduated_lines(lines, h, end, link, v, date, prefix, previous);
    assert(has_bullet(body));

    lemma_link_parts_plain(lines[link]);
    lemma_graduated_plain(lines, h, end, link, v, date, prefix, previous);
    assert("\n"@ =~= seq!['\n']);
    crate::text::lemma_split_join(g, '\n');
    lemma_graduated_heading(lines, h, end, link, v, date, prefix, previous);
    lemma_graduated_section(lines, h, end, link, v, date, prefix, previous);
}

// ---------------------------------------------------------------------------
// The shape of a graduated changelog
// ---------------------------------------------------------------------------

/// The notes of the `## [version]` section of a changelog given by its
/// lines (what `notes_of` reads once the text is split).
pub open spec fn line_notes(lines: Seq<Seq<char>>, version: Seq<char>) -> Result<Seq<char>, XtaskErrorView> {
    match version_heading_from(lines, 0, version) {
        None => Err(XtaskErrorView::SectionNotFound { version }),
        Some(h) => {
            let body = trim_blank_lines(lines.subrange(h + 1, section_end_from(lines, h + 1)));
            if body.len() == 0 {
                Err(XtaskErrorView::EmptySection { version })
            } else {
                Ok(join(body, "\n"@))
            }
        },
    }
}

/// Every character of a version's text is a digit or a dot.
proof fn lemma_version_text_chars(v: (nat, nat, nat))
    ensures
        forall|k: int| 0 <= k < version_text(v).len() ==> crate::text::is_digit(#[trigger] version_text(v)[k]) || version_text(v)[k] == '.',
        !version_text(v).contains(']'),
{
    reveal_strlit(".");
    crate::text::lemma_decimal(v.0);
    crate::text::lemma_decimal(v.1);
    crate::text::lemma_decimal(v.2);
    let a = crate::text::decimal(v.0);
    let b = crate::text::decimal(v.1);
    let c = crate::text::decimal(v.2);
    let t = version_text(v);
    assert forall|k: int| 0 <= k < t.len() implies crate::text::is_digit(#[trigger] t[k]) || t[k] == '.' by {
        if k < a.len() {
            assert(t[k] == a[k]);
        } else if k == a.len() {
        } else if k < a.len() + 1 + b.len() {
            assert(t[k] == b[k - a.len() - 1]);
        } else if k == a.len() + 1 + b.len() {
        } else {
            assert(t[k] == c[k - a.len() - 2 - b.len()]);
        }
    }
    if t.contains(']') {
        let w = choose|w: int| 0 <= w < t.len() && t[w] == ']';
        assert(crate::text::is_digit(t[w]) || t[w] == '.');
    }
}

/// A line that is not a heading is no release heading.
proof fn lemma_not_heading_no_match(line: Seq<char>, w: Seq<char>)
    requires
        !is_heading(line),
    ensures
        !heading_matches_version(line, w),
{
    reveal_strlit("## [");
    reveal_strlit("]");
    reveal_strlit("## ");
    let p = "## ["@ + w + "]"@;
    if starts_with(line, p) {
        assert(line.take(3) =~= "## "@) by {
            assert forall|j: int| 0 <= j < 3 implies line.take(3)[j] == "## "@[j] by {
                assert(line.take(p.len() as int)[j] == p[j]);
            }
        }
    }
}

/// A line that starts with `[` is no heading.
proof fn lemma_bracket_line_not_heading(line: Seq<char>)
    requires
        line.len() > 0,
        line[0] == '[',
    ensures
        !is_heading(line),
{
    reveal_strlit("## ");
    if starts_with(line, "## "@) {
        assert(line.take(3)[0] == "## "@[0]);
    }
}

/// The `Unreleased` heading is the release heading of no other name.
proof fn lemma_unreleased_heading_match(w: Seq<char>)
    requires
        heading_matches_version(unreleased_heading(), w),
    ensures
        w == "Unreleased"@,
{
    reveal_strlit("## [Unreleased]");
    reveal_strlit("## [");
    reveal_strlit("]");
    reveal_strlit("Unreleased");
    let u = unreleased_heading();
    let p = "## ["@ + w + "]"@;
    let n = w.len() as int;
    assert(u.take(p.len() as int)[4 + n] == p[4 + n]);
    assert(u[4 + n] == ']');
    assert(n == 10);
    assert forall|j: int| 0 <= j < 10 implies w[j] == "Unreleased"@[j] by {
        assert(u.take(p.len() as int)[4 + j] == p[4 + j]);
    }
    assert(w =~= "Unreleased"@);
}

/// The heading `## [v] - date`, with no `]` in `v` or `date`, is the release
/// heading of `v` and of no other name.
proof fn lemma_dated_heading_match(v: Seq<char>, date: Seq<char>, w: Seq<char>)
    requires
        !v.contains(']'),
        !date.contains(']'),
    ensures
        heading_matches_version("## ["@ + v + "] - "@ + date, w) <==> w == v,
{
    reveal_strlit("## [");
    reveal_strlit("]");
    reveal_strlit("] - ");
    reveal_strlit(" - ");
    let hd = "## ["@ + v + "] - "@ + date;
    let n = v.len() as int;
    if w == v {
        let p = "## ["@ + v + "]"@;
        assert(hd.take(p.len() as int) =~= p);
        assert(hd.skip(p.len() as int).take(3) =~= " - "@);
    }
    if heading_matches_version(hd, w) {
        let p = "## ["@ + w + "]"@;
        let m = w.len() as int;
        assert(hd.take(p.len() as int)[4 + m] == p[4 + m]);
        assert(hd[4 + m] == ']');
        if m < n {
            assert(hd[4 + m] == v[m]);
            assert(v.contains(']'));
        } else if m > n {
            if m >= n + 4 {
                assert(hd[4 + m] == date[m - n - 4]);
                assert(date.contains(']'));
            }
        }
        assert(m == n);
        assert forall|j: int| 0 <= j < n implies w[j] == v[j] by {
            assert(hd.take(p.len() as int)[4 + j] == p[4 + j]);
            assert(hd[4 + j] == v[j]);
        }
        assert(w =~= v);
    }
}

/// A release heading found from `i` lies at or after `i` and matches.
proof fn lemma_version_heading_facts(l: Seq<Seq<char>>, i: int, w: Seq<char>)
    requires
        0 <= i,
        version_heading_from(l, i, w) is Some,
    ensures
        i <= version_heading_from(l, i, w)->Some_0 < l.len(),
        heading_matches_version(l[version_heading_from(l, i, w)->Some_0], w),
    decreases l.len() - i,
{
    if i < l.len() && !heading_matches_version(l[i], w) {
        lemma_version_heading_facts(l, i + 1, w);
    }
}

/// The first release heading of `w` at or after `i`, read on a run of lines
/// that another sequence holds `d` places further on: found inside the run,
/// it is found at the matching place; otherwise both searches go on past the
/// run.
proof fn lemma_version_heading_shift(l: Seq<Seq<char>>, m: Seq<Seq<char>>, i: int, n: int, d: int, w: Seq<char>)
    requires
        0 <= i <= n <= l.len(),
        0 <= i + d,
        n + d <= m.len(),
        forall|k: int| i <= k < n ==> #[trigger] l[k] == m[k + d],
    ensures
        match version_heading_from(l, i, w) {
            Some(k) => if k < n {
                version_heading_from(m, i + d, w) == Some(k + d)
            } else {
                version_heading_from(l, i, w) == version_heading_from(l, n, w)
                    && version_heading_from(m, i + d, w) == version_heading_from(m, n + d, w)
            },
            None => version_heading_from(l, i, w) == version_heading_from(l, n, w)
                && version_heading_from(m, i + d, w) == version_heading_from(m, n + d, w),
        },
    decreases n - i,
{
    if i < n {
        assert(l[i] == m[i + d]);
        if !heading_matches_version(l[i], w) {
            lemma_version_heading_shift(l, m, i + 1, n, d, w);
        }
    } else if version_heading_from(l, i, w) is Some {
        lemma_version_heading_facts(l, i, w);
    }
}

/// A run of lines holding no release heading of `w` is passed over.
proof fn lemma_version_heading_skip(l: Seq<Seq<char>>, i: int, n: int, w: Seq<char>)
    requires
        0 <= i <= n <= l.len(),
        forall|k: int| i <= k < n ==> !heading_matches_version(#[trigger] l[k], w),
    ensures
        version_heading_from(l, i, w) == version_heading_from(l, n, w),
    decreases n - i,
{
    if i < n {
        assert(!heading_matches_version(l[i], w));
        lemma_version_heading_skip(l, i + 1, n, w);
    }
}

/// A section's end, read on a run of lines that another sequence holds `d`
/// places further on, when both runs stop at a terminating line or at the
/// end of their sequence.
proof fn lemma_section_end_shift(l: Seq<Seq<char>>, m: Seq<Seq<char>>, i: int, n: int, d: int)
    requires
        0 <= i <= n <= l.len(),
        0 <= i + d,
        n + d <= m.len(),
        forall|k: int| i <= k < n ==> #[trigger] l[k] == m[k + d],
        (n == l.len() && n + d == m.len()) || (n < l.len() && n + d < m.len() && (is_heading(l[n])
            || is_link_reference_line(l[n])) && (is_heading(m[n + d]) || is_link_reference_line(m[n + d]))),
    ensures
        section_end_from(m, i + d) == section_end_from(l, i) + d,
        section_end_from(l, i) <= n,
    decreases n - i,
{
    if i < n {
        assert(l[i] == m[i + d]);
        if !(is_heading(l[i]) || is_link_reference_line(l[i])) {
            lemma_section_end_shift(l, m, i + 1, n, d);
        }
    }
}

/// The exact `Unreleased` heading found in one sequence is found at the same
/// place in another that agrees with it up to there.
proof fn lemma_exact_heading_agree(l: Seq<Seq<char>>, m: Seq<Seq<char>>, i: int, j: int)
    requires
        0 <= i <= j < l.len(),
        j < m.len(),
        forall|k: int| i <= k <= j ==> #[trigger] l[k] == m[k],
        exact_heading_from(l, i) == Some(j),
    ensures
        exact_heading_from(m, i) == Some(j),
    decreases j - i,
{
    assert(l[i] == m[i]);
    if i < j {
        if l[i] == unreleased_heading() {
            assert(exact_heading_from(l, i) == Some(i));
        }
        lemma_exact_heading_agree(l, m, i + 1, j);
    } else if l[i] != unreleased_heading() {
        lemma_unreleased_index_facts(l, i + 1);
    }
}

/// Two sections found at places `d` apart, with the same lines up to their
/// ends, give the same notes.
proof fn lemma_line_notes_agree(l: Seq<Seq<char>>, m: Seq<Seq<char>>, k: int, d: int, w: Seq<char>)
    requires
        version_heading_from(l, 0, w) == Some(k),
        version_heading_from(m, 0, w) == Some(k + d),
        0 <= k < l.len(),
        0 <= k + d < m.len(),
        section_end_from(m, k + 1 + d) == section_end_from(l, k + 1) + d,
        forall|j: int| k + 1 <= j < section_end_from(l, k + 1) ==> #[trigger] l[j] == m[j + d],
    ensures
        line_notes(l, w) == line_notes(m, w),
{
    lemma_section_end_facts(l, k + 1);
    lemma_section_end_facts(m, k + 1 + d);
    let e = section_end_from(l, k + 1);
    assert(l.subrange(k + 1, e) =~= m.subrange(k + 1 + d, e + d)) by {
        assert forall|j: int| 0 <= j < e - k - 1 implies #[trigger] l.subrange(k + 1, e)[j] == m.subrange(k + 1 + d, e + d)[j] by {
            assert(l[k + 1 + j] == m[k + 1 + j + d]);
        }
    }
}

/// Where each line of a graduated changelog comes from.
#[verifier::rlimit(60)]
proof fn lemma_graduated_layout(
    lines: Seq<Seq<char>>,
    h: int,
    end: int,
    link: int,
    version: Seq<char>,
    date: Seq<char>,
    prefix: Seq<char>,
    previous: Seq<char>,
)
    requires
        0 <= h < end <= link < lines.len(),
        end == section_end_from(lines, h + 1),
    ensures
        ({
            let g = graduated_lines(lines, h, end, link, version, date, prefix, previous);
            let body = trim_blank_lines(lines.subrange(h + 1, end));
            let b = body.len() as int;
            let dq = h + 5 + b - end;
            &&& b <= end - h - 1
            &&& g.len() == lines.len() + dq + 1
            &&& forall|k: int| 0 <= k < h ==> #[trigger] lines[k] == g[k]
            &&& g[h] == unreleased_heading()
            &&& g[h + 1] == Seq::<char>::empty()
            &&& g[h + 2] == "## ["@ + version + "] - "@ + date
            &&& g[h + 3] == Seq::<char>::empty()
            &&& g[h + 4 + b] == Seq::<char>::empty()
            &&& forall|k: int| 0 <= k < b ==> #[trigger] g[h + 4 + k] == body[k]
            &&& forall|k: int| 0 <= k < b ==> !is_heading(#[trigger] body[k]) && !is_link_reference_line(body[k])
            &&& forall|k: int| end <= k < link ==> #[trigger] lines[k] == g[k + dq]
            &&& g[link + dq] == "[Unreleased]: "@ + prefix + "v"@ + version + "...HEAD"@
            &&& g[link + dq + 1] == "["@ + version + "]: "@ + prefix + "v"@ + previous + "...v"@ + version
            &&& forall|k: int| link < k < lines.len() ==> #[trigger] lines[k] == g[k + dq + 1]
        }),
{
    let g = graduated_lines(lines, h, end, link, version, date, prefix, previous);
    let raw = lines.subrange(h + 1, end);
    let body = trim_blank_lines(raw);
    lemma_trimmed(raw);
    lemma_section_end_facts(lines, h + 1);
    let b = body.len() as int;
    let dq = h + 5 + b - end;
    assert forall|k: int| 0 <= k < b implies !is_heading(#[trigger] body[k]) && !is_link_reference_line(body[k]) by {
        let r = leading_blank(raw) + k;
        assert(body[k] == raw[r]);
        assert(raw[r] == lines[h + 1 + r]);
    }
    assert forall|k: int| 0 <= k < b implies #[trigger] g[h + 4 + k] == body[k] by {}
    assert forall|k: int| end <= k < link implies #[trigger] lines[k] == g[k + dq] by {}
    assert forall|k: int| link < k < lines.len() implies #[trigger] lines[k] == g[k + dq + 1] by {}
}

/// The `Unreleased` heading is a heading.
proof fn lemma_unreleased_heading_is_heading()
    ensures
        is_heading(unreleased_heading()),
{
    reveal_strlit("## [Unreleased]");
    reveal_strlit("## ");
    assert(unreleased_heading().take(3) =~= "## "@);
}

/// A line that starts like the `Unreleased` definition is a link reference
/// definition and no heading.
proof fn lemma_link_line_kind(line: Seq<char>)
    requires
        starts_with(line, unreleased_link_prefix()),
    ensures
        is_link_reference_line(line),
        !is_heading(line),
{
    reveal_strlit("[Unreleased]: ");
    reveal_strlit("[");
    reveal_strlit("]:");
    assert(line.take(14)[0] == unreleased_link_prefix()[0]);
    assert(line.take(1) =~= "["@);
    assert(line.subrange(11, 13) =~= line.take(14).subrange(11, 13));
    assert(line.subrange(11, 13) =~= "]:"@);
    assert(crate::text::occurs_at(line, "]:"@, 11));
    lemma_bracket_line_not_heading(line);
}

/// In a graduated changelog, the notes of every section other than the new
/// version's and `Unreleased` are those of the changelog it came from.
#[verifier::rlimit(100)]
#[verifier::spinoff_prover]
proof fn lemma_graduated_keeps_sections(
    lines: Seq<Seq<char>>,
    h: int,
    end: int,
    link: int,
    version: Seq<char>,
    date: Seq<char>,
    prefix: Seq<char>,
    previous: Seq<char>,
    w: Seq<char>,
)
    requires
        0 <= h < end <= link < lines.len(),
        end == section_end_from(lines, h + 1),
        lines[h] == unreleased_heading(),
        starts_with(lines[link], unreleased_link_prefix()),
        !version.contains(']'),
        !date.contains(']'),
        w != version,
        w != "Unreleased"@,
    ensures
        line_notes(graduated_lines(lines, h, end, link, version, date, prefix, previous), w) == line_notes(lines, w),
{
    reveal_strlit("## ");
    let g = graduated_lines(lines, h, end, link, version, date, prefix, previous);
    lemma_graduated_layout(lines, h, end, link, version, date, prefix, previous);
    lemma_section_end_facts(lines, h + 1);
    let body = trim_blank_lines(lines.subrange(h + 1, end));
    let b = body.len() as int;
    let dq = h + 5 + b - end;
    let s = h + 5 + b;
    let nu = "[Unreleased]: "@ + prefix + "v"@ + version + "...HEAD"@;
    let nv = "["@ + version + "]: "@ + prefix + "v"@ + previous + "...v"@ + version;
    lemma_unreleased_heading_is_heading();
    lemma_link_line_kind(lines[link]);
    assert(starts_with(nu, unreleased_link_prefix())) by {
        reveal_strlit("[Unreleased]: ");
        assert(nu.take(14) =~= unreleased_link_prefix());
    }
    lemma_link_line_kind(nu);
    assert(nv.len() > 0 && nv[0] == '[') by {
        reveal_strlit("[");
    }
    lemma_bracket_line_not_heading(nv);
    assert(!is_heading(Seq::<char>::empty()));

    // Lines that hold no release heading of `w`.
    assert forall|k: int| h <= k < end implies !heading_matches_version(#[trigger] lines[k], w) by {
        if k == h {
            if heading_matches_version(lines[k], w) {
                lemma_unreleased_heading_match(w);
            }
        } else {
            lemma_not_heading_no_match(lines[k], w);
        }
    }
    assert forall|k: int| link <= k < link + 1 implies !heading_matches_version(#[trigger] lines[k], w) by {
        lemma_not_heading_no_match(lines[k], w);
    }
    assert forall|k: int| h <= k < s implies !heading_matches_version(#[trigger] g[k], w) by {
        if k == h {
            if heading_matches_version(g[k], w) {
                lemma_unreleased_heading_match(w);
            }
        } else if k == h + 2 {
            lemma_dated_heading_match(version, date, w);
        } else if h + 4 <= k < h + 4 + b {
            assert(g[h + 4 + (k - h - 4)] == body[k - h - 4]);
            lemma_not_heading_no_match(g[k], w);
        } else {
            lemma_not_heading_no_match(g[k], w);
        }
    }
    assert forall|k: int| link + dq <= k < link + dq + 2 implies !heading_matches_version(#[trigger] g[k], w) by {
        lemma_not_heading_no_match(g[k], w);
    }

    lemma_version_heading_shift(lines, g, 0, h, 0, w);
    match version_heading_from(lines, 0, w) {
        Some(k) => {
            if k < h {
                lemma_version_heading_facts(lines, 0, w);
                lemma_section_end_shift(lines, g, k + 1, h, 0);
                lemma_line_notes_agree(lines, g, k, 0, w);
                return;
            }
        },
        None => {},
    }
    lemma_version_heading_skip(lines, h, end, w);
    lemma_version_heading_skip(g, h, s, w);
    lemma_version_heading_shift(lines, g, end, link, dq, w);
    match version_heading_from(lines, end, w) {
        Some(k) => {
            if k < link {
                lemma_version_heading_facts(lines, end, w);
                lemma_section_end_shift(lines, g, k + 1, link, dq);
                lemma_line_notes_agree(lines, g, k, dq, w);
                return;
            }
        },
        None => {},
    }
    lemma_version_heading_skip(lines, link, link + 1, w);
    lemma_version_heading_skip(g, link + dq, link + dq + 2, w);
    lemma_version_heading_shift(lines, g, link + 1, lines.len() as int, dq + 1, w);
    match version_heading_from(lines, link + 1, w) {
        Some(k) => {
            lemma_version_heading_facts(lines, link + 1, w);
            lemma_section_end_shift(lines, g, k + 1, lines.len() as int, dq + 1);
            lemma_line_notes_agree(lines, g, k, dq + 1, w);
        },
        None => {},
    }
}

/// The head of a graduated changelog: the lines before `Unreleased` kept,
/// the `Unreleased` heading still found first, its section empty, and the
/// dated heading of the new version the only release heading of it.
#[verifier::rlimit(100)]
#[verifier::spinoff_prover]
proof fn lemma_graduated_head(
    lines: Seq<Seq<char>>,
    h: int,
    end: int,
    link: int,
    version: Seq<char>,
    date: Seq<char>,
    prefix: Seq<char>,
    previous: Seq<char>,
)
    requires
        0 <= h < end <= link < lines.len(),
        end == section_end_from(lines, h + 1),
        exact_heading_from(lines, 0) == Some(h),
        starts_with(lines[link], unreleased_link_prefix()),
        !is_released(lines, version),
        !version.contains(']'),
        !date.contains(']'),
        version.len() > 0,
        crate::text::is_digit(version[0]),
    ensures
        ({
            let g = graduated_lines(lines, h, end, link, version, date, prefix, previous);
            &&& h + 2 < g.len()
            &&& g.take(h) == lines.take(h)
            &&& unreleased_index(g) == Ok::<int, XtaskErrorView>(h)
            &&& g[h + 1] == Seq::<char>::empty()
            &&& g[h + 2] == "## ["@ + version + "] - "@ + date
            &&& section_end_from(g, h + 1) == h + 2
            &&& forall|k: int| 0 <= k < g.len() ==> (heading_matches_version(#[trigger] g[k], version) <==> k == h + 2)
        }),
{
    reveal_strlit("## ");
    reveal_strlit("## [");
    reveal_strlit("] - ");
    reveal_strlit("Unreleased");
    let g = graduated_lines(lines, h, end, link, version, date, prefix, previous);
    lemma_graduated_layout(lines, h, end, link, version, date, prefix, previous);
    lemma_unreleased_index_facts(lines, 0);
    let body = trim_blank_lines(lines.subrange(h + 1, end));
    let b = body.len() as int;
    let dq = h + 5 + b - end;
    let s = h + 5 + b;
    let heading = "## ["@ + version + "] - "@ + date;
    let nu = "[Unreleased]: "@ + prefix + "v"@ + version + "...HEAD"@;
    let nv = "["@ + version + "]: "@ + prefix + "v"@ + previous + "...v"@ + version;
    assert(g.take(h) =~= lines.take(h));
    assert forall|k: int| 0 <= k <= h implies #[trigger] lines[k] == g[k] by {}
    lemma_exact_heading_agree(lines, g, 0, h);
    assert(!is_heading(Seq::<char>::empty()));
    assert(is_heading(heading)) by {
        assert(heading.take(3) =~= "## "@);
    }
    assert(!is_link_reference_line(Seq::<char>::empty())) by {
        reveal_strlit("[");
    }
    assert(g[h + 1] == Seq::<char>::empty());
    lemma_section_end_at(g, h + 1, h + 2);
    assert(starts_with(nu, unreleased_link_prefix())) by {
        reveal_strlit("[Unreleased]: ");
        assert(nu.take(14) =~= unreleased_link_prefix());
    }
    lemma_link_line_kind(nu);
    assert(nv.len() > 0 && nv[0] == '[') by {
        reveal_strlit("[");
    }
    lemma_bracket_line_not_heading(nv);
    assert(version != "Unreleased"@) by {
        if version == "Unreleased"@ {
            assert(version[0] == 'U');
        }
    }
    assert forall|k: int| 0 <= k < g.len() implies (heading_matches_version(#[trigger] g[k], version) <==> k == h + 2) by {
        if k == h + 2 {
            lemma_dated_heading_match(version, date, version);
        } else if k < h {
            if heading_matches_version(g[k], version) {
                assert(lines[k] == g[k]);
                assert(is_released(lines, version));
            }
        } else if k == h {
            if heading_matches_version(g[k], version) {
                lemma_unreleased_heading_match(version);
            }
        } else if h + 4 <= k < h + 4 + b {
            assert(g[h + 4 + (k - h - 4)] == body[k - h - 4]);
            lemma_not_heading_no_match(g[k], version);
        } else if k < s {
            lemma_not_heading_no_match(g[k], version);
        } else if k < link + dq {
            let j = k - dq;
            assert(lines[j] == g[j + dq]);
            if heading_matches_version(g[k], version) {
                assert(is_released(lines, version));
            }
        } else if k < link + dq + 2 {
            lemma_not_heading_no_match(g[k], version);
        } else {
            let j = k - dq - 1;
            assert(lines[j] == g[j + dq + 1]);
            if heading_matches_version(g[k], version) {
                assert(is_released(lines, version));
            }
        }
    }
}

/// The lines of a graduated changelog, split back from its text, and what
/// its construction rests on.
#[verifier::rlimit(60)]
proof fn lemma_graduation_split(changelog: Seq<char>, version: (nat, nat, nat), date: Seq<char>)
    requires
        graduation(changelog, version, date) is Ok,
        plain(date),
    ensures
        ({
            let lines = split_on(changelog, '\n');
            let h = unreleased_index(lines)->Ok_0;
            let end = section_end_from(lines, h + 1);
            let link = link_index_from(lines, end)->Some_0;
            let parts = split_unreleased_link(lines[link])->Some_0;
            let v = version_text(version);
            &&& 0 <= h < end <= link < lines.len()
            &&& exact_heading_from(lines, 0) == Some(h)
            &&& lines[h] == unreleased_heading()
            &&& starts_with(lines[link], unreleased_link_prefix())
            &&& !is_released(lines, v)
            &&& split_on(graduation(changelog, version, date)->Ok_0, '\n') == graduated_lines(lines, h, end, link, v, date, parts.0, parts.1)
        }),
{
    reveal_strlit("\n");
    let lines = split_on(changelog, '\n');
    crate::text::lemma_split_pieces(changelog, '\n');
    let v = version_text(version);
    lemma_version_text_shape(version);
    lemma_unreleased_index_facts(lines, 0);
    let h = unreleased_index(lines)->Ok_0;
    lemma_section_end_facts(lines, h + 1);
    let end = section_end_from(lines, h + 1);
    lemma_link_index_facts(lines, end);
    let link = link_index_from(lines, end)->Some_0;
    let (prefix, previous) = split_unreleased_link(lines[link])->Some_0;
    let g = graduated_lines(lines, h, end, link, v, date, prefix, previous);
    lemma_link_parts_plain(lines[link]);
    lemma_graduated_plain(lines, h, end, link, v, date, prefix, previous);
    assert("\n"@ =~= seq!['\n']);
    crate::text::lemma_split_join(g, '\n');
}

/// Graduation leaves exactly one release heading of the new version, the
/// dated line `## [version] - date`; it sits right after an empty
/// `Unreleased` section (the `Unreleased` heading, one blank line), and the
/// lines before the `Unreleased` heading are those of the changelog (for a
/// date free of line breaks and of `]`).
pub proof fn lemma_graduated_changelog_shape(changelog: Seq<char>, version: (nat, nat, nat), date: Seq<char>)
    requires
        graduation(changelog, version, date) is Ok,
        plain(date),
        !date.contains(']'),
    ensures
        ({
            let lines = split_on(changelog, '\n');
            let h = unreleased_index(lines)->Ok_0;
            let out = split_on(graduation(changelog, version, date)->Ok_0, '\n');
            let v = version_text(version);
            &&& h + 2 < out.len()
            &&& out.take(h) == lines.take(h)
            &&& unreleased_index(out) == Ok::<int, XtaskErrorView>(h)
            &&& out[h + 1] == Seq::<char>::empty()
            &&& out[h + 2] == "## ["@ + v + "] - "@ + date
            &&& section_end_from(out, h + 1) == h + 2
            &&& forall|k: int| 0 <= k < out.len() ==> (heading_matches_version(#[trigger] out[k], v) <==> k == h + 2)
        }),
{
    lemma_graduation_split(changelog, version, date);
    lemma_version_text_shape(version);
    lemma_version_text_chars(version);
    let lines = split_on(changelog, '\n');
    let h = unreleased_index(lines)->Ok_0;
    let end = section_end_from(lines, h + 1);
    let link = link_index_from(lines, end)->Some_0;
    let parts = split_unreleased_link(lines[link])->Some_0;
    lemma_graduated_head(lines, h, end, link, version_text(version), date, parts.0, parts.1);
}

/// Graduation keeps the notes of every section other than the new
/// version's and `Unreleased`: `release_notes` reads the same from the
/// graduated changelog as from the original one, an error included (for a
/// date free of line breaks and of `]`).
pub proof fn lemma_graduation_keeps_other_notes(changelog: Seq<char>, version: (nat, nat, nat), date: Seq<char>, other: Seq<char>)
    requires
        graduation(changelog, version, date) is Ok,
        plain(date),
        !date.contains(']'),
        other != version_text(version),
        other != "Unreleased"@,
    ensures
        notes_of(graduation(changelog, version, date)->Ok_0, other) == notes_of(changelog, other),
{
    lemma_graduation_split(changelog, version, date);
    lemma_version_text_chars(version);
    let lines = split_on(changelog, '\n');
    let h = unreleased_index(lines)->Ok_0;
    let end = section_end_from(lines, h + 1);
    let link = link_index_from(lines, end)->Some_0;
    let parts = split_unreleased_link(lines[link])->Some_0;
    let out = graduation(changelog, version, date)->Ok_0;
    lemma_graduated_keeps_sections(lines, h, end, link, version_text(version), date, parts.0, parts.1, other);
    assert(notes_of(out, other) == line_notes(split_on(out, '\n'), other));
    assert(notes_of(changelog, other) == line_notes(lines, other));
}

} // verus!
