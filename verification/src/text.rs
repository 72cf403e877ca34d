//! Character-sequence helpers shared by the parsers: decimal numbers,
//! splitting, trimming and joining, all stated over `Seq<char>`.
use vstd::prelude::*;

verus! {

broadcast use vstd::string::group_string_axioms;

// ---------------------------------------------------------------------------
// Decimal numbers
// ---------------------------------------------------------------------------

/// An ASCII decimal digit.
pub open spec fn is_digit(c: char) -> bool {
    '0' <= c && c <= '9'
}

/// The value of an ASCII digit.
pub open spec fn digit_value(c: char) -> nat {
    (c as int - '0' as int) as nat
}

/// Every character of `s` is an ASCII digit.
pub open spec fn all_digits(s: Seq<char>) -> bool {
    forall|i: int| 0 <= i < s.len() ==> is_digit(#[trigger] s[i])
}

/// The number that a string of decimal digits denotes.
pub open spec fn digits_value(s: Seq<char>) -> nat
    decreases s.len(),
{
    if s.len() == 0 {
        0
    } else {
        digits_value(s.drop_last()) * 10 + digit_value(s.last())
    }
}

/// A canonical non-negative decimal: digits only, no leading zero unless the
/// token is exactly `0`.
pub open spec fn is_canonical_decimal(s: Seq<char>) -> bool {
    &&& s.len() > 0
    &&& all_digits(s)
    &&& (s.len() == 1 || s[0] != '0')
}

/// The character of the digit `d` (`d < 10`).
pub open spec fn digit_char(d: nat) -> char {
    if d == 0 { '0' }
    else if d == 1 { '1' }
    else if d == 2 { '2' }
    else if d == 3 { '3' }
    else if d == 4 { '4' }
    else if d == 5 { '5' }
    else if d == 6 { '6' }
    else if d == 7 { '7' }
    else if d == 8 { '8' }
    else { '9' }
}

/// The shortest decimal rendering of `n`.
pub open spec fn decimal(n: nat) -> Seq<char>
    decreases n,
{
    if n < 10 {
        seq![digit_char(n)]
    } else {
        decimal(n / 10).push(digit_char(n % 10))
    }
}

/// The decimal rendering of `n`, left-padded with zeros to at least two digits.
pub open spec fn two_digits(n: nat) -> Seq<char> {
    if n < 10 {
        seq!['0', digit_char(n)]
    } else {
        decimal(n)
    }
}

/// A prefix of a digit string never denotes more than the whole string.
pub proof fn lemma_digits_value_prefix(s: Seq<char>, i: int, j: int)
    requires
        0 <= i <= j <= s.len(),
    ensures
        digits_value(s.take(i)) <= digits_value(s.take(j)),
    decreases j - i,
{
    if i < j {
        lemma_digits_value_prefix(s, i, j - 1);
        assert(s.take(j).drop_last() =~= s.take(j - 1));
    }
}

/// The character of a digit.
pub fn digit_to_char(d: u64) -> (c: char)
    requires
        d < 10,
    ensures
        c == digit_char(d as nat),
{
    if d == 0 { '0' }
    else if d == 1 { '1' }
    else if d == 2 { '2' }
    else if d == 3 { '3' }
    else if d == 4 { '4' }
    else if d == 5 { '5' }
    else if d == 6 { '6' }
    else if d == 7 { '7' }
    else if d == 8 { '8' }
    else { '9' }
}

/// The value of an ASCII digit character.
pub fn char_digit_value(c: char) -> (d: u32)
    requires
        is_digit(c),
    ensures
        d == digit_value(c),
        d < 10,
{
    (c as u32) - ('0' as u32)
}

/// Renders `n` in decimal.
pub fn decimal_chars(n: u64) -> (out: Vec<char>)
    ensures
        out@ == decimal(n as nat),
    decreases n,
{
    if n < 10 {
        let mut out = Vec::new();
        out.push(digit_to_char(n));
        out
    } else {
        let mut out = decimal_chars(n / 10);
        out.push(digit_to_char(n % 10));
        out
    }
}

/// Renders `n` in decimal with at least two digits.
pub fn two_digit_chars(n: u64) -> (out: Vec<char>)
    ensures
        out@ == two_digits(n as nat),
{
    if n < 10 {
        let mut out = Vec::new();
        out.push('0');
        out.push(digit_to_char(n));
        out
    } else {
        decimal_chars(n)
    }
}

/// Whether every character is an ASCII digit.
pub fn chars_all_digits(s: &[char]) -> (b: bool)
    ensures
        b == all_digits(s@),
{
    let mut i: usize = 0;
    while i < s.len()
        invariant
            0 <= i <= s.len(),
            forall|k: int| 0 <= k < i ==> is_digit(#[trigger] s@[k]),
        decreases s.len() - i,
    {
        if !('0' <= s[i] && s[i] <= '9') {
            return false;
        }
        i = i + 1;
    }
    true
}

/// Whether `s` is a canonical decimal token.
pub fn chars_is_canonical_decimal(s: &[char]) -> (b: bool)
    ensures
        b == is_canonical_decimal(s@),
{
    s.len() > 0 && chars_all_digits(s) && (s.len() == 1 || s[0] != '0')
}

/// The value of a string of digits, or `None` when it exceeds `u32::MAX`.
pub fn parse_digits_u32(s: &[char]) -> (r: Option<u32>)
    requires
        all_digits(s@),
    ensures
        r == (if digits_value(s@) <= u32::MAX as nat {
            Some(digits_value(s@) as u32)
        } else {
            None::<u32>
        }),
{
    let mut acc: u64 = 0;
    let mut i: usize = 0;
    while i < s.len()
        invariant
            0 <= i <= s.len(),
            all_digits(s@),
            acc == digits_value(s@.take(i as int)),
            acc <= u32::MAX,
        decreases s.len() - i,
    {
        let d = char_digit_value(s[i]);
        assert(s@.take(i + 1).drop_last() =~= s@.take(i as int));
        let next = acc * 10 + d as u64;
        if next > 0xFFFF_FFFF {
            proof {
                lemma_digits_value_prefix(s@, i + 1, s@.len() as int);
                assert(s@.take(s@.len() as int) =~= s@);
            }
            return None;
        }
        acc = next;
        i = i + 1;
    }
    assert(s@.take(s@.len() as int) =~= s@);
    Some(acc as u32)
}

/// The value of a string of digits, or `None` when it exceeds `u64::MAX`.
pub fn parse_digits_u64(s: &[char]) -> (r: Option<u64>)
    requires
        all_digits(s@),
    ensures
        r == (if digits_value(s@) <= u64::MAX as nat {
            Some(digits_value(s@) as u64)
        } else {
            None::<u64>
        }),
{
    let mut acc: u128 = 0;
    let mut i: usize = 0;
    while i < s.len()
        invariant
            0 <= i <= s.len(),
            all_digits(s@),
            acc == digits_value(s@.take(i as int)),
            acc <= u64::MAX,
        decreases s.len() - i,
    {
        let d = char_digit_value(s[i]);
        assert(s@.take(i + 1).drop_last() =~= s@.take(i as int));
        let next = acc * 10 + d as u128;
        if next > 0xFFFF_FFFF_FFFF_FFFF {
            proof {
                lemma_digits_value_prefix(s@, i + 1, s@.len() as int);
                assert(s@.take(s@.len() as int) =~= s@);
            }
            return None;
        }
        acc = next;
        i = i + 1;
    }
    assert(s@.take(s@.len() as int) =~= s@);
    Some(acc as u64)
}

// ---------------------------------------------------------------------------
// Strings and character vectors
// ---------------------------------------------------------------------------

/// The characters of `s`, in order.
pub fn chars_of(s: &str) -> (out: Vec<char>)
    ensures
        out@ == s@,
{
    let mut out: Vec<char> = Vec::new();
    for c in iter: s.chars()
        invariant
            out@ == iter.seq().take(iter.index() as int),
            iter.seq() == s@,
    {
        out.push(c);
    }
    out
}

/// Collects characters into a `String` (`FromIterator<char>` for `String`).
#[verifier::external_body]
pub(crate) fn string_from_chars(v: &[char]) -> (s: String)
    ensures
        s@ == v@,
{
    v.iter().collect()
}

/// Appends every character of `src` to `dst`.
pub fn push_all(dst: &mut Vec<char>, src: &[char])
    ensures
        final(dst)@ == old(dst)@ + src@,
{
    let mut i: usize = 0;
    while i < src.len()
        invariant
            0 <= i <= src.len(),
            dst@ == old(dst)@ + src@.take(i as int),
        decreases src.len() - i,
    {
        assert(src@.take(i + 1) =~= src@.take(i as int).push(src@[i as int]));
        dst.push(src[i]);
        i = i + 1;
    }
    assert(src@.take(src@.len() as int) =~= src@);
}

/// Appends every character of `src` to `dst`.
pub fn push_str(dst: &mut Vec<char>, src: &str)
    ensures
        final(dst)@ == old(dst)@ + src@,
{
    let cs = chars_of(src);
    push_all(dst, cs.as_slice());
}

/// A copy of `s[from..to]`.
pub fn slice_chars(s: &[char], from: usize, to: usize) -> (out: Vec<char>)
    requires
        from <= to <= s.len(),
    ensures
        out@ == s@.subrange(from as int, to as int),
{
    let mut out: Vec<char> = Vec::new();
    let mut i: usize = from;
    while i < to
        invariant
            from <= i <= to <= s.len(),
            out@ == s@.subrange(from as int, i as int),
        decreases to - i,
    {
        out.push(s[i]);
        assert(s@.subrange(from as int, i + 1) =~= s@.subrange(from as int, i as int).push(s@[i as int]));
        i = i + 1;
    }
    out
}

/// Whether two character sequences are equal.
pub fn chars_eq(a: &[char], b: &[char]) -> (r: bool)
    ensures
        r == (a@ == b@),
{
    if a.len() != b.len() {
        return false;
    }
    let mut i: usize = 0;
    while i < a.len()
        invariant
            a.len() == b.len(),
            0 <= i <= a.len(),
            forall|k: int| 0 <= k < i ==> a@[k] == b@[k],
        decreases a.len() - i,
    {
        if a[i] != b[i] {
            return false;
        }
        i = i + 1;
    }
    assert(a@ =~= b@);
    true
}

/// Whether `a` equals the literal `lit`.
pub fn chars_eq_str(a: &[char], lit: &str) -> (r: bool)
    ensures
        r == (a@ == lit@),
{
    let b = chars_of(lit);
    chars_eq(a, b.as_slice())
}

/// Whether `s` starts with `prefix`.
pub open spec fn starts_with(s: Seq<char>, prefix: Seq<char>) -> bool {
    prefix.len() <= s.len() && s.take(prefix.len() as int) == prefix
}

/// Whether `s` starts with `prefix`.
pub fn chars_starts_with(s: &[char], prefix: &[char]) -> (r: bool)
    ensures
        r == starts_with(s@, prefix@),
{
    if prefix.len() > s.len() {
        return false;
    }
    let mut i: usize = 0;
    while i < prefix.len()
        invariant
            prefix.len() <= s.len(),
            0 <= i <= prefix.len(),
            forall|k: int| 0 <= k < i ==> s@[k] == prefix@[k],
        decreases prefix.len() - i,
    {
        if s[i] != prefix[i] {
            assert(s@.take(prefix@.len() as int)[i as int] != prefix@[i as int]);
            return false;
        }
        i = i + 1;
    }
    assert(s@.take(prefix@.len() as int) =~= prefix@);
    true
}

/// Whether `s` starts with the literal `prefix`.
pub fn chars_starts_with_str(s: &[char], prefix: &str) -> (r: bool)
    ensures
        r == starts_with(s@, prefix@),
{
    let p = chars_of(prefix);
    chars_starts_with(s, p.as_slice())
}

/// `needle` occurs in `s` at offset `at`.
pub open spec fn occurs_at(s: Seq<char>, needle: Seq<char>, at: int) -> bool {
    0 <= at && at + needle.len() <= s.len() && s.subrange(at, at + needle.len()) == needle
}

/// `needle` occurs somewhere in `s`.
pub open spec fn contains_seq(s: Seq<char>, needle: Seq<char>) -> bool {
    exists|at: int| occurs_at(s, needle, at)
}

/// The offset of the first occurrence of `needle` in `s`, if any.
pub open spec fn find_seq(s: Seq<char>, needle: Seq<char>) -> Option<int> {
    if contains_seq(s, needle) {
        Some(choose|at: int| occurs_at(s, needle, at) && forall|k: int| 0 <= k < at ==> !occurs_at(s, needle, k))
    } else {
        None
    }
}

/// Whether `needle` occurs in `s` at offset `at`.
pub fn chars_occurs_at(s: &[char], needle: &[char], at: usize) -> (r: bool)
    ensures
        r == occurs_at(s@, needle@, at as int),
{
    if at > s.len() || needle.len() > s.len() - at {
        return false;
    }
    let mut i: usize = 0;
    while i < needle.len()
        invariant
            at + needle.len() <= s.len(),
            0 <= i <= needle.len(),
            forall|k: int| 0 <= k < i ==> s@[at + k] == needle@[k],
        decreases needle.len() - i,
    {
        if s[at + i] != needle[i] {
            assert(s@.subrange(at as int, at + needle.len())[i as int] != needle@[i as int]);
            return false;
        }
        i = i + 1;
    }
    assert(s@.subrange(at as int, at + needle.len()) =~= needle@);
    true
}

/// The offset of the first occurrence of `needle` in `s`.
pub fn chars_find(s: &[char], needle: &[char]) -> (r: Option<usize>)
    ensures
        r matches Some(at) ==> find_seq(s@, needle@) == Some(at as int) && occurs_at(s@, needle@, at as int),
        r is None ==> find_seq(s@, needle@) is None,
{
    let mut at: usize = 0;
    while at < s.len()
        invariant
            0 <= at <= s.len(),
            forall|k: int| 0 <= k < at ==> !occurs_at(s@, needle@, k),
        decreases s.len() - at,
    {
        if chars_occurs_at(s, needle, at) {
            proof { lemma_find_seq_first(s@, needle@, at as int); }
            return Some(at);
        }
        at = at + 1;
    }
    if chars_occurs_at(s, needle, at) {
        proof { lemma_find_seq_first(s@, needle@, at as int); }
        return Some(at);
    }
    assert forall|k: int| !occurs_at(s@, needle@, k) by {
        if 0 <= k <= at {} else if k > at { assert(k + needle@.len() > s@.len()); }
    }
    None
}

proof fn lemma_find_seq_first(s: Seq<char>, needle: Seq<char>, w: int)
    requires
        occurs_at(s, needle, w),
        forall|k: int| 0 <= k < w ==> !occurs_at(s, needle, k),
    ensures
        find_seq(s, needle) == Some(w),
{
    assert(contains_seq(s, needle));
    let c = choose|c: int| occurs_at(s, needle, c) && forall|k: int| 0 <= k < c ==> !occurs_at(s, needle, k);
    assert(c == w) by {
        if c < w { assert(!occurs_at(s, needle, c)); }
        if w < c { assert(!occurs_at(s, needle, w)); }
    }
}

/// Whether `needle` occurs in `s`.
pub fn chars_contains(s: &[char], needle: &[char]) -> (r: bool)
    ensures
        r == contains_seq(s@, needle@),
{
    chars_find(s, needle).is_some()
}

// ---------------------------------------------------------------------------
// Splitting on a character
// ---------------------------------------------------------------------------

/// The offset of the first `c` in `s`, if any.
pub open spec fn index_of(s: Seq<char>, c: char) -> Option<int> {
    if s.contains(c) {
        Some(choose|i: int| 0 <= i < s.len() && s[i] == c && forall|k: int| 0 <= k < i ==> s[k] != c)
    } else {
        None
    }
}

/// `s` split at its first `c`, the separator removed (`str::split_once`).
pub open spec fn split_once(s: Seq<char>, c: char) -> Option<(Seq<char>, Seq<char>)> {
    match index_of(s, c) {
        Some(i) => Some((s.take(i), s.skip(i + 1))),
        None => None,
    }
}

/// The pieces of `s` between occurrences of `c` (`str::split`); never empty.
#[verifier::opaque]
pub open spec fn split_on(s: Seq<char>, c: char) -> Seq<Seq<char>>
    decreases s.len(),
{
    match index_of(s, c) {
        Some(i) => {
            if 0 <= i < s.len() {
                seq![s.take(i)] + split_on(s.skip(i + 1), c)
            } else {
                seq![s]
            }
        },
        None => seq![s],
    }
}

/// The views of a vector of character vectors.
pub open spec fn views(v: Seq<Vec<char>>) -> Seq<Seq<char>> {
    v.map_values(|x: Vec<char>| x@)
}

/// The first offset at or after `from` that holds `c`.
pub fn chars_index_of_from(s: &[char], c: char, from: usize) -> (r: Option<usize>)
    requires
        from <= s.len(),
    ensures
        r matches Some(i) ==> from <= i < s.len() && s@[i as int] == c && forall|k: int|
            from <= k < i ==> s@[k] != c,
        r is None ==> forall|k: int| from <= k < s.len() ==> s@[k] != c,
{
    let mut i = from;
    while i < s.len()
        invariant
            from <= i <= s.len(),
            forall|k: int| from <= k < i ==> s@[k] != c,
        decreases s.len() - i,
    {
        if s[i] == c {
            return Some(i);
        }
        i = i + 1;
    }
    None
}

/// `index_of` from the description of its first occurrence.
pub proof fn lemma_index_of(s: Seq<char>, c: char, i: int)
    requires
        0 <= i < s.len(),
        s[i] == c,
        forall|k: int| 0 <= k < i ==> s[k] != c,
    ensures
        index_of(s, c) == Some(i),
{
    assert(s.contains(c));
    let j = choose|j: int| 0 <= j < s.len() && s[j] == c && forall|k: int| 0 <= k < j ==> s[k] != c;
    assert(j == i) by {
        if j < i { assert(s[j] != c); }
        if i < j { assert(s[i] != c); }
    }
}

/// `index_of` is `None` when `c` is absent.
pub proof fn lemma_index_of_none(s: Seq<char>, c: char)
    requires
        forall|k: int| 0 <= k < s.len() ==> s[k] != c,
    ensures
        index_of(s, c) is None,
{
    if s.contains(c) {
        let j = choose|j: int| 0 <= j < s.len() && s[j] == c;
        assert(s[j] != c);
    }
}

/// `s` split at its first `c`.
pub fn chars_split_once(s: &[char], c: char) -> (r: Option<(Vec<char>, Vec<char>)>)
    ensures
        r matches Some((a, b)) ==> split_once(s@, c) == Some((a@, b@)),
        r is None ==> split_once(s@, c) is None,
{
    match chars_index_of_from(s, c, 0) {
        Some(i) => {
            proof { lemma_index_of(s@, c, i as int); }
            let a = slice_chars(s, 0, i);
            let b = slice_chars(s, i + 1, s.len());
            assert(a@ =~= s@.take(i as int));
            assert(b@ =~= s@.skip(i + 1));
            Some((a, b))
        },
        None => {
            proof { lemma_index_of_none(s@, c); }
            None
        },
    }
}

proof fn lemma_split_step(s: Seq<char>, c: char, start: int, i: int)
    requires
        0 <= start <= i < s.len(),
        s[i] == c,
        forall|k: int| start <= k < i ==> s[k] != c,
    ensures
        split_on(s.skip(start), c) == seq![s.subrange(start, i)] + split_on(s.skip(i + 1), c),
{
    reveal(split_on);
    let rest = s.skip(start);
    assert forall|k: int| 0 <= k < i - start implies rest[k] != c by {
        assert(rest[k] == s[start + k]);
    }
    lemma_index_of(rest, c, i - start);
    assert(rest.take(i - start) =~= s.subrange(start, i));
    assert(rest.skip(i - start + 1) =~= s.skip(i + 1));
}

proof fn lemma_split_last(s: Seq<char>, c: char, start: int)
    requires
        0 <= start <= s.len(),
        forall|k: int| start <= k < s.len() ==> s[k] != c,
    ensures
        split_on(s.skip(start), c) == seq![s.subrange(start, s.len() as int)],
{
    reveal(split_on);
    let rest = s.skip(start);
    assert forall|k: int| 0 <= k < rest.len() implies rest[k] != c by {
        assert(rest[k] == s[start + k]);
    }
    lemma_index_of_none(rest, c);
    assert(rest =~= s.subrange(start, s.len() as int));
}

/// The pieces of `s` between occurrences of `c`.
pub fn chars_split(s: &[char], c: char) -> (out: Vec<Vec<char>>)
    ensures
        views(out@) == split_on(s@, c),
{
    let mut out: Vec<Vec<char>> = Vec::new();
    let mut start: usize = 0;
    assert(s@.skip(0) =~= s@);
    assert(views(out@) + split_on(s@, c) =~= split_on(s@, c));
    loop
        invariant
            0 <= start <= s.len(),
            split_on(s@, c) == views(out@) + split_on(s@.skip(start as int), c),
        decreases s.len() - start,
    {
        match chars_index_of_from(s, c, start) {
            Some(i) => {
                let piece = slice_chars(s, start, i);
                proof {
                    lemma_split_step(s@, c, start as int, i as int);
                    assert(views(out@.push(piece)) =~= views(out@).push(piece@));
                    assert(views(out@) + (seq![piece@] + split_on(s@.skip(i + 1), c))
                        =~= views(out@.push(piece)) + split_on(s@.skip(i + 1), c));
                }
                out.push(piece);
                start = i + 1;
            },
            None => {
                let piece = slice_chars(s, start, s.len());
                proof {
                    lemma_split_last(s@, c, start as int);
                    assert(views(out@.push(piece)) =~= views(out@).push(piece@));
                    assert(views(out@) + seq![piece@] =~= views(out@.push(piece)));
                }
                out.push(piece);
                return out;
            },
        }
    }
}

// ---------------------------------------------------------------------------
// Joining
// ---------------------------------------------------------------------------

/// The pieces joined with `sep` between consecutive ones.
pub open spec fn join(pieces: Seq<Seq<char>>, sep: Seq<char>) -> Seq<char>
    decreases pieces.len(),
{
    if pieces.len() == 0 {
        Seq::empty()
    } else if pieces.len() == 1 {
        pieces[0]
    } else {
        join(pieces.drop_last(), sep) + sep + pieces.last()
    }
}

/// The pieces joined with `sep`.
pub fn chars_join(pieces: &[Vec<char>], sep: &[char]) -> (out: Vec<char>)
    ensures
        out@ == join(views(pieces@), sep@),
{
    let mut out: Vec<char> = Vec::new();
    let mut i: usize = 0;
    while i < pieces.len()
        invariant
            0 <= i <= pieces.len(),
            out@ == join(views(pieces@.take(i as int)), sep@),
        decreases pieces.len() - i,
    {
        proof {
            let next = views(pieces@.take(i + 1));
            assert(next.drop_last() =~= views(pieces@.take(i as int)));
            assert(next.last() == pieces@[i as int]@);
            if i == 0 {
                assert(views(pieces@.take(0)) =~= Seq::<Seq<char>>::empty());
            }
        }
        if i > 0 {
            push_all(&mut out, sep);
        }
        push_all(&mut out, pieces[i].as_slice());
        i = i + 1;
    }
    assert(pieces@.take(pieces@.len() as int) =~= pieces@);
    out
}

// ---------------------------------------------------------------------------
// Whitespace
// ---------------------------------------------------------------------------

/// Unicode `White_Space`, the property behind `char::is_whitespace`.
pub open spec fn is_space(c: char) -> bool {
    ||| '\u{9}' <= c && c <= '\u{d}'
    ||| c == ' '
    ||| c == '\u{85}'
    ||| c == '\u{a0}'
    ||| c == '\u{1680}'
    ||| '\u{2000}' <= c && c <= '\u{200a}'
    ||| c == '\u{2028}'
    ||| c == '\u{2029}'
    ||| c == '\u{202f}'
    ||| c == '\u{205f}'
    ||| c == '\u{3000}'
}

/// Whether `c` is Unicode whitespace.
pub fn char_is_space(c: char) -> (b: bool)
    ensures
        b == is_space(c),
{
    ('\u{9}' <= c && c <= '\u{d}') || c == ' ' || c == '\u{85}' || c == '\u{a0}' || c == '\u{1680}'
        || ('\u{2000}' <= c && c <= '\u{200a}') || c == '\u{2028}' || c == '\u{2029}' || c
        == '\u{202f}' || c == '\u{205f}' || c == '\u{3000}'
}

/// The number of leading whitespace characters.
pub open spec fn leading_space(s: Seq<char>) -> nat
    decreases s.len(),
{
    if s.len() > 0 && is_space(s[0]) {
        1 + leading_space(s.drop_first())
    } else {
        0
    }
}

/// The number of trailing whitespace characters.
pub open spec fn trailing_space(s: Seq<char>) -> nat
    decreases s.len(),
{
    if s.len() > 0 && is_space(s.last()) {
        1 + trailing_space(s.drop_last())
    } else {
        0
    }
}

/// `s` without leading whitespace (`str::trim_start`).
pub open spec fn trim_start(s: Seq<char>) -> Seq<char> {
    s.skip(leading_space(s) as int)
}

/// `s` without trailing whitespace (`str::trim_end`).
pub open spec fn trim_end(s: Seq<char>) -> Seq<char> {
    s.take(s.len() - trailing_space(s))
}

/// `s` without leading or trailing whitespace (`str::trim`).
pub open spec fn trim(s: Seq<char>) -> Seq<char> {
    trim_end(trim_start(s))
}

/// `leading_space` counts exactly the first run of whitespace.
pub proof fn lemma_leading_space(s: Seq<char>, i: int)
    requires
        0 <= i <= s.len(),
        forall|k: int| 0 <= k < i ==> is_space(s[k]),
        i == s.len() || !is_space(s[i]),
    ensures
        leading_space(s) == i,
    decreases i,
{
    if i > 0 {
        lemma_leading_space(s.drop_first(), i - 1);
    }
}

/// `trailing_space` counts exactly the last run of whitespace.
pub proof fn lemma_trailing_space(s: Seq<char>, j: int)
    requires
        0 <= j <= s.len(),
        forall|k: int| j <= k < s.len() ==> is_space(s[k]),
        j == 0 || !is_space(s[j - 1]),
    ensures
        trailing_space(s) == s.len() - j,
    decreases s.len() - j,
{
    if j < s.len() {
        lemma_trailing_space(s.drop_last(), j);
    }
}

/// The number of leading whitespace characters of `s`.
pub fn count_leading_space(s: &[char]) -> (n: usize)
    ensures
        n == leading_space(s@),
        n <= s.len(),
{
    let mut i: usize = 0;
    while i < s.len() && char_is_space(s[i])
        invariant
            0 <= i <= s.len(),
            forall|k: int| 0 <= k < i ==> is_space(s@[k]),
        decreases s.len() - i,
    {
        i = i + 1;
    }
    proof { lemma_leading_space(s@, i as int); }
    i
}

/// The number of trailing whitespace characters of `s`.
pub fn count_trailing_space(s: &[char]) -> (n: usize)
    ensures
        n == trailing_space(s@),
        n <= s.len(),
{
    let mut j: usize = s.len();
    while j > 0 && char_is_space(s[j - 1])
        invariant
            0 <= j <= s.len(),
            forall|k: int| j <= k < s.len() ==> is_space(s@[k]),
        decreases j,
    {
        j = j - 1;
    }
    proof { lemma_trailing_space(s@, j as int); }
    s.len() - j
}

/// `s` without leading or trailing whitespace.
pub fn chars_trim(s: &[char]) -> (out: Vec<char>)
    ensures
        out@ == trim(s@),
{
    let lead = count_leading_space(s);
    let rest = slice_chars(s, lead, s.len());
    assert(rest@ =~= trim_start(s@));
    let trail = count_trailing_space(rest.as_slice());
    let out = slice_chars(rest.as_slice(), 0, rest.len() - trail);
    assert(out@ =~= trim_end(rest@));
    out
}

/// Whether `s` holds only whitespace.
pub open spec fn all_space(s: Seq<char>) -> bool {
    forall|i: int| 0 <= i < s.len() ==> is_space(#[trigger] s[i])
}

/// The length of the run of non-whitespace characters that starts `s`.
pub open spec fn word_len(s: Seq<char>) -> nat
    decreases s.len(),
{
    if s.len() > 0 && !is_space(s[0]) {
        1 + word_len(s.drop_first())
    } else {
        0
    }
}

/// The maximal runs of non-whitespace characters (`str::split_whitespace`).
pub open spec fn words(s: Seq<char>) -> Seq<Seq<char>>
    decreases s.len(),
{
    if s.len() == 0 {
        Seq::empty()
    } else if is_space(s[0]) {
        words(s.drop_first())
    } else {
        let n = word_len(s);
        if 0 < n <= s.len() {
            seq![s.take(n as int)] + words(s.skip(n as int))
        } else {
            Seq::empty()
        }
    }
}

proof fn lemma_word_len(s: Seq<char>, i: int)
    requires
        0 <= i <= s.len(),
        forall|k: int| 0 <= k < i ==> !is_space(s[k]),
        i == s.len() || is_space(s[i]),
    ensures
        word_len(s) == i,
    decreases i,
{
    if i > 0 {
        lemma_word_len(s.drop_first(), i - 1);
    }
}

/// The whitespace-separated words of `s`.
pub fn chars_words(s: &[char]) -> (out: Vec<Vec<char>>)
    ensures
        views(out@) == words(s@),
{
    let mut out: Vec<Vec<char>> = Vec::new();
    let mut i: usize = 0;
    assert(s@.skip(0) =~= s@);
    assert(views(out@) + words(s@) =~= words(s@));
    while i < s.len()
        invariant
            0 <= i <= s.len(),
            words(s@) == views(out@) + words(s@.skip(i as int)),
        decreases s.len() - i,
    {
        if char_is_space(s[i]) {
            assert(s@.skip(i as int).drop_first() =~= s@.skip(i + 1));
            i = i + 1;
        } else {
            let mut j = i;
            while j < s.len() && !char_is_space(s[j])
                invariant
                    i <= j <= s.len(),
                    forall|k: int| i <= k < j ==> !is_space(s@[k]),
                decreases s.len() - j,
            {
                j = j + 1;
            }
            let piece = slice_chars(s, i, j);
            proof {
                let rest = s@.skip(i as int);
                lemma_word_len(rest, j - i);
                assert(rest.take(j - i) =~= piece@);
                assert(rest.skip(j - i) =~= s@.skip(j as int));
                assert(views(out@.push(piece)) =~= views(out@).push(piece@));
                assert(views(out@) + words(rest) =~= views(out@.push(piece)) + words(s@.skip(j as int)));
            }
            out.push(piece);
            i = j;
        }
    }
    assert(s@.skip(s@.len() as int) =~= Seq::<char>::empty());
    assert(views(out@) + Seq::<Seq<char>>::empty() =~= views(out@));
    out
}

// ---------------------------------------------------------------------------
// ASCII case
// ---------------------------------------------------------------------------

/// The ASCII lowercase of a character; other characters are unchanged.
pub open spec fn lower(c: char) -> char {
    if 'A' <= c && c <= 'Z' {
        ((c as int) + 32) as char
    } else {
        c
    }
}

/// The ASCII lowercase of every character.
pub open spec fn lower_all(s: Seq<char>) -> Seq<char> {
    s.map_values(|c: char| lower(c))
}

/// The ASCII lowercase of a character.
pub fn char_lower(c: char) -> (r: char)
    ensures
        r == lower(c),
{
    if 'A' <= c && c <= 'Z' {
        let code: u32 = (c as u32) + 32;
        // `code` is an ASCII lowercase letter, a valid scalar value.
        char_from_ascii(code)
    } else {
        c
    }
}

/// The character whose code is `code`, an ASCII lowercase letter.
fn char_from_ascii(code: u32) -> (c: char)
    requires
        'a' as u32 <= code <= 'z' as u32,
    ensures
        c as int == code as int,
{
    let b: u8 = code as u8;
    b as char
}

/// The ASCII lowercase of every character of `s`.
pub fn chars_lower(s: &[char]) -> (out: Vec<char>)
    ensures
        out@ == lower_all(s@),
{
    let mut out: Vec<char> = Vec::new();
    let mut i: usize = 0;
    while i < s.len()
        invariant
            0 <= i <= s.len(),
            out@ == lower_all(s@.take(i as int)),
        decreases s.len() - i,
    {
        let c = char_lower(s[i]);
        out.push(c);
        assert(lower_all(s@.take(i + 1)) =~= lower_all(s@.take(i as int)).push(lower(s@[i as int])));
        i = i + 1;
    }
    assert(s@.take(s@.len() as int) =~= s@);
    out
}

// ---------------------------------------------------------------------------
// Splitting and joining undo each other
// ---------------------------------------------------------------------------

/// Joining `a` in front of at least one more piece puts a separator after it.
pub proof fn lemma_join_prepend(a: Seq<char>, rest: Seq<Seq<char>>, sep: Seq<char>)
    requires
        rest.len() >= 1,
    ensures
        join(seq![a] + rest, sep) == a + sep + join(rest, sep),
    decreases rest.len(),
{
    let all = seq![a] + rest;
    assert(all.last() == rest.last());
    if rest.len() == 1 {
        assert(all.drop_last() =~= seq![a]);
        assert(join(all.drop_last(), sep) == a);
        assert(join(all, sep) == join(all.drop_last(), sep) + sep + all.last());
        assert(join(rest, sep) == rest[0]);
        assert(rest.last() == rest[0]);
    } else {
        lemma_join_prepend(a, rest.drop_last(), sep);
        assert(all.drop_last() =~= seq![a] + rest.drop_last());
        assert(join(all, sep) == join(all.drop_last(), sep) + sep + all.last());
        assert(join(rest, sep) == join(rest.drop_last(), sep) + sep + rest.last());
        assert(a + sep + join(rest.drop_last(), sep) + sep + rest.last() =~= a + sep + (join(rest.drop_last(), sep) + sep + rest.last()));
    }
}

/// The first `c` of a text that holds one.
pub proof fn lemma_index_of_some(s: Seq<char>, c: char) -> (i: int)
    requires
        s.contains(c),
    ensures
        0 <= i < s.len(),
        s[i] == c,
        forall|k: int| 0 <= k < i ==> s[k] != c,
        index_of(s, c) == Some(i),
    decreases s.len(),
{
    if s[0] == c {
        lemma_index_of(s, c, 0);
        0
    } else {
        let rest = s.drop_first();
        let w = choose|w: int| 0 <= w < s.len() && s[w] == c;
        assert(rest[w - 1] == c);
        let j = lemma_index_of_some(rest, c);
        assert forall|k: int| 0 <= k < j + 1 implies s[k] != c by {
            if k > 0 {
                assert(s[k] == rest[k - 1]);
            }
        }
        lemma_index_of(s, c, j + 1);
        j + 1
    }
}

/// Splitting on `c` and joining with `c` gives the text back.
#[verifier::rlimit(50)]
#[verifier::spinoff_prover]
pub proof fn lemma_join_split(s: Seq<char>, c: char)
    ensures
        join(split_on(s, c), seq![c]) == s,
    decreases s.len(),
{
    reveal(split_on);
    if s.contains(c) {
        let i = lemma_index_of_some(s, c);
        let rest = s.skip(i + 1);
        lemma_join_split(rest, c);
        lemma_split_nonempty(rest, c);
        lemma_join_prepend(s.take(i), split_on(rest, c), seq![c]);
        assert(split_on(s, c) == seq![s.take(i)] + split_on(rest, c));
        assert(s.take(i) + seq![c] + rest =~= s);
    } else {
        lemma_index_of_none(s, c);
    }
}

/// Splitting never yields an empty list.
pub proof fn lemma_split_nonempty(s: Seq<char>, c: char)
    ensures
        split_on(s, c).len() >= 1,
    decreases s.len(),
{
    reveal(split_on);
    match index_of(s, c) {
        Some(i) => {
            if 0 <= i < s.len() {
                lemma_split_nonempty(s.skip(i + 1), c);
            }
        },
        None => {},
    }
}

/// Joining pieces free of `c` with `c` and splitting on `c` gives the
/// pieces back.
#[verifier::rlimit(50)]
#[verifier::spinoff_prover]
pub proof fn lemma_split_join(pieces: Seq<Seq<char>>, c: char)
    requires
        pieces.len() >= 1,
        forall|i: int| 0 <= i < pieces.len() ==> !(#[trigger] pieces[i]).contains(c),
    ensures
        split_on(join(pieces, seq![c]), c) == pieces,
    decreases pieces.len(),
{
    reveal(split_on);
    let first = pieces[0];
    assert(!first.contains(c));
    if pieces.len() == 1 {
        assert(join(pieces, seq![c]) == first);
        assert forall|k: int| 0 <= k < first.len() implies first[k] != c by {
            if first[k] == c {
                assert(first.contains(c));
            }
        }
        lemma_index_of_none(first, c);
        assert(split_on(first, c) =~= pieces);
    } else {
        let rest = pieces.drop_first();
        assert(pieces =~= seq![first] + rest);
        lemma_join_prepend(first, rest, seq![c]);
        let joined = join(pieces, seq![c]);
        assert(joined == first + seq![c] + join(rest, seq![c]));
        assert forall|k: int| 0 <= k < first.len() implies joined[k] != c by {
            assert(joined[k] == first[k]);
            if first[k] == c {
                assert(first.contains(c));
            }
        }
        assert(joined[first.len() as int] == c);
        lemma_index_of(joined, c, first.len() as int);
        assert(joined.take(first.len() as int) =~= first);
        assert(joined.skip(first.len() as int + 1) =~= join(rest, seq![c]));
        assert forall|i: int| 0 <= i < rest.len() implies !(#[trigger] rest[i]).contains(c) by {
            assert(rest[i] == pieces[i + 1]);
        }
        lemma_split_join(rest, c);
        assert(split_on(joined, c) =~= seq![first] + rest);
    }
}

// ---------------------------------------------------------------------------
// Decimal renderings
// ---------------------------------------------------------------------------

/// The character of a digit is a digit of that value.
pub proof fn lemma_digit_char(d: nat)
    requires
        d < 10,
    ensures
        is_digit(digit_char(d)),
        digit_value(digit_char(d)) == d,
        (digit_char(d) == '0') == (d == 0),
{
}

/// The rendering of `n` is a canonical decimal whose value is `n`.
pub proof fn lemma_decimal(n: nat)
    ensures
        is_canonical_decimal(decimal(n)),
        digits_value(decimal(n)) == n,
        decimal(n).len() >= 1,
        n >= 1 ==> decimal(n)[0] != '0',
    decreases n,
{
    let d = decimal(n);
    assert(digits_value(Seq::<char>::empty()) == 0);
    if n < 10 {
        lemma_digit_char(n);
        assert(d.drop_last() =~= Seq::<char>::empty());
        assert(d.last() == digit_char(n));
        assert(digits_value(d) == digits_value(d.drop_last()) * 10 + digit_value(d.last()));
    } else {
        lemma_decimal(n / 10);
        lemma_digit_char(n % 10);
        let p = decimal(n / 10);
        assert(d == p.push(digit_char(n % 10)));
        assert(d.drop_last() =~= p);
        assert(d[0] == p[0]);
        assert forall|i: int| 0 <= i < d.len() implies is_digit(#[trigger] d[i]) by {
            if i < p.len() {
                assert(d[i] == p[i]);
            }
        }
        assert(digits_value(d) == digits_value(p) * 10 + digit_value(digit_char(n % 10)));
        assert((n / 10) * 10 + n % 10 == n);
    }
}

/// A canonical decimal of two or more digits has a value of at least ten.
proof fn lemma_digits_positive(s: Seq<char>)
    requires
        is_canonical_decimal(s),
        s.len() >= 2,
    ensures
        digits_value(s) >= 10,
    decreases s.len(),
{
    let prefix = s.drop_last();
    assert(prefix[0] == s[0]);
    assert(all_digits(prefix)) by {
        assert forall|i: int| 0 <= i < prefix.len() implies is_digit(#[trigger] prefix[i]) by {
            assert(prefix[i] == s[i]);
        }
    }
    assert(digits_value(s) == digits_value(prefix) * 10 + digit_value(s.last()));
    if prefix.len() == 1 {
        assert(prefix.drop_last() =~= Seq::<char>::empty());
        assert(digits_value(Seq::<char>::empty()) == 0);
        assert(prefix.last() == s[0]);
        assert(is_digit(s[0]));
        assert(digits_value(prefix) == digits_value(prefix.drop_last()) * 10 + digit_value(prefix.last()));
        assert(digit_value(s[0]) >= 1);
    } else {
        lemma_digits_positive(prefix);
    }
}

/// A canonical decimal is the rendering of its value.
pub proof fn lemma_canonical_decimal(s: Seq<char>)
    requires
        is_canonical_decimal(s),
    ensures
        decimal(digits_value(s)) == s,
    decreases s.len(),
{
    let n = digits_value(s);
    if s.len() == 1 {
        assert(s.drop_last() =~= Seq::<char>::empty());
        assert(is_digit(s[0]));
        assert(s.last() == s[0]);
        assert(digits_value(Seq::<char>::empty()) == 0);
        assert(digits_value(s) == digits_value(s.drop_last()) * 10 + digit_value(s.last()));
        assert(n == digit_value(s[0]));
        assert(decimal(n) =~= s);
    } else {
        let prefix = s.drop_last();
        assert(prefix[0] == s[0]);
        assert(all_digits(prefix)) by {
            assert forall|i: int| 0 <= i < prefix.len() implies is_digit(#[trigger] prefix[i]) by {
                assert(prefix[i] == s[i]);
            }
        }
        assert(is_canonical_decimal(prefix));
        lemma_canonical_decimal(prefix);
        lemma_digits_positive(s);
        assert(is_digit(s.last()));
        assert(n == digits_value(prefix) * 10 + digit_value(s.last()));
        assert(n / 10 == digits_value(prefix));
        assert(n % 10 == digit_value(s.last()));
        assert(digit_char(digit_value(s.last())) == s.last());
        assert(decimal(n) =~= s);
    }
}

/// `leading_space` counts the first run of whitespace, within the text.
pub proof fn lemma_leading_space_bound(s: Seq<char>)
    ensures
        leading_space(s) <= s.len(),
        forall|k: int| 0 <= k < leading_space(s) ==> is_space(#[trigger] s[k]),
        leading_space(s) == s.len() || !is_space(s[leading_space(s) as int]),
    decreases s.len(),
{
    if s.len() > 0 && is_space(s[0]) {
        let rest = s.drop_first();
        lemma_leading_space_bound(rest);
        assert forall|k: int| 0 <= k < leading_space(s) implies is_space(#[trigger] s[k]) by {
            if k > 0 {
                assert(s[k] == rest[k - 1]);
            }
        }
        if leading_space(s) < s.len() {
            assert(s[leading_space(s) as int] == rest[leading_space(rest) as int]);
        }
    }
}

// ---------------------------------------------------------------------------
// Words joined with spaces
// ---------------------------------------------------------------------------

/// A non-empty run of characters none of which is whitespace.
pub open spec fn solid(w: Seq<char>) -> bool {
    w.len() > 0 && forall|k: int| 0 <= k < w.len() ==> !is_space(#[trigger] w[k])
}

/// Every word is solid.
pub proof fn lemma_words_solid(s: Seq<char>)
    ensures
        forall|i: int| 0 <= i < words(s).len() ==> solid(#[trigger] words(s)[i]),
    decreases s.len(),
{
    if s.len() == 0 {
    } else if is_space(s[0]) {
        lemma_words_solid(s.drop_first());
        assert(words(s) == words(s.drop_first()));
        assert forall|i: int| 0 <= i < words(s).len() implies solid(#[trigger] words(s)[i]) by {
            assert(words(s)[i] == words(s.drop_first())[i]);
        }
    } else {
        let n = word_len(s);
        lemma_word_len_bound(s);
        if 0 < n <= s.len() {
            lemma_words_solid(s.skip(n as int));
            let w = s.take(n as int);
            assert(words(s) == seq![w] + words(s.skip(n as int)));
            assert forall|k: int| 0 <= k < w.len() implies !is_space(#[trigger] w[k]) by {
                lemma_word_len_prefix(s, k);
                assert(w[k] == s[k]);
            }
            assert(solid(w));
            assert forall|i: int| 0 <= i < words(s).len() implies solid(#[trigger] words(s)[i]) by {
                if i > 0 {
                    assert(words(s)[i] == words(s.skip(n as int))[i - 1]);
                }
            }
        }
    }
}

/// The first word is at most the whole text.
proof fn lemma_word_len_bound(s: Seq<char>)
    ensures
        word_len(s) <= s.len(),
        s.len() > 0 && !is_space(s[0]) ==> word_len(s) > 0,
    decreases s.len(),
{
    if s.len() > 0 && !is_space(s[0]) {
        lemma_word_len_bound(s.drop_first());
    }
}

/// The characters of the first word are not whitespace.
proof fn lemma_word_len_prefix(s: Seq<char>, k: int)
    requires
        0 <= k < word_len(s),
    ensures
        k < s.len(),
        !is_space(s[k]),
    decreases k,
{
    lemma_word_len_bound(s);
    if k > 0 {
        lemma_word_len_prefix(s.drop_first(), k - 1);
        assert(s.drop_first()[k - 1] == s[k]);
    }
}

/// Solid words joined with single spaces split back into those words.
#[verifier::rlimit(50)]
#[verifier::spinoff_prover]
pub proof fn lemma_words_of_join(ws: Seq<Seq<char>>)
    requires
        ws.len() >= 1,
        forall|i: int| 0 <= i < ws.len() ==> solid(#[trigger] ws[i]),
    ensures
        words(join(ws, seq![' '])) == ws,
    decreases ws.len(),
{
    let first = ws[0];
    assert(solid(first));
    if ws.len() == 1 {
        assert(join(ws, seq![' ']) == first);
        lemma_word_len(first, first.len() as int);
        assert(first.take(first.len() as int) =~= first);
        assert(first.skip(first.len() as int) =~= Seq::<char>::empty());
        assert(words(Seq::<char>::empty()) == Seq::<Seq<char>>::empty());
        assert(words(first) == seq![first.take(first.len() as int)] + words(first.skip(first.len() as int)));
        assert(words(first) =~= ws);
    } else {
        let rest = ws.drop_first();
        assert(ws =~= seq![first] + rest);
        lemma_join_prepend(first, rest, seq![' ']);
        let j = join(ws, seq![' ']);
        let tail = join(rest, seq![' ']);
        assert(j == first + seq![' '] + tail);
        assert forall|k: int| 0 <= k < first.len() implies !is_space(j[k]) by {
            assert(j[k] == first[k]);
        }
        assert(j[first.len() as int] == ' ');
        lemma_word_len(j, first.len() as int);
        assert(j.take(first.len() as int) =~= first);
        let after = j.skip(first.len() as int);
        assert(after =~= seq![' '] + tail);
        assert(after.drop_first() =~= tail);
        assert(words(after) == words(tail));
        assert forall|i: int| 0 <= i < rest.len() implies solid(#[trigger] rest[i]) by {
            assert(rest[i] == ws[i + 1]);
        }
        lemma_words_of_join(rest);
        assert(words(j) =~= seq![first] + rest);
    }
}

/// Solid words joined with spaces start and end with them.
pub proof fn lemma_join_ends(ws: Seq<Seq<char>>)
    requires
        ws.len() >= 1,
        forall|i: int| 0 <= i < ws.len() ==> solid(#[trigger] ws[i]),
    ensures
        join(ws, seq![' ']).len() > 0,
        join(ws, seq![' '])[0] == ws[0][0],
        join(ws, seq![' ']).last() == ws.last().last(),
        ws.len() >= 2 ==> join(ws, seq![' ']).contains(' '),
{
    assert(solid(ws[0]));
    assert(solid(ws.last()));
    if ws.len() == 1 {
        assert(join(ws, seq![' ']) == ws[0]);
    } else {
        let rest = ws.drop_first();
        assert(ws =~= seq![ws[0]] + rest);
        lemma_join_prepend(ws[0], rest, seq![' ']);
        let j = join(ws, seq![' ']);
        assert(j[0] == ws[0][0]);
        assert(j[ws[0].len() as int] == ' ');
        assert(j == join(ws.drop_last(), seq![' ']) + seq![' '] + ws.last());
    }
}

/// Solid words joined with spaces have nothing to trim.
pub proof fn lemma_trim_join(ws: Seq<Seq<char>>)
    requires
        ws.len() >= 1,
        forall|i: int| 0 <= i < ws.len() ==> solid(#[trigger] ws[i]),
    ensures
        trim(join(ws, seq![' '])) == join(ws, seq![' ']),
{
    let j = join(ws, seq![' ']);
    lemma_join_ends(ws);
    assert(solid(ws[0]));
    assert(solid(ws.last()));
    assert(!is_space(j[0]));
    assert(!is_space(j.last()));
    lemma_leading_space(j, 0);
    assert(trim_start(j) =~= j);
    lemma_trailing_space(j, j.len() as int);
    assert(trim_end(j) =~= j);
}

/// Lines split from a text hold no separator.
#[verifier::rlimit(50)]
#[verifier::spinoff_prover]
pub proof fn lemma_split_pieces(s: Seq<char>, c: char)
    ensures
        forall|k: int| 0 <= k < split_on(s, c).len() ==> !(#[trigger] split_on(s, c)[k]).contains(c),
    decreases s.len(),
{
    reveal(split_on);
    if s.contains(c) {
        let i = lemma_index_of_some(s, c);
        lemma_split_pieces(s.skip(i + 1), c);
        let head = s.take(i);
        if head.contains(c) {
            let w = choose|w: int| 0 <= w < head.len() && head[w] == c;
            assert(s[w] == c);
        }
        assert forall|k: int| 0 <= k < split_on(s, c).len() implies !(#[trigger] split_on(s, c)[k]).contains(c) by {
            if k > 0 {
                assert(split_on(s, c)[k] == split_on(s.skip(i + 1), c)[k - 1]);
            }
        }
    } else {
        lemma_index_of_none(s, c);
    }
}

/// The first occurrence of a needle that occurs.
pub proof fn lemma_find_seq_some(s: Seq<char>, needle: Seq<char>, w: int)
    requires
        occurs_at(s, needle, w),
    ensures
        find_seq(s, needle) matches Some(i) && occurs_at(s, needle, i) && i <= w,
    decreases w,
{
    if exists|k: int| 0 <= k < w && occurs_at(s, needle, k) {
        let k = choose|k: int| 0 <= k < w && occurs_at(s, needle, k);
        lemma_find_seq_some(s, needle, k);
    } else {
        lemma_find_seq_first(s, needle, w);
    }
}

} // verus!
