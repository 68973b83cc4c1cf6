//! Text as sequences of characters: searching, splitting, trimming, joining
//! and ordering, stated over `Seq<char>`.

use vstd::prelude::*;

use crate::seqs::views;

verus! {

broadcast use {vstd::std_specs::vec::group_vec_axioms, crate::seqs::group_views};

/// `String::push` appends one character to the end of the string.
pub assume_specification[ String::push ](buffer: &mut String, c: char)
    ensures
        final(buffer)@ == old(buffer)@.push(c),
;

/// `str` equality holds exactly when both strings have the same characters.
pub assume_specification[ <str as PartialEq>::eq ](left: &str, right: &str) -> (r: bool)
    ensures
        r == (left@ == right@),
;

/// Whether a character has the property `White_Space` of Unicode.
pub open spec fn is_whitespace(c: char) -> bool {
    ||| '\u{9}' <= c <= '\u{D}'
    ||| c == ' ' || c == '\u{85}' || c == '\u{A0}' || c == '\u{1680}'
    ||| '\u{2000}' <= c <= '\u{200A}'
    ||| c == '\u{2028}' || c == '\u{2029}' || c == '\u{202F}' || c == '\u{205F}'
    ||| c == '\u{3000}'
}

pub(crate) fn char_is_whitespace(c: char) -> (r: bool)
    ensures
        r == is_whitespace(c),
{
    ('\u{9}' <= c && c <= '\u{D}') || c == ' ' || c == '\u{85}' || c == '\u{A0}' || c == '\u{1680}'
        || ('\u{2000}' <= c && c <= '\u{200A}') || c == '\u{2028}' || c == '\u{2029}' || c
        == '\u{202F}' || c == '\u{205F}' || c == '\u{3000}'
}

/// Whether two texts have the same characters.
pub fn same(left: &str, right: &str) -> (r: bool)
    ensures
        r == (left@ == right@),
{
    left.eq(right)
}

/// The characters of a text, in order.
pub fn chars(text: &str) -> (r: Vec<char>)
    ensures
        r@ == text@,
{
    let mut out: Vec<char> = Vec::new();
    for c in it: text.chars()
        invariant
            out@ == it.seq().take(it.index() as int),
            it.seq() == text@,
    {
        out.push(c);
    }
    assert(text@.take(text@.len() as int) =~= text@);
    out
}

/// The text made of some characters.
pub fn text_of(chars: &[char]) -> (r: String)
    ensures
        r@ == chars@,
{
    let mut out = String::new();
    let mut i: usize = 0;
    while i < chars.len()
        invariant
            i <= chars@.len(),
            out@ == chars@.take(i as int),
        decreases chars@.len() - i,
    {
        out.push(chars[i]);
        i += 1;
    }
    assert(chars@.take(chars@.len() as int) =~= chars@);
    out
}

/// The text made of the characters from `start` up to `end`.
pub fn slice(chars: &[char], start: usize, end: usize) -> (r: String)
    requires
        start <= end <= chars@.len(),
    ensures
        r@ == chars@.subrange(start as int, end as int),
{
    let mut out = String::new();
    let mut i: usize = start;
    while i < end
        invariant
            start <= i <= end <= chars@.len(),
            out@ == chars@.subrange(start as int, i as int),
        decreases end - i,
    {
        out.push(chars[i]);
        i += 1;
    }
    out
}

/// Whether `pattern` occurs in `s` at position `i`.
pub open spec fn matches_at(s: Seq<char>, pattern: Seq<char>, i: int) -> bool {
    0 <= i && i + pattern.len() <= s.len() && s.subrange(i, i + pattern.len()) == pattern
}

pub open spec fn has_prefix(s: Seq<char>, prefix: Seq<char>) -> bool {
    matches_at(s, prefix, 0)
}

pub open spec fn has_suffix(s: Seq<char>, suffix: Seq<char>) -> bool {
    matches_at(s, suffix, s.len() - suffix.len())
}

pub open spec fn contains_text(s: Seq<char>, pattern: Seq<char>) -> bool {
    find_from(s, pattern, 0) is Some
}

/// The first position at or after `from` at which `pattern` occurs.
pub open spec fn find_from(s: Seq<char>, pattern: Seq<char>, from: int) -> Option<int>
    decreases s.len() + 1 - from,
{
    if from < 0 || from + pattern.len() > s.len() {
        None
    } else if matches_at(s, pattern, from) {
        Some(from)
    } else {
        find_from(s, pattern, from + 1)
    }
}

/// The last position at or before `to` at which `pattern` occurs.
pub open spec fn find_back(s: Seq<char>, pattern: Seq<char>, to: int) -> Option<int>
    decreases to + 1,
{
    if to < 0 {
        None
    } else if matches_at(s, pattern, to) {
        Some(to)
    } else {
        find_back(s, pattern, to - 1)
    }
}

/// What stands before the first separator, or the whole text.
pub open spec fn before_first(s: Seq<char>, separator: Seq<char>) -> Seq<char> {
    match find_from(s, separator, 0) {
        Some(i) => s.subrange(0, i),
        None => s,
    }
}

/// What stands after the first separator; nothing where there is none.
pub open spec fn after_first(s: Seq<char>, separator: Seq<char>) -> Seq<char> {
    match find_from(s, separator, 0) {
        Some(i) => s.subrange(i + separator.len(), s.len() as int),
        None => Seq::empty(),
    }
}

/// What stands after the last separator, or the whole text.
pub open spec fn after_last(s: Seq<char>, separator: Seq<char>) -> Seq<char> {
    match find_back(s, separator, s.len() - separator.len()) {
        Some(i) => s.subrange(i + separator.len(), s.len() as int),
        None => s,
    }
}

/// A found position is an occurrence, and no occurrence comes before it.
pub proof fn find_from_found(s: Seq<char>, pattern: Seq<char>, from: int)
    requires
        0 <= from,
    ensures
        find_from(s, pattern, from) matches Some(i) ==> from <= i && matches_at(s, pattern, i)
            && forall|j: int| from <= j < i ==> !matches_at(s, pattern, j),
        find_from(s, pattern, from) is None ==> forall|j: int|
            from <= j ==> !matches_at(s, pattern, j),
    decreases s.len() + 1 - from,
{
    if from + pattern.len() <= s.len() && !matches_at(s, pattern, from) {
        find_from_found(s, pattern, from + 1);
    }
}

pub proof fn find_back_found(s: Seq<char>, pattern: Seq<char>, to: int)
    ensures
        find_back(s, pattern, to) matches Some(i) ==> i <= to && matches_at(s, pattern, i)
            && forall|j: int| i < j <= to ==> !matches_at(s, pattern, j),
        find_back(s, pattern, to) is None ==> forall|j: int|
            j <= to ==> !matches_at(s, pattern, j),
    decreases to + 1,
{
    if to >= 0 && !matches_at(s, pattern, to) {
        find_back_found(s, pattern, to - 1);
    }
}

/// A text contains a pattern exactly when the pattern occurs at some position.
pub proof fn contains_text_iff(s: Seq<char>, pattern: Seq<char>)
    ensures
        contains_text(s, pattern) <==> exists|i: int| matches_at(s, pattern, i),
{
    find_from_found(s, pattern, 0);
}

pub(crate) fn occurs_at(s: &[char], pattern: &[char], i: usize) -> (r: bool)
    ensures
        r == matches_at(s@, pattern@, i as int),
{
    if pattern.len() > s.len() || i > s.len() - pattern.len() {
        return false;
    }
    let size: usize = s.len();
    let mut k: usize = 0;
    while k < pattern.len()
        invariant
            size == s@.len(),
            i + pattern@.len() <= s@.len(),
            k <= pattern@.len(),
            forall|j: int| 0 <= j < k ==> s@[i + j] == pattern@[j],
        decreases pattern@.len() - k,
    {
        if s[i + k] != pattern[k] {
            assert(s@.subrange(i as int, i + pattern@.len())[k as int] != pattern@[k as int]);
            return false;
        }
        k += 1;
    }
    assert(s@.subrange(i as int, i + pattern@.len()) =~= pattern@);
    true
}

pub(crate) fn find(s: &[char], pattern: &[char], from: usize) -> (r: Option<usize>)
    ensures
        r is Some <==> find_from(s@, pattern@, from as int) is Some,
        r matches Some(i) ==> find_from(s@, pattern@, from as int) == Some(i as int),
        r matches Some(i) ==> from <= i && matches_at(s@, pattern@, i as int),
{
    if pattern.len() > s.len() {
        return None;
    }
    let last: usize = s.len() - pattern.len();
    let mut i: usize = from;
    while i <= last
        invariant
            from <= i,
            last == s@.len() - pattern@.len(),
            find_from(s@, pattern@, from as int) == find_from(s@, pattern@, i as int),
        decreases s@.len() + 1 - i,
    {
        if occurs_at(s, pattern, i) {
            return Some(i);
        }
        if i == last {
            assert(find_from(s@, pattern@, i + 1) is None);
            return None;
        }
        i += 1;
    }
    None
}

pub(crate) fn rfind(s: &[char], pattern: &[char]) -> (r: Option<usize>)
    ensures
        r is Some <==> find_back(s@, pattern@, s@.len() - pattern@.len()) is Some,
        r matches Some(i) ==> find_back(s@, pattern@, s@.len() - pattern@.len()) == Some(i as int)
            && matches_at(s@, pattern@, i as int),
{
    if pattern.len() > s.len() {
        return None;
    }
    let mut i: usize = s.len() - pattern.len();
    loop
        invariant
            find_back(s@, pattern@, s@.len() - pattern@.len()) == find_back(
                s@,
                pattern@,
                i as int,
            ),
        decreases i,
    {
        if occurs_at(s, pattern, i) {
            return Some(i);
        }
        if i == 0 {
            assert(find_back(s@, pattern@, -1) is None);
            return None;
        }
        i -= 1;
    }
}

/// Whether `s` begins with `prefix`.
pub fn starts_with(s: &str, prefix: &str) -> (r: bool)
    ensures
        r == has_prefix(s@, prefix@),
{
    occurs_at(chars(s).as_slice(), chars(prefix).as_slice(), 0)
}

/// Whether `s` ends with `suffix`.
pub fn ends_with(s: &str, suffix: &str) -> (r: bool)
    ensures
        r == has_suffix(s@, suffix@),
{
    let s_chars = chars(s);
    let suffix_chars = chars(suffix);
    if suffix_chars.len() > s_chars.len() {
        return false;
    }
    occurs_at(s_chars.as_slice(), suffix_chars.as_slice(), s_chars.len() - suffix_chars.len())
}

/// Whether `pattern` occurs in `s`.
pub fn contains(s: &str, pattern: &str) -> (r: bool)
    ensures
        r == contains_text(s@, pattern@),
{
    find(chars(s).as_slice(), chars(pattern).as_slice(), 0).is_some()
}

/// What stands before the first separator, or the whole text.
pub fn head(s: &str, separator: &str) -> (r: String)
    ensures
        r@ == before_first(s@, separator@),
{
    let s_chars = chars(s);
    match find(s_chars.as_slice(), chars(separator).as_slice(), 0) {
        Some(i) => slice(s_chars.as_slice(), 0, i),
        None => s.to_owned(),
    }
}

/// What stands after the first separator; nothing where there is none.
pub fn tail(s: &str, separator: &str) -> (r: String)
    ensures
        r@ == after_first(s@, separator@),
{
    let s_chars = chars(s);
    let separator_chars = chars(separator);
    match find(s_chars.as_slice(), separator_chars.as_slice(), 0) {
        Some(i) => {
            let end: usize = s_chars.len();
            slice(s_chars.as_slice(), i + separator_chars.len(), end)
        },
        None => String::new(),
    }
}

/// What stands after the last separator, or the whole text.
pub fn last_part(s: &str, separator: &str) -> (r: String)
    ensures
        r@ == after_last(s@, separator@),
{
    let s_chars = chars(s);
    let separator_chars = chars(separator);
    match rfind(s_chars.as_slice(), separator_chars.as_slice()) {
        Some(i) => {
            let end: usize = s_chars.len();
            slice(s_chars.as_slice(), i + separator_chars.len(), end)
        },
        None => s.to_owned(),
    }
}

/// The pieces of a text between separators.
pub open spec fn pieces(s: Seq<char>, separator: Seq<char>) -> Seq<Seq<char>>
    decreases s.len(),
{
    match find_from(s, separator, 0) {
        Some(i) => if separator.len() > 0 && 0 <= i && i + separator.len() <= s.len() {
            seq![s.subrange(0, i)] + pieces(
                s.subrange(i + separator.len(), s.len() as int),
                separator,
            )
        } else {
            seq![s]
        },
        None => seq![s],
    }
}

/// The pieces of a text between separators.
pub fn split(s: &str, separator: &str) -> (r: Vec<String>)
    requires
        separator@.len() > 0,
    ensures
        views(r@) == pieces(s@, separator@),
{
    let s_chars = chars(s);
    let separator_chars = chars(separator);
    let mut out: Vec<String> = Vec::new();
    let mut rest: Vec<char> = s_chars;
    loop
        invariant
            separator_chars@ == separator@,
            separator@.len() > 0,
            views(out@) + pieces(rest@, separator@) == pieces(s@, separator@),
        decreases rest@.len(),
    {
        match find(rest.as_slice(), separator_chars.as_slice(), 0) {
            Some(i) => {
                let ghost before = views(out@);
                out.push(slice(rest.as_slice(), 0, i));
                let end: usize = rest.len();
                let next = part(rest.as_slice(), i + separator_chars.len(), end);
                proof {
                    assert(views(out@) + pieces(next@, separator@) =~= before + pieces(
                        rest@,
                        separator@,
                    ));
                }
                rest = next;
            },
            None => {
                let ghost before = views(out@);
                out.push(text_of(rest.as_slice()));
                assert(views(out@) =~= before + pieces(rest@, separator@));
                return out;
            },
        }
    }
}

/// The characters from `start` up to `end`.
pub(crate) fn part(chars: &[char], start: usize, end: usize) -> (r: Vec<char>)
    requires
        start <= end <= chars@.len(),
    ensures
        r@ == chars@.subrange(start as int, end as int),
{
    let mut out: Vec<char> = Vec::new();
    let mut i: usize = start;
    while i < end
        invariant
            start <= i <= end <= chars@.len(),
            out@ == chars@.subrange(start as int, i as int),
        decreases end - i,
    {
        out.push(chars[i]);
        i += 1;
    }
    out
}

/// The texts with `separator` between them.
pub open spec fn joined(parts: Seq<Seq<char>>, separator: Seq<char>) -> Seq<char>
    decreases parts.len(),
{
    if parts.len() == 0 {
        Seq::empty()
    } else if parts.len() == 1 {
        parts[0]
    } else {
        joined(parts.drop_last(), separator) + separator + parts.last()
    }
}

/// The texts with `separator` between them.
pub fn join(parts: &Vec<String>, separator: &str) -> (r: String)
    ensures
        r@ == joined(views(parts@), separator@),
{
    let mut out = String::new();
    let mut i: usize = 0;
    proof {
        assert(views(parts@).take(0) =~= Seq::empty());
    }
    while i < parts.len()
        invariant
            i <= parts@.len(),
            out@ == joined(views(parts@).take(i as int), separator@),
        decreases parts@.len() - i,
    {
        proof {
            crate::seqs::take_step(views(parts@), i as int);
        }
        if i > 0 {
            out.append(separator);
        }
        out.append(parts[i].as_str());
        proof {
            if i == 0 {
                assert(out@ =~= parts@[0]@);
            }
        }
        i += 1;
    }
    proof {
        crate::seqs::take_all(views(parts@));
    }
    out
}

pub open spec fn strip_return(s: Seq<char>) -> Seq<char> {
    if s.len() > 0 && s.last() == '\r' {
        s.drop_last()
    } else {
        s
    }
}

/// The lines of a text: each ends with `\n` or `\r\n`, the last one perhaps with
/// neither.
pub open spec fn lines_of(s: Seq<char>) -> Seq<Seq<char>>
    decreases s.len(),
{
    if s.len() == 0 {
        Seq::empty()
    } else {
        match find_from(s, seq!['\n'], 0) {
            Some(i) => if 0 <= i < s.len() {
                seq![strip_return(s.subrange(0, i))] + lines_of(s.subrange(i + 1, s.len() as int))
            } else {
                seq![s]
            },
            None => seq![s],
        }
    }
}

/// The lines of a text.
pub fn lines(s: &str) -> (r: Vec<String>)
    ensures
        views(r@) == lines_of(s@),
{
    let mut out: Vec<String> = Vec::new();
    let mut newline: Vec<char> = Vec::new();
    newline.push('\n');
    let mut rest: Vec<char> = chars(s);
    assert(newline@ =~= seq!['\n']);
    while rest.len() > 0
        invariant
            newline@ == seq!['\n'],
            views(out@) + lines_of(rest@) == lines_of(s@),
        decreases rest@.len(),
    {
        let ghost before = views(out@);
        match find(rest.as_slice(), newline.as_slice(), 0) {
            Some(i) => {
                let end: usize = if i > 0 && rest[i - 1] == '\r' {
                    i - 1
                } else {
                    i
                };
                proof {
                    let line = rest@.subrange(0, i as int);
                    if end < i {
                        assert(line.last() == '\r');
                        assert(line.drop_last() =~= rest@.subrange(0, end as int));
                    }
                    assert(strip_return(line) == rest@.subrange(0, end as int));
                }
                out.push(slice(rest.as_slice(), 0, end));
                let next = part(rest.as_slice(), i + 1, rest.len());
                assert(views(out@) + lines_of(next@) =~= before + lines_of(rest@));
                rest = next;
            },
            None => {
                out.push(text_of(rest.as_slice()));
                assert(views(out@) =~= before + lines_of(rest@));
                return out;
            },
        }
    }
    assert(views(out@) + lines_of(rest@) =~= views(out@));
    out
}

/// The text without the whitespace at its start.
pub open spec fn trim_start(s: Seq<char>) -> Seq<char>
    decreases s.len(),
{
    if s.len() > 0 && is_whitespace(s[0]) {
        trim_start(s.skip(1))
    } else {
        s
    }
}

/// The text without the whitespace at its end.
pub open spec fn trim_end(s: Seq<char>) -> Seq<char>
    decreases s.len(),
{
    if s.len() > 0 && is_whitespace(s.last()) {
        trim_end(s.drop_last())
    } else {
        s
    }
}

/// The text without the whitespace at its start and its end.
pub open spec fn trimmed(s: Seq<char>) -> Seq<char> {
    trim_end(trim_start(s))
}

/// Whether a text holds nothing but whitespace.
pub open spec fn is_blank(s: Seq<char>) -> bool {
    forall|i: int| 0 <= i < s.len() ==> is_whitespace(#[trigger] s[i])
}

/// A text is blank exactly when nothing is left of it once trimmed.
pub proof fn trimmed_is_empty_iff_blank(s: Seq<char>)
    ensures
        trimmed(s).len() == 0 <==> is_blank(s),
    decreases s.len(),
{
    if s.len() > 0 && is_whitespace(s[0]) {
        trimmed_is_empty_iff_blank(s.skip(1));
        if is_blank(s.skip(1)) {
            assert forall|i: int| 0 <= i < s.len() implies is_whitespace(#[trigger] s[i]) by {
                if i > 0 {
                    assert(s.skip(1)[i - 1] == s[i]);
                }
            }
        }
        if is_blank(s) {
            assert forall|i: int| 0 <= i < s.skip(1).len() implies is_whitespace(
                #[trigger] s.skip(1)[i],
            ) by {
                assert(s.skip(1)[i] == s[i + 1]);
            }
        }
    } else if s.len() > 0 {
        trim_end_keeps_first(s);
    }
}

proof fn trim_end_keeps_first(s: Seq<char>)
    requires
        s.len() > 0,
        !is_whitespace(s[0]),
    ensures
        trim_end(s).len() > 0,
    decreases s.len(),
{
    if is_whitespace(s.last()) {
        trim_end_keeps_first(s.drop_last());
    }
}

/// The text without the whitespace at its start and its end.
pub fn trim(s: &str) -> (r: String)
    ensures
        r@ == trimmed(s@),
{
    let all = chars(s);
    let mut start: usize = 0;
    assert(s@.skip(0) =~= s@);
    while start < all.len() && char_is_whitespace(all[start])
        invariant
            all@ == s@,
            start <= all@.len(),
            trim_start(s@) == trim_start(s@.skip(start as int)),
        decreases all@.len() - start,
    {
        assert(s@.skip(start as int)[0] == s@[start as int]);
        assert(s@.skip(start as int).skip(1) =~= s@.skip(start + 1));
        start += 1;
    }
    let ghost rest = trim_start(s@);
    assert(rest == s@.skip(start as int)) by {
        if start < all@.len() {
            assert(s@.skip(start as int)[0] == s@[start as int]);
        }
    }
    let mut end: usize = all.len();
    assert(s@.subrange(start as int, end as int) =~= rest);
    while end > start && char_is_whitespace(all[end - 1])
        invariant
            all@ == s@,
            start <= end <= all@.len(),
            trim_end(rest) == trim_end(s@.subrange(start as int, end as int)),
        decreases end,
    {
        assert(s@.subrange(start as int, end as int).last() == s@[end - 1]);
        assert(s@.subrange(start as int, end as int).drop_last() =~= s@.subrange(
            start as int,
            end - 1,
        ));
        end -= 1;
    }
    assert(trim_end(rest) == s@.subrange(start as int, end as int)) by {
        if end > start {
            assert(s@.subrange(start as int, end as int).last() == s@[end - 1]);
        }
    }
    slice(all.as_slice(), start, end)
}

/// Whether a text holds nothing but whitespace.
pub fn blank(s: &str) -> (r: bool)
    ensures
        r == is_blank(s@),
{
    let all = chars(s);
    let mut i: usize = 0;
    while i < all.len()
        invariant
            all@ == s@,
            i <= all@.len(),
            forall|j: int| 0 <= j < i ==> is_whitespace(#[trigger] s@[j]),
        decreases all@.len() - i,
    {
        if !char_is_whitespace(all[i]) {
            return false;
        }
        i += 1;
    }
    true
}

/// The text with one character put in place of another.
pub open spec fn with_char(s: Seq<char>, from: char, to: char) -> Seq<char> {
    Seq::new(
        s.len(),
        |i: int|
            if s[i] == from {
                to
            } else {
                s[i]
            },
    )
}

/// The text with one character put in place of another.
pub fn replace_char(s: &str, from: char, to: char) -> (r: String)
    ensures
        r@ == with_char(s@, from, to),
{
    let all = chars(s);
    let mut out = String::new();
    let mut i: usize = 0;
    while i < all.len()
        invariant
            all@ == s@,
            i <= all@.len(),
            out@ == with_char(s@, from, to).take(i as int),
        decreases all@.len() - i,
    {
        out.push(
            if all[i] == from {
                to
            } else {
                all[i]
            },
        );
        i += 1;
        assert(with_char(s@, from, to).take(i as int) =~= with_char(s@, from, to).take(
            i - 1,
        ).push(with_char(s@, from, to)[i - 1]));
    }
    assert(with_char(s@, from, to).take(s@.len() as int) =~= with_char(s@, from, to));
    out
}

/// The text with a text put in place of a character.
pub open spec fn with_text(s: Seq<char>, from: char, to: Seq<char>) -> Seq<char> {
    crate::seqs::flat(
        s,
        |c: char|
            if c == from {
                to
            } else {
                seq![c]
            },
    )
}

/// The text with a text put in place of a character.
pub fn replace(s: &str, from: char, to: &str) -> (r: String)
    ensures
        r@ == with_text(s@, from, to@),
{
    let all = chars(s);
    let mut out = String::new();
    let mut i: usize = 0;
    while i < all.len()
        invariant
            all@ == s@,
            i <= all@.len(),
            out@ == with_text(s@.take(i as int), from, to@),
        decreases all@.len() - i,
    {
        proof {
            crate::seqs::take_step(s@, i as int);
        }
        if all[i] == from {
            out.append(to);
        } else {
            let ghost before = out@;
            out.push(all[i]);
            assert(out@ =~= before + seq![s@[i as int]]);
        }
        i += 1;
    }
    proof {
        crate::seqs::take_all(s@);
    }
    out
}

/// The text without any number of `pattern` at its start.
pub open spec fn without_leading(s: Seq<char>, pattern: Seq<char>) -> Seq<char>
    decreases s.len(),
{
    if pattern.len() > 0 && has_prefix(s, pattern) {
        without_leading(s.skip(pattern.len() as int), pattern)
    } else {
        s
    }
}

/// The text without any number of `pattern` at its start.
pub fn trim_leading(s: &str, pattern: &str) -> (r: String)
    ensures
        r@ == without_leading(s@, pattern@),
{
    let all = chars(s);
    let what = chars(pattern);
    let end: usize = all.len();
    let mut start: usize = 0;
    assert(s@.skip(0) =~= s@);
    while what.len() > 0 && occurs_at(all.as_slice(), what.as_slice(), start)
        invariant
            all@ == s@,
            what@ == pattern@,
            end == all@.len(),
            start <= s@.len(),
            without_leading(s@, pattern@) == without_leading(s@.skip(start as int), pattern@),
        decreases s@.len() - start,
    {
        proof {
            prefix_of_skip(s@, pattern@, start as int);
            assert(s@.skip(start as int).skip(pattern@.len() as int) =~= s@.skip(
                start + pattern@.len(),
            ));
        }
        start += what.len();
    }
    proof {
        prefix_of_skip(s@, pattern@, start as int);
        assert(s@.skip(start as int) =~= s@.subrange(start as int, s@.len() as int));
    }
    slice(all.as_slice(), start, end)
}

pub(crate) proof fn prefix_of_skip(s: Seq<char>, pattern: Seq<char>, i: int)
    requires
        0 <= i <= s.len(),
    ensures
        has_prefix(s.skip(i), pattern) == matches_at(s, pattern, i),
{
    if i + pattern.len() <= s.len() {
        assert(s.skip(i).subrange(0, pattern.len() as int) =~= s.subrange(i, i + pattern.len()));
    }
}

/// Lexicographic order by code point.
pub open spec fn text_less(left: Seq<char>, right: Seq<char>) -> bool
    decreases left.len(),
{
    if right.len() == 0 {
        false
    } else if left.len() == 0 {
        true
    } else if left[0] != right[0] {
        (left[0] as int) < (right[0] as int)
    } else {
        text_less(left.skip(1), right.skip(1))
    }
}

fn code_point(c: char) -> (r: u32)
    ensures
        r == c as int,
{
    c as u32
}

/// Whether `left` comes before `right` in lexicographic order.
pub fn less(left: &str, right: &str) -> (r: bool)
    ensures
        r == text_less(left@, right@),
{
    let a = chars(left);
    let b = chars(right);
    let mut i: usize = 0;
    assert(left@.skip(0) =~= left@ && right@.skip(0) =~= right@);
    loop
        invariant
            a@ == left@,
            b@ == right@,
            i <= a@.len(),
            i <= b@.len(),
            text_less(left@, right@) == text_less(left@.skip(i as int), right@.skip(i as int)),
        decreases a@.len() - i,
    {
        if i == b.len() {
            return false;
        }
        if i == a.len() {
            return true;
        }
        proof {
            assert(left@.skip(i as int)[0] == left@[i as int]);
            assert(right@.skip(i as int)[0] == right@[i as int]);
            assert(left@.skip(i as int).skip(1) =~= left@.skip(i + 1));
            assert(right@.skip(i as int).skip(1) =~= right@.skip(i + 1));
        }
        if a[i] != b[i] {
            return code_point(a[i]) < code_point(b[i]);
        }
        i += 1;
    }
}

pub proof fn text_less_irreflexive(a: Seq<char>)
    ensures
        !text_less(a, a),
    decreases a.len(),
{
    if a.len() > 0 {
        text_less_irreflexive(a.skip(1));
    }
}

pub proof fn text_less_transitive(a: Seq<char>, b: Seq<char>, c: Seq<char>)
    requires
        text_less(a, b),
        text_less(b, c),
    ensures
        text_less(a, c),
    decreases a.len(),
{
    if a.len() > 0 && a[0] == b[0] && b[0] == c[0] {
        text_less_transitive(a.skip(1), b.skip(1), c.skip(1));
    }
}

/// Of two different texts one comes before the other.
pub proof fn text_less_total(a: Seq<char>, b: Seq<char>)
    ensures
        text_less(a, b) || text_less(b, a) || a == b,
    decreases a.len(),
{
    if a.len() == 0 || b.len() == 0 {
        assert(a.len() == 0 && b.len() == 0 ==> a =~= b);
    } else if a[0] == b[0] {
        text_less_total(a.skip(1), b.skip(1));
        if a.skip(1) == b.skip(1) {
            assert(a =~= seq![a[0]] + a.skip(1));
            assert(b =~= seq![b[0]] + b.skip(1));
        }
    } else if a[0] as int == b[0] as int {
        assert(a[0] == b[0]);
    }
}

/// A text in lower case.
pub uninterp spec fn lowercase(text: Seq<char>) -> Seq<char>;

/// `str::to_lowercase`: the text depends on the given one alone.
#[verifier::external_body]
pub(crate) fn to_lower(text: &str) -> (r: String)
    ensures
        r@ == lowercase(text@),
{
    text.to_lowercase()
}

/// A text without a character at its start, as often as it stands there.
pub open spec fn strip_start(s: Seq<char>, c: char) -> Seq<char>
    decreases s.len(),
{
    if s.len() > 0 && s[0] == c {
        strip_start(s.skip(1), c)
    } else {
        s
    }
}

/// A text without a character at its end, as often as it stands there.
pub open spec fn strip_end(s: Seq<char>, c: char) -> Seq<char>
    decreases s.len(),
{
    if s.len() > 0 && s.last() == c {
        strip_end(s.drop_last(), c)
    } else {
        s
    }
}

/// A text without a character at its start and at its end.
pub fn trim_char(s: &str, c: char) -> (r: String)
    ensures
        r@ == strip_end(strip_start(s@, c), c),
{
    let all = chars(s);
    let mut start: usize = 0;
    assert(s@.skip(0) =~= s@);
    while start < all.len() && all[start] == c
        invariant
            all@ == s@,
            start <= all@.len(),
            strip_start(s@, c) == strip_start(s@.skip(start as int), c),
        decreases all@.len() - start,
    {
        assert(s@.skip(start as int).skip(1) =~= s@.skip(start as int + 1));
        start += 1;
    }
    let ghost rest = s@.skip(start as int);
    assert(rest == strip_start(s@, c));
    let mut end: usize = all.len();
    assert(rest =~= s@.subrange(start as int, end as int));
    while end > start && all[end - 1] == c
        invariant
            all@ == s@,
            start <= end <= all@.len(),
            strip_end(rest, c) == strip_end(s@.subrange(start as int, end as int), c),
        decreases end,
    {
        assert(s@.subrange(start as int, end as int).drop_last() =~= s@.subrange(
            start as int,
            end as int - 1,
        ));
        end -= 1;
    }
    slice(all.as_slice(), start, end)
}

/// A text without a character at its end.
pub fn trim_end_char(s: &str, c: char) -> (r: String)
    ensures
        r@ == strip_end(s@, c),
{
    let all = chars(s);
    let mut end: usize = all.len();
    assert(s@ =~= s@.take(end as int));
    while end > 0 && all[end - 1] == c
        invariant
            all@ == s@,
            end <= all@.len(),
            strip_end(s@, c) == strip_end(s@.take(end as int), c),
        decreases end,
    {
        assert(s@.take(end as int).drop_last() =~= s@.take(end as int - 1));
        end -= 1;
    }
    let r = slice(all.as_slice(), 0, end);
    assert(r@ =~= s@.take(end as int));
    r
}

/// How often a character occurs in a text.
pub open spec fn occurrences(s: Seq<char>, c: char) -> nat
    decreases s.len(),
{
    if s.len() == 0 {
        0
    } else {
        occurrences(s.drop_last(), c) + (if s.last() == c {
            1nat
        } else {
            0nat
        })
    }
}

pub fn count_char(s: &str, c: char) -> (r: usize)
    ensures
        r == occurrences(s@, c),
        r <= s@.len(),
{
    let all = chars(s);
    let mut n: usize = 0;
    let mut i: usize = 0;
    while i < all.len()
        invariant
            all@ == s@,
            n <= i <= all@.len(),
            n == occurrences(s@.take(i as int), c),
        decreases all@.len() - i,
    {
        proof {
            crate::seqs::take_step(s@, i as int);
        }
        if all[i] == c {
            n += 1;
        }
        i += 1;
    }
    proof {
        crate::seqs::take_all(s@);
    }
    n
}

/// A text with spaces before it, up to a width.
pub open spec fn padded(s: Seq<char>, width: int) -> Seq<char>
    decreases width - s.len(),
{
    if s.len() >= width {
        s
    } else {
        padded(seq![' '] + s, width)
    }
}

pub fn pad(s: &str, width: usize) -> (r: String)
    ensures
        r@ == padded(s@, width as int),
{
    let mut out = s.to_owned();
    let mut n: usize = chars(s).len();
    while n < width
        invariant
            n == out@.len(),
            padded(s@, width as int) == padded(out@, width as int),
        decreases width - n,
    {
        let mut wider = " ".to_owned();
        proof {
            reveal_strlit(" ");
        }
        wider.append(out.as_str());
        assert(wider@ =~= seq![' '] + out@);
        out = wider;
        n += 1;
    }
    out
}

/// The words of a text that spaces part.
pub open spec fn words_of(s: Seq<char>) -> Seq<Seq<char>> {
    crate::seqs::keep(pieces(s, " "@), |word: Seq<char>| word.len() > 0)
}

pub fn words(s: &str) -> (r: Vec<String>)
    ensures
        views(r@) == words_of(s@),
{
    proof {
        reveal_strlit(" ");
    }
    let parts = split(s, " ");
    let ghost all = views(parts@);
    let ghost p = |word: Seq<char>| word.len() > 0;
    let mut out: Vec<String> = Vec::new();
    let mut i: usize = 0;
    while i < parts.len()
        invariant
            all == views(parts@),
            p == (|word: Seq<char>| word.len() > 0),
            i <= parts@.len(),
            views(out@) == crate::seqs::keep(all.take(i as int), p),
        decreases parts@.len() - i,
    {
        proof {
            crate::seqs::take_step(all, i as int);
        }
        if chars(parts[i].as_str()).len() > 0 {
            out.push(parts[i].clone());
        }
        i += 1;
    }
    proof {
        crate::seqs::take_all(all);
    }
    out
}

/// The lines of a text are not longer together than the text.
pub proof fn lines_fit(s: Seq<char>)
    ensures
        total_len(lines_of(s)) <= s.len(),
    decreases s.len(),
{
    if s.len() > 0 {
        find_from_found(s, seq!['\n'], 0);
        match find_from(s, seq!['\n'], 0) {
            Some(i) => {
                if 0 <= i < s.len() {
                    let line = strip_return(s.subrange(0, i));
                    let rest = s.subrange(i + 1, s.len() as int);
                    lines_fit(rest);
                    total_len_of_concat(seq![line], lines_of(rest));
                    reveal_with_fuel(total_len, 2);
                } else {
                    reveal_with_fuel(total_len, 2);
                }
            },
            None => {
                reveal_with_fuel(total_len, 2);
            },
        }
    }
}

/// How long some texts are together.
pub open spec fn total_len(texts: Seq<Seq<char>>) -> nat
    decreases texts.len(),
{
    if texts.len() == 0 {
        0
    } else {
        total_len(texts.drop_last()) + texts.last().len()
    }
}

proof fn total_len_of_concat(a: Seq<Seq<char>>, b: Seq<Seq<char>>)
    ensures
        total_len(a + b) == total_len(a) + total_len(b),
    decreases b.len(),
{
    if b.len() == 0 {
        assert(a + b =~= a);
    } else {
        total_len_of_concat(a, b.drop_last());
        assert((a + b).drop_last() =~= a + b.drop_last());
    }
}

/// The first texts are not longer together than all.
pub(crate) proof fn total_len_of_take(texts: Seq<Seq<char>>, n: int)
    requires
        0 <= n <= texts.len(),
    ensures
        total_len(texts.take(n)) <= total_len(texts),
{
    total_len_of_concat(texts.take(n), texts.skip(n));
    assert(texts.take(n) + texts.skip(n) =~= texts);
}

/// A text without the first occurrence of another.
pub open spec fn without_first(s: Seq<char>, pattern: Seq<char>) -> Seq<char> {
    match find_from(s, pattern, 0) {
        Some(i) => s.take(i) + s.skip(i + pattern.len()),
        None => s,
    }
}

pub fn remove_first(s: &str, pattern: &str) -> (r: String)
    ensures
        r@ == without_first(s@, pattern@),
{
    let all = chars(s);
    let what = chars(pattern);
    let size: usize = what.len();
    let end: usize = all.len();
    match find(all.as_slice(), what.as_slice(), 0) {
        Some(i) => {
            let mut out = slice(all.as_slice(), 0, i);
            out.append(slice(all.as_slice(), i + size, end).as_str());
            assert(out@ =~= without_first(s@, pattern@));
            out
        },
        None => s.to_owned(),
    }
}

/// Whether `a` comes before `b`, `rest` deciding where they are the same.
pub open spec fn then_text(a: Seq<char>, b: Seq<char>, rest: bool) -> bool {
    text_less(a, b) || (a == b && rest)
}

/// The order of texts is a strict weak order in which only equal texts tie.
pub(crate) proof fn text_order(a: Seq<char>, b: Seq<char>, c: Seq<char>)
    ensures
        !text_less(a, a),
        text_less(a, b) ==> !text_less(b, a),
        !text_less(a, b) && !text_less(b, c) ==> !text_less(a, c),
        !text_less(a, b) && !text_less(b, a) ==> a == b,
        text_less(a, b) && text_less(b, c) ==> text_less(a, c),
{
    text_less_irreflexive(a);
    text_less_irreflexive(c);
    text_less_total(a, b);
    text_less_total(b, c);
    text_less_total(a, c);
    if text_less(a, b) && text_less(b, a) {
        text_less_transitive(a, b, a);
    }
    if text_less(a, b) && text_less(b, c) {
        text_less_transitive(a, b, c);
    }
    if text_less(c, b) && text_less(b, a) {
        text_less_transitive(c, b, a);
        if text_less(a, c) {
            text_less_transitive(a, c, a);
        }
    }
}

/// How three texts stand to each other, whichever way round.
pub(crate) proof fn order_of_three(a: Seq<char>, b: Seq<char>, c: Seq<char>)
    ensures
        !text_less(a, a),
        text_less(a, b) ==> !text_less(b, a),
        text_less(a, b) && text_less(b, c) ==> text_less(a, c),
        text_less(b, a) && text_less(a, c) ==> text_less(b, c),
        text_less(a, c) && text_less(c, b) ==> text_less(a, b),
        text_less(a, b) || text_less(b, a) || a == b,
        text_less(b, c) || text_less(c, b) || b == c,
        text_less(a, c) || text_less(c, a) || a == c,
{
    text_order(a, b, c);
    text_order(b, a, c);
    text_order(b, c, a);
    text_order(a, c, b);
}

pub open spec fn digit(n: nat) -> char {
    if n == 0 {
        '0'
    } else if n == 1 {
        '1'
    } else if n == 2 {
        '2'
    } else if n == 3 {
        '3'
    } else if n == 4 {
        '4'
    } else if n == 5 {
        '5'
    } else if n == 6 {
        '6'
    } else if n == 7 {
        '7'
    } else if n == 8 {
        '8'
    } else {
        '9'
    }
}

/// A number in decimal digits.
pub open spec fn decimal(n: nat) -> Seq<char>
    decreases n,
{
    if n < 10 {
        seq![digit(n)]
    } else {
        decimal(n / 10).push(digit(n % 10))
    }
}

fn digit_char(n: u64) -> (r: char)
    requires
        n < 10,
    ensures
        r == digit(n as nat),
{
    match n {
        0 => '0',
        1 => '1',
        2 => '2',
        3 => '3',
        4 => '4',
        5 => '5',
        6 => '6',
        7 => '7',
        8 => '8',
        _ => '9',
    }
}

/// A number in decimal digits.
pub fn number(n: u64) -> (r: String)
    ensures
        r@ == decimal(n as nat),
    decreases n,
{
    if n < 10 {
        let mut out = String::new();
        out.push(digit_char(n));
        assert(out@ =~= seq![digit(n as nat)]);
        out
    } else {
        let mut out = number(n / 10);
        out.push(digit_char(n % 10));
        out
    }
}

} // verus!
