//! What operations on texts give, told by positions in the texts.

use vstd::prelude::*;

use crate::seqs::in_keep;
use crate::text::{
    after_first, after_last, before_first, contains_text, decimal, digit, find_back,
    find_back_found, find_from, find_from_found, has_prefix, has_suffix, is_whitespace, joined,
    lines_of, matches_at, occurrences, padded, pieces, strip_end, strip_start, text_less, trim_end,
    trim_start, trimmed, without_first, words_of,
};

verus! {

/// Whether a text stands in another at some position.
pub open spec fn occurs_in(s: Seq<char>, pattern: Seq<char>) -> bool {
    exists|i: int| #[trigger] stands_at(s, pattern, i)
}

/// Whether a text stands in another at a position.
pub open spec fn stands_at(s: Seq<char>, pattern: Seq<char>, i: int) -> bool {
    0 <= i <= s.len() - pattern.len() && forall|k: int|
        0 <= k < pattern.len() ==> s[i + k] == #[trigger] pattern[k]
}

pub(crate) proof fn standing(s: Seq<char>, pattern: Seq<char>, i: int)
    ensures
        stands_at(s, pattern, i) == matches_at(s, pattern, i),
{
    if 0 <= i <= s.len() - pattern.len() {
        let part = s.subrange(i, i + pattern.len());
        if stands_at(s, pattern, i) {
            assert(part =~= pattern);
        }
        if part == pattern {
            assert forall|k: int| 0 <= k < pattern.len() implies s[i + k] == #[trigger] pattern[k] by {
                assert(part[k] == s[i + k]);
            }
        }
    }
}

/// A text contains another exactly where the other stands in it at some position.
pub proof fn contained_is_occurring(s: Seq<char>, pattern: Seq<char>)
    ensures
        contains_text(s, pattern) == occurs_in(s, pattern),
{
    find_from_found(s, pattern, 0);
    match find_from(s, pattern, 0) {
        Some(i) => {
            standing(s, pattern, i);
            assert(stands_at(s, pattern, i));
        },
        None => {
            assert forall|i: int| !#[trigger] stands_at(s, pattern, i) by {
                standing(s, pattern, i);
                if i >= 0 {
                    assert(!matches_at(s, pattern, i));
                }
            }
        },
    }
}

/// A prefix is a text that the other starts with, a suffix one that it ends with.
pub proof fn prefixes_and_suffixes(s: Seq<char>, part: Seq<char>)
    ensures
        has_prefix(s, part) == part.is_prefix_of(s),
        has_suffix(s, part) == part.is_suffix_of(s),
{
    if part.len() <= s.len() {
        assert(s.subrange(0, part.len() as int) =~= s.subrange(0, 0 + part.len() as int));
        let at = s.len() - part.len();
        assert(s.subrange(at, s.len() as int) =~= s.subrange(at, at + part.len()));
    }
}

/// Stripping a character at the end takes away all of it that stands there, and nothing
/// else.
pub proof fn stripped_at_the_end(s: Seq<char>, c: char)
    ensures
        strip_end(s, c).is_prefix_of(s),
        forall|i: int| strip_end(s, c).len() <= i < s.len() ==> #[trigger] s[i] == c,
        strip_end(s, c).len() > 0 ==> strip_end(s, c).last() != c,
    decreases s.len(),
{
    if s.len() > 0 && s.last() == c {
        let rest = s.drop_last();
        stripped_at_the_end(rest, c);
        assert forall|i: int| strip_end(s, c).len() <= i < s.len() implies #[trigger] s[i] == c by {
            if i < rest.len() {
                assert(rest[i] == s[i]);
            }
        }
        assert(rest.subrange(0, strip_end(s, c).len() as int) =~= s.subrange(
            0,
            strip_end(s, c).len() as int,
        ));
    } else {
        assert(s.subrange(0, s.len() as int) =~= s);
    }
}

/// Stripping a character at the start takes away all of it that stands there, and nothing
/// else.
pub proof fn stripped_at_the_start(s: Seq<char>, c: char)
    ensures
        strip_start(s, c).is_suffix_of(s),
        forall|i: int| 0 <= i < s.len() - strip_start(s, c).len() ==> #[trigger] s[i] == c,
        strip_start(s, c).len() > 0 ==> strip_start(s, c)[0] != c,
    decreases s.len(),
{
    if s.len() > 0 && s[0] == c {
        let rest = s.skip(1);
        stripped_at_the_start(rest, c);
        let r = strip_start(s, c);
        assert forall|i: int| 0 <= i < s.len() - r.len() implies #[trigger] s[i] == c by {
            if i > 0 {
                assert(rest[i - 1] == s[i]);
            }
        }
        assert(rest.subrange(rest.len() - r.len(), rest.len() as int) =~= s.subrange(
            s.len() - r.len(),
            s.len() as int,
        ));
    } else {
        assert(s.subrange(0, s.len() as int) =~= s);
    }
}

proof fn trimmed_at_the_start(s: Seq<char>)
    ensures
        trim_start(s).is_suffix_of(s),
        forall|i: int|
            0 <= i < s.len() - trim_start(s).len() ==> is_whitespace(#[trigger] s[i]),
        trim_start(s).len() > 0 ==> !is_whitespace(trim_start(s)[0]),
    decreases s.len(),
{
    if s.len() > 0 && is_whitespace(s[0]) {
        let rest = s.skip(1);
        trimmed_at_the_start(rest);
        let r = trim_start(s);
        assert forall|i: int| 0 <= i < s.len() - r.len() implies is_whitespace(#[trigger] s[i]) by {
            if i > 0 {
                assert(rest[i - 1] == s[i]);
            }
        }
        assert(rest.subrange(rest.len() - r.len(), rest.len() as int) =~= s.subrange(
            s.len() - r.len(),
            s.len() as int,
        ));
    } else {
        assert(s.subrange(0, s.len() as int) =~= s);
    }
}

proof fn trimmed_at_the_end(s: Seq<char>)
    ensures
        trim_end(s).is_prefix_of(s),
        forall|i: int| trim_end(s).len() <= i < s.len() ==> is_whitespace(#[trigger] s[i]),
        trim_end(s).len() > 0 ==> !is_whitespace(trim_end(s).last()),
    decreases s.len(),
{
    if s.len() > 0 && is_whitespace(s.last()) {
        let rest = s.drop_last();
        trimmed_at_the_end(rest);
        let r = trim_end(s);
        assert forall|i: int| r.len() <= i < s.len() implies is_whitespace(#[trigger] s[i]) by {
            if i < rest.len() {
                assert(rest[i] == s[i]);
            }
        }
        assert(rest.subrange(0, r.len() as int) =~= s.subrange(0, r.len() as int));
    } else {
        assert(s.subrange(0, s.len() as int) =~= s);
    }
}

/// Whether `r` is what lies between the whitespace at both ends of `s`, from position `a`.
pub open spec fn is_trimmed(s: Seq<char>, r: Seq<char>, a: int) -> bool {
    &&& 0 <= a <= s.len() - r.len()
    &&& r == s.subrange(a, a + r.len())
    &&& forall|i: int| 0 <= i < a ==> is_whitespace(#[trigger] s[i])
    &&& forall|i: int| a + r.len() <= i < s.len() ==> is_whitespace(#[trigger] s[i])
}

/// Trimming takes away the whitespace at both ends, all of it and nothing else.
pub proof fn trimmed_at_both_ends(s: Seq<char>)
    ensures
        exists|a: int| #[trigger] is_trimmed(s, trimmed(s), a),
        trimmed(s).len() > 0 ==> !is_whitespace(trimmed(s)[0]) && !is_whitespace(trimmed(s).last()),
{
    let t = trim_start(s);
    let r = trimmed(s);
    let a = s.len() - t.len();
    trimmed_at_the_start(s);
    trimmed_at_the_end(t);
    assert(t =~= s.subrange(a, s.len() as int));
    assert(r =~= t.subrange(0, r.len() as int));
    assert(r =~= s.subrange(a, a + r.len()));
    assert forall|i: int| a + r.len() <= i < s.len() implies is_whitespace(#[trigger] s[i]) by {
        assert(t[i - a] == s[i]);
    }
    assert(is_trimmed(s, r, a));
    if r.len() > 0 {
        assert(r[0] == t[0]);
    }
}

/// One text comes before another exactly where it is the start of the other and shorter, or
/// has the lower character at the first position where they differ.
pub proof fn texts_are_ordered_by_characters(a: Seq<char>, b: Seq<char>)
    ensures
        text_less(a, b) <==> exists|k: int| #[trigger] parts_at(a, b, k),
    decreases a.len(),
{
    if a.len() > 0 && b.len() > 0 && a[0] == b[0] {
        let c = a.skip(1);
        let d = b.skip(1);
        texts_are_ordered_by_characters(c, d);
        if text_less(c, d) {
            let k = choose|k: int| #[trigger] parts_at(c, d, k);
            assert forall|i: int| 0 <= i < k + 1 implies #[trigger] a[i] == b[i] by {
                if i > 0 {
                    assert(c[i - 1] == a[i] && d[i - 1] == b[i]);
                }
            }
            if k < c.len() {
                assert(c[k] == a[k + 1] && d[k] == b[k + 1]);
            }
            assert(parts_at(a, b, k + 1));
        }
        if exists|k: int| #[trigger] parts_at(a, b, k) {
            let k = choose|k: int| #[trigger] parts_at(a, b, k);
            assert(k > 0);
            assert forall|i: int| 0 <= i < k - 1 implies #[trigger] c[i] == d[i] by {
                assert(a[i + 1] == b[i + 1]);
            }
            assert(parts_at(c, d, k - 1));
        }
    } else {
        if text_less(a, b) {
            assert(parts_at(a, b, 0));
        }
        if exists|k: int| #[trigger] parts_at(a, b, k) {
            let k = choose|k: int| #[trigger] parts_at(a, b, k);
            if k > 0 {
                assert(a[0] == b[0]);
            }
        }
    }
}

/// Whether two texts are the same before a position and the first is over or lower there.
pub open spec fn parts_at(a: Seq<char>, b: Seq<char>, k: int) -> bool {
    &&& 0 <= k <= a.len()
    &&& k < b.len()
    &&& forall|i: int| 0 <= i < k ==> #[trigger] a[i] == b[i]
    &&& k < a.len() ==> (a[k] as int) < (b[k] as int)
}

/// What stands before and after the first separator makes up the text, and no separator
/// stands before it; where there is none, everything stands before it.
pub proof fn first_separator_parts_a_text(s: Seq<char>, separator: Seq<char>)
    ensures
        occurs_in(s, separator) ==> s == before_first(s, separator) + separator + after_first(
            s,
            separator,
        ),
        !occurs_in(s, separator) ==> before_first(s, separator) == s && after_first(
            s,
            separator,
        ).len() == 0,
        forall|i: int|
            0 <= i < before_first(s, separator).len() ==> !#[trigger] stands_at(s, separator, i),
{
    contained_is_occurring(s, separator);
    find_from_found(s, separator, 0);
    match find_from(s, separator, 0) {
        Some(at) => {
            assert(s =~= before_first(s, separator) + separator + after_first(s, separator)) by {
                assert(s.subrange(at, at + separator.len()) == separator);
                assert(s =~= s.subrange(0, at) + s.subrange(at, at + separator.len()) + s.subrange(
                    at + separator.len(),
                    s.len() as int,
                ));
            }
            assert forall|i: int| 0 <= i < at implies !#[trigger] stands_at(s, separator, i) by {
                standing(s, separator, i);
            }
        },
        None => {
            assert forall|i: int| 0 <= i < s.len() implies !#[trigger] stands_at(
                s,
                separator,
                i,
            ) by {
                standing(s, separator, i);
            }
        },
    }
}

/// What stands after the last separator ends the text, and no separator stands in it; where
/// there is none, it is the whole text.
pub proof fn last_separator_parts_a_text(s: Seq<char>, separator: Seq<char>)
    requires
        separator.len() > 0,
    ensures
        occurs_in(s, separator) ==> (separator + after_last(s, separator)).is_suffix_of(s),
        !occurs_in(s, separator) ==> after_last(s, separator) == s,
        !occurs_in(after_last(s, separator), separator),
{
    contained_is_occurring(s, separator);
    find_from_found(s, separator, 0);
    let end = s.len() - separator.len();
    find_back_found(s, separator, end);
    let r = after_last(s, separator);
    let at = s.len() - r.len();
    match find_back(s, separator, end) {
        Some(i) => {
            standing(s, separator, i);
            assert(stands_at(s, separator, i));
            assert(s.subrange(i, s.len() as int) =~= separator + r) by {
                assert(s.subrange(i, i + separator.len()) == separator);
                assert(s.subrange(i, s.len() as int) =~= s.subrange(i, i + separator.len())
                    + s.subrange(i + separator.len(), s.len() as int));
            }
        },
        None => {
            if occurs_in(s, separator) {
                let i = choose|i: int| #[trigger] stands_at(s, separator, i);
                standing(s, separator, i);
            }
        },
    }
    assert forall|i: int| !#[trigger] stands_at(r, separator, i) by {
        if stands_at(r, separator, i) {
            assert forall|k: int| 0 <= k < separator.len() implies s[at + i + k]
                == #[trigger] separator[k] by {
                assert(r[i + k] == s[at + i + k]);
            }
            assert(stands_at(s, separator, at + i));
            standing(s, separator, at + i);
        }
    }
}

/// The pieces between separators, joined with the separator, are the text again, and no
/// separator stands in a piece.
pub proof fn pieces_join_to_the_text(s: Seq<char>, separator: Seq<char>)
    requires
        separator.len() > 0,
    ensures
        joined(pieces(s, separator), separator) == s,
        pieces(s, separator).len() > 0,
        forall|k: int|
            0 <= k < pieces(s, separator).len() ==> !occurs_in(
                #[trigger] pieces(s, separator)[k],
                separator,
            ),
    decreases s.len(),
{
    find_from_found(s, separator, 0);
    contained_is_occurring(s, separator);
    let all = pieces(s, separator);
    match find_from(s, separator, 0) {
        Some(i) => {
            let head = s.subrange(0, i);
            let rest = s.subrange(i + separator.len(), s.len() as int);
            pieces_join_to_the_text(rest, separator);
            joined_with_head(head, pieces(rest, separator), separator);
            assert(s =~= head + separator + rest) by {
                assert(s.subrange(i, i + separator.len()) == separator);
                assert(s =~= head + s.subrange(i, i + separator.len()) + rest);
            }
            assert(!occurs_in(head, separator)) by {
                assert forall|k: int| !#[trigger] stands_at(head, separator, k) by {
                    if stands_at(head, separator, k) {
                        assert forall|l: int| 0 <= l < separator.len() implies s[k + l]
                            == #[trigger] separator[l] by {
                            assert(head[k + l] == s[k + l]);
                        }
                        standing(s, separator, k);
                    }
                }
            }
            assert forall|k: int| 0 <= k < all.len() implies !occurs_in(
                #[trigger] all[k],
                separator,
            ) by {
                if k > 0 {
                    assert(all[k] == pieces(rest, separator)[k - 1]);
                }
            }
        },
        None => {
            assert(all =~= seq![s]);
        },
    }
}

pub(crate) proof fn joined_with_head(head: Seq<char>, parts: Seq<Seq<char>>, separator: Seq<char>)
    requires
        parts.len() > 0,
    ensures
        joined(seq![head] + parts, separator) == head + separator + joined(parts, separator),
    decreases parts.len(),
{
    let all = seq![head] + parts;
    assert(all.drop_last() =~= seq![head] + parts.drop_last());
    assert(all.last() == parts.last());
    if parts.len() > 1 {
        joined_with_head(head, parts.drop_last(), separator);
        assert(joined(all, separator) =~= head + separator + joined(parts, separator));
    } else {
        assert(all.drop_last() =~= seq![head]);
        assert(joined(all.drop_last(), separator) == head);
        assert(joined(all, separator) =~= head + separator + joined(parts, separator));
    }
}

/// The words of a text are its pieces between spaces that are not empty.
pub proof fn words_are_the_pieces_between_spaces(s: Seq<char>, word: Seq<char>)
    ensures
        words_of(s).contains(word) <==> word.len() > 0 && pieces(s, " "@).contains(word),
{
    in_keep(pieces(s, " "@), |word: Seq<char>| word.len() > 0, word);
}

/// How often a character occurs adds up over the parts of a text.
pub proof fn occurrences_add_up(a: Seq<char>, b: Seq<char>, c: char)
    ensures
        occurrences(a + b, c) == occurrences(a, c) + occurrences(b, c),
        occurrences(seq![c], c) == 1,
        forall|d: char| d != c ==> #[trigger] occurrences(seq![d], c) == 0,
    decreases b.len(),
{
    reveal_with_fuel(occurrences, 2);
    assert(seq![c].drop_last() =~= seq![]);
    assert forall|d: char| d != c implies #[trigger] occurrences(seq![d], c) == 0 by {
        assert(seq![d].drop_last() =~= seq![]);
    }
    if b.len() == 0 {
        assert(a + b =~= a);
    } else {
        occurrences_add_up(a, b.drop_last(), c);
        assert((a + b).drop_last() =~= a + b.drop_last());
    }
}

/// The number that a text of decimal digits stands for.
pub open spec fn number_of(s: Seq<char>) -> int
    decreases s.len(),
{
    if s.len() == 0 {
        0
    } else {
        number_of(s.drop_last()) * 10 + (s.last() as int - '0' as int)
    }
}

/// The decimal digits of a number stand for it, are digits, and have no needless zero.
pub proof fn decimal_digits_stand_for_the_number(n: nat)
    ensures
        number_of(decimal(n)) == n,
        decimal(n).len() > 0,
        forall|i: int| 0 <= i < decimal(n).len() ==> '0' <= #[trigger] decimal(n)[i] <= '9',
        decimal(n).len() > 1 ==> decimal(n)[0] != '0',
    decreases n,
{
    reveal_with_fuel(number_of, 2);
    if n < 10 {
        assert(decimal(n) =~= seq![digit(n)]);
        assert(decimal(n).drop_last() =~= seq![]);
    } else {
        let q = n / 10;
        decimal_digits_stand_for_the_number(q);
        assert(decimal(n).drop_last() =~= decimal(q));
        assert(n == q * 10 + n % 10);
        if q < 10 {
            assert(decimal(q) =~= seq![digit(q)]);
        }
    }
}

/// Padding puts spaces before a text until it is as wide as asked, and changes nothing in
/// one that is wide enough.
pub proof fn padding_puts_spaces_before(s: Seq<char>, width: int)
    ensures
        s.is_suffix_of(padded(s, width)),
        s.len() >= width ==> padded(s, width) == s,
        s.len() < width ==> padded(s, width).len() == width,
        forall|i: int|
            0 <= i < padded(s, width).len() - s.len() ==> #[trigger] padded(s, width)[i] == ' ',
    decreases width - s.len(),
{
    if s.len() < width {
        let more = seq![' '] + s;
        padding_puts_spaces_before(more, width);
        let r = padded(s, width);
        assert(more =~= r.subrange(r.len() - more.len(), r.len() as int));
        assert(s =~= more.subrange(1, more.len() as int));
        assert(s =~= r.subrange(r.len() - s.len(), r.len() as int));
        assert forall|i: int| 0 <= i < r.len() - s.len() implies #[trigger] r[i] == ' ' by {
            if i == r.len() - more.len() {
                assert(more[0] == r[i]);
            }
        }
    } else {
        assert(s.subrange(0, s.len() as int) =~= s);
    }
}

/// The lines of a text hold no line feed. A text with a line feed has the line before it,
/// without the carriage return that ends it, and then the lines behind it; any other text
/// that is not empty is one line.
pub proof fn lines_end_at_line_feeds(a: Seq<char>, b: Seq<char>)
    requires
        !a.contains('\n'),
    ensures
        lines_of(a + seq!['\n'] + b) == seq![
            if a.len() > 0 && a.last() == '\r' {
                a.drop_last()
            } else {
                a
            },
        ] + lines_of(b),
        a.len() > 0 ==> lines_of(a) == seq![a],
        lines_of(Seq::empty()).len() == 0,
{
    let feed = seq!['\n'];
    let s = a + feed + b;
    find_from_found(s, feed, 0);
    assert(s.subrange(a.len() as int, a.len() as int + 1) =~= feed);
    assert(matches_at(s, feed, a.len() as int));
    match find_from(s, feed, 0) {
        Some(i) => {
            if i < a.len() {
                assert(s.subrange(i, i + 1)[0] == a[i]);
                assert(a[i] == '\n');
            }
            assert(s.subrange(0, i) =~= a);
            assert(s.subrange(i + 1, s.len() as int) =~= b);
        },
        None => {},
    }
    find_from_found(a, feed, 0);
    match find_from(a, feed, 0) {
        Some(i) => {
            assert(a.subrange(i, i + 1)[0] == a[i]);
            assert(a[i] == '\n');
        },
        None => {},
    }
}

/// Taking away the first occurrence of a text leaves what stands before and behind it.
pub proof fn first_occurrence_is_taken_away(a: Seq<char>, pattern: Seq<char>, b: Seq<char>)
    requires
        forall|i: int|
            0 <= i < a.len() ==> !#[trigger] stands_at(a + pattern + b, pattern, i),
    ensures
        without_first(a + pattern + b, pattern) == a + b,
{
    let s = a + pattern + b;
    find_from_found(s, pattern, 0);
    assert(s.subrange(a.len() as int, (a.len() + pattern.len()) as int) =~= pattern);
    assert(matches_at(s, pattern, a.len() as int));
    match find_from(s, pattern, 0) {
        Some(i) => {
            if i < a.len() {
                standing(s, pattern, i);
            }
            assert(i == a.len());
            assert(s.take(i) + s.skip(i + pattern.len()) =~= a + b);
        },
        None => {},
    }
}

/// A text that another does not occur in stays as it is where that is taken away.
pub proof fn nothing_is_taken_away(s: Seq<char>, pattern: Seq<char>)
    requires
        !occurs_in(s, pattern),
    ensures
        without_first(s, pattern) == s,
{
    contained_is_occurring(s, pattern);
}

} // verus!
