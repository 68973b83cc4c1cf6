//! Section markers: the comments that open the sections of a test.

use vstd::prelude::*;

use super::model::{after, Marker, MarkerKind, Position, Section, SourceSpan};
use crate::seqs::{keep, take_all, take_step, views};
use crate::text::{chars, has_prefix, same, slice, starts_with, trim, trimmed};

verus! {

broadcast use {vstd::std_specs::vec::group_vec_axioms, crate::seqs::group_views};

/// What a line leaves open for the next one.
#[derive(Debug, Clone, Copy, PartialEq, Eq, Structural)]
pub struct LexState {
    pub block_comment_depth: usize,
    pub raw_hashes: Option<usize>,
    pub string: bool,
    pub escaped: bool,
    pub brace_depth: usize,
}

/// The state at the start of a function.
pub open spec fn fresh() -> LexState {
    LexState {
        block_comment_depth: 0,
        raw_hashes: None,
        string: false,
        escaped: false,
        brace_depth: 0,
    }
}

/// Whether two characters stand at `i`.
pub open spec fn pair_at(line: Seq<char>, i: int, a: char, b: char) -> bool {
    0 <= i && i + 1 < line.len() && line[i] == a && line[i + 1] == b
}

/// The end of the run of `#` that starts at `i`.
pub open spec fn hashes_end(line: Seq<char>, i: int) -> int
    decreases line.len() - i,
{
    if 0 <= i < line.len() && line[i] == '#' {
        hashes_end(line, i + 1)
    } else {
        i
    }
}

/// Whether `count` characters from `i` on are `#`.
pub open spec fn closes_raw(line: Seq<char>, i: int, count: int) -> bool {
    i + count <= line.len() && forall|k: int| i <= k < i + count ==> #[trigger] line[k] == '#'
}

/// The number of hashes and the end of the opening of a raw string at `i`.
pub open spec fn raw_start(line: Seq<char>, i: int) -> Option<(int, int)> {
    let raw = if line[i] == 'r' {
        i
    } else if pair_at(line, i, 'b', 'r') {
        i + 1
    } else {
        -1
    };
    let end = hashes_end(line, raw + 1);
    if raw >= 0 && end < line.len() && line[end] == '"' {
        Some((end - raw - 1, end + 1))
    } else {
        None
    }
}

pub open spec fn hex_char(c: char) -> bool {
    '0' <= c <= '9' || 'a' <= c <= 'f' || 'A' <= c <= 'F'
}

/// The end of the digits and the brace of `\u{..}` whose brace opens at `open`; -1
/// where they are malformed.
pub open spec fn unicode_end(line: Seq<char>, open: int, i: int) -> int
    decreases line.len() - i,
{
    if i < 0 || i >= line.len() {
        open + 1
    } else if line[i] == '}' && i > open + 1 {
        i + 1
    } else if !hex_char(line[i]) {
        -1
    } else {
        unicode_end(line, open, i + 1)
    }
}

/// The end of what a character literal that opens at `i` holds; -1 where that is
/// malformed.
pub open spec fn char_content_end(line: Seq<char>, i: int) -> int {
    if i + 1 >= line.len() {
        -1
    } else if line[i + 1] != '\\' {
        i + 2
    } else if i + 2 >= line.len() {
        -1
    } else if line[i + 2] == 'x' {
        if i + 4 < line.len() && hex_char(line[i + 3]) && hex_char(line[i + 4]) {
            i + 5
        } else {
            -1
        }
    } else if line[i + 2] == 'u' {
        if i + 3 < line.len() && line[i + 3] == '{' {
            unicode_end(line, i + 3, i + 4)
        } else {
            -1
        }
    } else {
        i + 3
    }
}

/// The end of the character literal that opens at `i`.
pub open spec fn char_literal(line: Seq<char>, i: int) -> Option<int> {
    let end = char_content_end(line, i);
    if 0 <= end < line.len() && line[end] == '\'' {
        Some(end + 1)
    } else {
        None
    }
}

/// Whether a line comment starts at `i`.
pub open spec fn comment_at(line: Seq<char>, i: int, state: LexState) -> bool {
    state.raw_hashes is None && state.block_comment_depth == 0 && !state.string && pair_at(
        line,
        i,
        '/',
        '/',
    )
}

/// The state after the piece of the line that starts at `i`, and the end of the piece.
pub open spec fn lex_step(line: Seq<char>, i: int, state: LexState) -> (LexState, int) {
    if let Some(hashes) = state.raw_hashes {
        if line[i] == '"' && closes_raw(line, i + 1, hashes as int) {
            (LexState { raw_hashes: None, ..state }, i + 1 + hashes)
        } else {
            (state, i + 1)
        }
    } else if state.block_comment_depth > 0 {
        if pair_at(line, i, '/', '*') {
            (
                LexState { block_comment_depth: after(state.block_comment_depth as int), ..state },
                i + 2,
            )
        } else if pair_at(line, i, '*', '/') {
            (
                LexState { block_comment_depth: (state.block_comment_depth - 1) as usize, ..state },
                i + 2,
            )
        } else {
            (state, i + 1)
        }
    } else if state.string {
        if state.escaped {
            (LexState { escaped: false, ..state }, i + 1)
        } else if line[i] == '\\' {
            (LexState { escaped: true, ..state }, i + 1)
        } else if line[i] == '"' {
            (LexState { string: false, ..state }, i + 1)
        } else {
            (state, i + 1)
        }
    } else if pair_at(line, i, '/', '*') {
        (LexState { block_comment_depth: 1, ..state }, i + 2)
    } else if raw_start(line, i) is Some {
        let (hashes, end) = raw_start(line, i)->0;
        (LexState { raw_hashes: Some(hashes as usize), ..state }, end)
    } else if line[i] == '"' {
        (LexState { string: true, ..state }, i + 1)
    } else if line[i] == '\'' && char_literal(line, i) is Some {
        (state, char_literal(line, i)->0)
    } else if line[i] == '{' {
        (LexState { brace_depth: after(state.brace_depth as int), ..state }, i + 1)
    } else if line[i] == '}' {
        (
            LexState {
                brace_depth: if state.brace_depth > 0 {
                    (state.brace_depth - 1) as usize
                } else {
                    0
                },
                ..state
            },
            i + 1,
        )
    } else {
        (state, i + 1)
    }
}

/// The state after a line, and where its line comment starts.
pub open spec fn scan(line: Seq<char>, i: int, state: LexState) -> (LexState, Option<int>)
    decreases line.len() - i,
{
    if i < 0 || i >= line.len() {
        (LexState { escaped: false, ..state }, None)
    } else if comment_at(line, i, state) {
        (state, Some(i))
    } else {
        let (next, end) = lex_step(line, i, state);
        if end > i {
            scan(line, end, next)
        } else {
            (state, None)
        }
    }
}

fn is_pair(line: &Vec<char>, i: usize, a: char, b: char) -> (r: bool)
    requires
        i < line@.len(),
    ensures
        r == pair_at(line@, i as int, a, b),
{
    i < line.len() - 1 && line[i] == a && line[i + 1] == b
}

fn skip_hashes(line: &Vec<char>, from: usize) -> (r: usize)
    requires
        from <= line@.len(),
    ensures
        r == hashes_end(line@, from as int),
        from <= r <= line@.len(),
{
    let mut i: usize = from;
    while i < line.len() && line[i] == '#'
        invariant
            from <= i <= line@.len(),
            hashes_end(line@, from as int) == hashes_end(line@, i as int),
        decreases line@.len() - i,
    {
        i += 1;
    }
    i
}

fn raw_string_start(line: &Vec<char>, i: usize) -> (r: Option<(usize, usize)>)
    requires
        i < line@.len(),
    ensures
        match r {
            Some((hashes, end)) => raw_start(line@, i as int) == Some((hashes as int, end as int))
                && i < end <= line@.len(),
            None => raw_start(line@, i as int) is None,
        },
{
    let size: usize = line.len();
    let raw: usize = if line[i] == 'r' {
        i
    } else if is_pair(line, i, 'b', 'r') {
        i + 1
    } else {
        return None;
    };
    let end: usize = skip_hashes(line, raw + 1);
    if end < size && line[end] == '"' {
        Some((end - raw - 1, end + 1))
    } else {
        None
    }
}

fn is_hex_char(c: char) -> (r: bool)
    ensures
        r == hex_char(c),
{
    ('0' <= c && c <= '9') || ('a' <= c && c <= 'f') || ('A' <= c && c <= 'F')
}

fn unicode_escape_end(line: &Vec<char>, open: usize) -> (r: Option<usize>)
    requires
        open < line@.len(),
    ensures
        match r {
            Some(end) => unicode_end(line@, open as int, open + 1) == end,
            None => unicode_end(line@, open as int, open + 1) == -1,
        },
{
    let size: usize = line.len();
    let mut i: usize = open + 1;
    while i < size
        invariant
            size == line@.len(),
            open < i <= size,
            unicode_end(line@, open as int, open + 1) == unicode_end(
                line@,
                open as int,
                i as int,
            ),
        decreases line@.len() - i,
    {
        if line[i] == '}' && i > open + 1 {
            return Some(i + 1);
        }
        if !is_hex_char(line[i]) {
            return None;
        }
        i += 1;
    }
    Some(open + 1)
}

fn char_content(line: &Vec<char>, i: usize) -> (r: Option<usize>)
    requires
        i < line@.len(),
    ensures
        match r {
            Some(end) => char_content_end(line@, i as int) == end,
            None => char_content_end(line@, i as int) == -1,
        },
{
    let rest: usize = line.len() - i;
    if rest <= 1 {
        return None;
    }
    if line[i + 1] != '\\' {
        return Some(i + 2);
    }
    if rest <= 2 {
        return None;
    }
    if line[i + 2] == 'x' {
        if rest > 4 && is_hex_char(line[i + 3]) && is_hex_char(line[i + 4]) {
            return Some(i + 5);
        }
        return None;
    }
    if line[i + 2] == 'u' {
        if rest > 3 && line[i + 3] == '{' {
            return unicode_escape_end(line, i + 3);
        }
        return None;
    }
    Some(i + 3)
}

fn char_literal_end(line: &Vec<char>, i: usize) -> (r: Option<usize>)
    requires
        i < line@.len(),
    ensures
        match r {
            Some(end) => char_literal(line@, i as int) == Some(end as int) && end <= line@.len(),
            None => char_literal(line@, i as int) is None,
        },
{
    match char_content(line, i) {
        Some(end) => {
            if end < line.len() && line[end] == '\'' {
                Some(end + 1)
            } else {
                None
            }
        },
        None => None,
    }
}

fn closes(line: &Vec<char>, i: usize, count: usize) -> (r: bool)
    requires
        i <= line@.len(),
    ensures
        r == closes_raw(line@, i as int, count as int),
{
    if count > line.len() - i {
        return false;
    }
    let size: usize = line.len();
    let mut k: usize = 0;
    while k < count
        invariant
            size == line@.len(),
            k <= count,
            i + count <= line@.len(),
            forall|j: int| i <= j < i + k ==> #[trigger] line@[j] == '#',
        decreases count - k,
    {
        if line[i + k] != '#' {
            assert(line@[i + k] != '#');
            return false;
        }
        k += 1;
    }
    true
}

proof fn literal_end_is_later(line: Seq<char>, i: int)
    requires
        0 <= i < line.len(),
    ensures
        char_literal(line, i) matches Some(end) ==> end > i,
{
    if i + 3 < line.len() && line[i + 3] == '{' {
        unicode_end_is_later(line, i + 3, i + 4);
    }
}

proof fn unicode_end_is_later(line: Seq<char>, open: int, i: int)
    requires
        0 <= open < i,
    ensures
        unicode_end(line, open, i) == -1 || unicode_end(line, open, i) > open,
    decreases line.len() - i,
{
    if i < line.len() && hex_char(line[i]) {
        unicode_end_is_later(line, open, i + 1);
    }
}

fn step(line: &Vec<char>, i: usize, state: LexState) -> (r: (LexState, usize))
    requires
        i < line@.len(),
        !comment_at(line@, i as int, state),
    ensures
        r.0 == lex_step(line@, i as int, state).0,
        r.1 == lex_step(line@, i as int, state).1,
        i < r.1 <= line@.len(),
{
    proof {
        literal_end_is_later(line@, i as int);
    }
    let size: usize = line.len();
    if let Some(hashes) = state.raw_hashes {
        if line[i] == '"' && closes(line, i + 1, hashes) {
            return (LexState { raw_hashes: None, ..state }, i + 1 + hashes);
        }
        return (state, i + 1);
    }
    if state.block_comment_depth > 0 {
        if is_pair(line, i, '/', '*') {
            let deeper: usize = state.block_comment_depth.saturating_add(1);
            return (LexState { block_comment_depth: deeper, ..state }, i + 2);
        }
        if is_pair(line, i, '*', '/') {
            let higher: usize = state.block_comment_depth - 1;
            return (LexState { block_comment_depth: higher, ..state }, i + 2);
        }
        return (state, i + 1);
    }
    if state.string {
        if state.escaped {
            return (LexState { escaped: false, ..state }, i + 1);
        }
        if line[i] == '\\' {
            return (LexState { escaped: true, ..state }, i + 1);
        }
        if line[i] == '"' {
            return (LexState { string: false, ..state }, i + 1);
        }
        return (state, i + 1);
    }
    if is_pair(line, i, '/', '*') {
        return (LexState { block_comment_depth: 1, ..state }, i + 2);
    }
    if let Some((hashes, end)) = raw_string_start(line, i) {
        return (LexState { raw_hashes: Some(hashes), ..state }, end);
    }
    if line[i] == '"' {
        return (LexState { string: true, ..state }, i + 1);
    }
    if line[i] == '\'' {
        if let Some(end) = char_literal_end(line, i) {
            return (state, end);
        }
    }
    if line[i] == '{' {
        let deeper: usize = state.brace_depth.saturating_add(1);
        return (LexState { brace_depth: deeper, ..state }, i + 1);
    }
    if line[i] == '}' {
        let higher: usize = state.brace_depth.saturating_sub(1);
        return (LexState { brace_depth: higher, ..state }, i + 1);
    }
    (state, i + 1)
}

/// Reads a line: the state after it, and where its line comment starts.
pub fn line_comment(line: &Vec<char>, start: LexState) -> (r: (LexState, Option<usize>))
    ensures
        r.0 == scan(line@, 0, start).0,
        match r.1 {
            Some(i) => scan(line@, 0, start).1 == Some(i as int) && i + 1 < line@.len(),
            None => scan(line@, 0, start).1 is None,
        },
{
    let mut state: LexState = start;
    let mut i: usize = 0;
    while i < line.len()
        invariant
            i <= line@.len(),
            scan(line@, 0, start) == scan(line@, i as int, state),
        decreases line@.len() - i,
    {
        if state.raw_hashes.is_none() && state.block_comment_depth == 0 && !state.string && is_pair(
            line,
            i,
            '/',
            '/',
        ) {
            return (state, Some(i));
        }
        let (next, end) = step(line, i, state);
        state = next;
        i = end;
    }
    (LexState { escaped: false, ..state }, None)
}

pub open spec fn word_char(c: char) -> bool {
    '0' <= c <= '9' || 'a' <= c <= 'z' || 'A' <= c <= 'Z' || c == '_'
}

fn is_word_char(c: char) -> (r: bool)
    ensures
        r == word_char(c),
{
    ('0' <= c && c <= '9') || ('a' <= c && c <= 'z') || ('A' <= c && c <= 'Z') || c == '_'
}

/// The end of the run of word characters that starts at `i`.
pub open spec fn word_end(s: Seq<char>, i: int) -> int
    decreases s.len() - i,
{
    if 0 <= i < s.len() && word_char(s[i]) {
        word_end(s, i + 1)
    } else {
        i
    }
}

/// The words of a text from `i` on.
pub open spec fn words_from(s: Seq<char>, i: int) -> Seq<Seq<char>>
    decreases s.len() - i,
{
    if i < 0 || i >= s.len() {
        seq![]
    } else if !word_char(s[i]) {
        words_from(s, i + 1)
    } else {
        let end = word_end(s, i);
        if i < end <= s.len() {
            seq![s.subrange(i, end)] + words_from(s, end)
        } else {
            seq![]
        }
    }
}

/// The words of a text.
pub fn words(s: &Vec<char>) -> (r: Vec<String>)
    ensures
        views(r@) == words_from(s@, 0),
{
    let mut out: Vec<String> = Vec::new();
    let mut i: usize = 0;
    while i < s.len()
        invariant
            i <= s@.len(),
            views(out@) + words_from(s@, i as int) == words_from(s@, 0),
        decreases s@.len() - i,
    {
        if !is_word_char(s[i]) {
            i += 1;
        } else {
            let mut end: usize = i;
            while end < s.len() && is_word_char(s[end])
                invariant
                    i <= end <= s@.len(),
                    word_char(s@[i as int]),
                    i < s@.len(),
                    word_end(s@, i as int) == word_end(s@, end as int),
                decreases s@.len() - end,
            {
                end += 1;
            }
            let ghost before = views(out@);
            out.push(slice(s.as_slice(), i, end));
            assert(views(out@) + words_from(s@, end as int) =~= before + words_from(
                s@,
                i as int,
            ));
            i = end;
        }
    }
    assert(views(out@) + words_from(s@, i as int) =~= views(out@));
    out
}

pub open spec fn kind_of_word(word: Seq<char>) -> Option<MarkerKind> {
    if word == "Arrange"@ {
        Some(MarkerKind::Arrange)
    } else if word == "Act"@ {
        Some(MarkerKind::Act)
    } else if word == "Assert"@ {
        Some(MarkerKind::Assert)
    } else {
        None
    }
}

pub fn marker_kind(word: &str) -> (r: Option<MarkerKind>)
    ensures
        r == kind_of_word(word@),
{
    if same(word, "Arrange") {
        Some(MarkerKind::Arrange)
    } else if same(word, "Act") {
        Some(MarkerKind::Act)
    } else if same(word, "Assert") {
        Some(MarkerKind::Assert)
    } else {
        None
    }
}

/// The marker that the comment at column `at` of line `number` is, if it is one.
pub open spec fn marker_of(line: Seq<char>, number: usize, at: int) -> Option<Marker> {
    let comment = trimmed(line.skip(at + 2));
    let found = words_from(comment, 0);
    if has_prefix(comment, "/"@) || has_prefix(comment, "!"@) || found.len() == 0 || kind_of_word(
        found[0],
    ) is None {
        None
    } else {
        Some(
            Marker {
                kind: kind_of_word(found[0])->0,
                span: SourceSpan {
                    start: Position { line: number, column: after(at) },
                    end: Position { line: number, column: after(line.len() as int) },
                },
                combined: keep(found, |w: Seq<char>| kind_of_word(w) is Some).len() > 1 || !(comment
                    == "Arrange"@ || comment == "Act"@ || comment == "Assert"@),
            },
        )
    }
}

fn read_marker(line: &Vec<char>, number: usize, at: usize) -> (r: Option<Marker>)
    requires
        at + 1 < line@.len(),
    ensures
        r == marker_of(line@, number, at as int),
{
    let size: usize = line.len();
    let text = slice(line.as_slice(), at + 2, size);
    assert(text@ =~= line@.skip(at + 2));
    let comment = trim(text.as_str());
    if starts_with(comment.as_str(), "/") || starts_with(comment.as_str(), "!") {
        return None;
    }
    let found = words(&chars(comment.as_str()));
    if found.len() == 0 {
        return None;
    }
    let kind = match marker_kind(found[0].as_str()) {
        Some(kind) => kind,
        None => {
            return None;
        },
    };
    let ghost all = views(found@);
    let ghost p = |w: Seq<char>| kind_of_word(w) is Some;
    let mut kinds: usize = 0;
    let mut i: usize = 0;
    while i < found.len()
        invariant
            p == (|w: Seq<char>| kind_of_word(w) is Some),
            all == views(found@),
            i <= found@.len(),
            kinds <= i,
            kinds == keep(all.take(i as int), p).len(),
        decreases found@.len() - i,
    {
        proof {
            take_step(all, i as int);
        }
        if marker_kind(found[i].as_str()).is_some() {
            kinds += 1;
        }
        i += 1;
    }
    proof {
        take_all(all);
    }
    let exact = same(comment.as_str(), "Arrange") || same(comment.as_str(), "Act") || same(
        comment.as_str(),
        "Assert",
    );
    Some(
        Marker {
            kind,
            span: SourceSpan::line(number, at.saturating_add(1), size.saturating_add(1)),
            combined: kinds > 1 || !exact,
        },
    )
}

/// The marker on a line that begins in `state`.
pub open spec fn line_marker(line: Seq<char>, number: usize, state: LexState) -> Option<Marker> {
    let (next, at) = scan(line, 0, state);
    match at {
        Some(at) => if next.brace_depth == 1 {
            marker_of(line, number, at)
        } else {
            None
        },
        None => None,
    }
}

/// The markers on the lines from `number` up to `last`.
pub open spec fn markers_from(
    lines: Seq<Seq<char>>,
    number: int,
    last: int,
    state: LexState,
) -> Seq<Marker>
    decreases last - number + 1,
{
    if number < 1 || number > last || number > lines.len() || number > usize::MAX {
        seq![]
    } else {
        let line = lines[number - 1];
        let rest = markers_from(lines, number + 1, last, scan(line, 0, state).0);
        match line_marker(line, number as usize, state) {
            Some(marker) => seq![marker] + rest,
            None => rest,
        }
    }
}

/// The markers of the function that spans these lines.
pub open spec fn markers_in(lines: Seq<Seq<char>>, span: SourceSpan) -> Seq<Marker> {
    markers_from(lines, span.start.line as int, span.end.line as int, fresh())
}

/// The markers of the function that spans these lines.
pub fn find_markers(lines: &Vec<String>, span: SourceSpan) -> (r: Vec<Marker>)
    ensures
        r@ == markers_in(views(lines@), span),
{
    let ghost all = views(lines@);
    let mut state = LexState {
        block_comment_depth: 0,
        raw_hashes: None,
        string: false,
        escaped: false,
        brace_depth: 0,
    };
    let mut markers: Vec<Marker> = Vec::new();
    if span.start.line < 1 {
        return markers;
    }
    let last: usize = if span.end.line < lines.len() {
        span.end.line
    } else {
        lines.len()
    };
    if span.start.line > last {
        return markers;
    }
    let mut index: usize = span.start.line - 1;
    while index < last
        invariant
            all == views(lines@),
            1 <= span.start.line,
            index <= last <= lines@.len(),
            last <= span.end.line,
            last == span.end.line || last == lines@.len(),
            markers@ + markers_from(all, index + 1, span.end.line as int, state) == markers_in(
                all,
                span,
            ),
        decreases last - index,
    {
        let line = chars(lines[index].as_str());
        let (next, at) = line_comment(&line, state);
        let ghost before = markers@;
        if let Some(at) = at {
            if next.brace_depth == 1 {
                if let Some(marker) = read_marker(&line, index + 1, at) {
                    markers.push(marker);
                }
            }
        }
        assert(markers@ + markers_from(all, index + 2, span.end.line as int, next) =~= before
            + markers_from(all, index + 1, span.end.line as int, state));
        state = next;
        index += 1;
    }
    assert(markers@ + markers_from(all, index + 1, span.end.line as int, state) =~= markers@);
    markers
}

/// The markers of a function stand on lines of their own, in ascending order.
pub proof fn markers_ascend(lines: Seq<Seq<char>>, span: SourceSpan, i: int, j: int)
    requires
        0 <= i < j < markers_in(lines, span).len(),
    ensures
        markers_in(lines, span)[i].span.start.line < markers_in(lines, span)[j].span.start.line,
{
    markers_from_ascend(lines, span.start.line as int, span.end.line as int, fresh());
}

proof fn markers_from_ascend(lines: Seq<Seq<char>>, number: int, last: int, state: LexState)
    ensures
        forall|i: int|
            0 <= i < markers_from(lines, number, last, state).len() ==> #[trigger] markers_from(
                lines,
                number,
                last,
                state,
            )[i].span.start.line >= number,
        forall|i: int, j: int|
            0 <= i < j < markers_from(lines, number, last, state).len() ==> (
            #[trigger] markers_from(lines, number, last, state)[i]).span.start.line < (
            #[trigger] markers_from(lines, number, last, state)[j]).span.start.line,
    decreases last - number + 1,
{
    if number < 1 || number > last || number > lines.len() || number > usize::MAX {
    } else {
        markers_from_ascend(lines, number + 1, last, scan(lines[number - 1], 0, state).0);
    }
}

/// The section that the line lies in: that of the last marker before it.
pub open spec fn section_on(markers: Seq<Marker>, line: usize) -> Section {
    match last_opened(keep(markers, |m: Marker| m.span.start.line < line)) {
        Some(marker) => match marker.kind {
            MarkerKind::Arrange => Section::Arrange,
            MarkerKind::Act => Section::Act,
            MarkerKind::Assert => Section::Assert,
        },
        None => Section::Body,
    }
}

/// The marker on the last line, of equal ones the last.
pub open spec fn last_opened(markers: Seq<Marker>) -> Option<Marker>
    decreases markers.len(),
{
    if markers.len() == 0 {
        None
    } else {
        match last_opened(markers.drop_last()) {
            Some(best) if markers.last().span.start.line < best.span.start.line => Some(best),
            _ => Some(markers.last()),
        }
    }
}

pub fn section_at(markers: &Vec<Marker>, line: usize) -> (r: Section)
    ensures
        r == section_on(markers@, line),
{
    let ghost p = |m: Marker| m.span.start.line < line;
    let mut best: Option<Marker> = None;
    let mut i: usize = 0;
    while i < markers.len()
        invariant
            p == (|m: Marker| m.span.start.line < line),
            i <= markers@.len(),
            best == last_opened(keep(markers@.take(i as int), p)),
        decreases markers@.len() - i,
    {
        proof {
            take_step(markers@, i as int);
        }
        let marker: Marker = markers[i];
        if marker.span.start.line < line {
            proof {
                let kept = keep(markers@.take(i as int), p);
                assert(kept.push(marker).drop_last() =~= kept);
            }
            best = match best {
                Some(found) => if marker.span.start.line < found.span.start.line {
                    Some(found)
                } else {
                    Some(marker)
                },
                None => Some(marker),
            };
        }
        i += 1;
    }
    proof {
        take_all(markers@);
    }
    match best {
        Some(marker) => match marker.kind {
            MarkerKind::Arrange => Section::Arrange,
            MarkerKind::Act => Section::Act,
            MarkerKind::Assert => Section::Assert,
        },
        None => Section::Body,
    }
}

} // verus!
