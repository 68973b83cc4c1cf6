//! Documents: which there must be, and whether their links lead somewhere.

use vstd::prelude::*;

use super::{quote, quoted, DocsConfig};
use crate::copies::option_view;
use crate::names::{NameMap, Names};
use crate::paths::{relative, relative_name, Separators};
use crate::patterns::{pattern_fault, pattern_matches, MatchView, Pattern};
use crate::select::{describe_wanted, texts, wanted, Describe, Select};
use crate::seqs::{
    any, every, flat, flat_of_permutation, keep, kept, mapped, same_multiset_contains, take_all,
    take_step, views,
};
use crate::text::{
    chars, contains, contains_text, find_from, find_from_found, has_prefix, join, joined, lines,
    lines_of, matches_at, pieces, same, slice, starts_with, strip_end, strip_start, trim, trim_char,
    trim_end_char, trimmed, words, words_of,
};

verus! {

broadcast use {vstd::std_specs::vec::group_vec_axioms, crate::seqs::group_views};

/// Whether a name is that of a path or stands below it.
pub open spec fn is_under(name: Seq<char>, prefix: Seq<char>) -> bool {
    name == strip_end(prefix, '/') || has_prefix(name, strip_end(prefix, '/') + "/"@)
}

/// Whether a name is among the excluded ones.
pub open spec fn excludes(excluded: Seq<Seq<char>>, name: Seq<char>) -> bool {
    any(excluded, |prefix: Seq<char>| is_under(name, prefix))
}

fn under(name: &str, prefix: &str) -> (r: bool)
    ensures
        r == is_under(name@, prefix@),
{
    let directory = trim_end_char(prefix, '/');
    let mut inside = directory.clone();
    inside.append("/");
    same(name, directory.as_str()) || starts_with(name, inside.as_str())
}

/// Whether a path is excluded, as seen from the root.
pub fn is_excluded(
    root: &str,
    path: &str,
    separators: Separators,
    excluded: &Vec<String>,
) -> (r: bool)
    ensures
        r == excludes(views(excluded@), relative_name(root@, path@, separators)),
{
    let name = relative(root, path, separators);
    let ghost all = views(excluded@);
    let ghost p = |prefix: Seq<char>| is_under(name@, prefix);
    let mut i: usize = 0;
    while i < excluded.len()
        invariant
            name@ == relative_name(root@, path@, separators),
            all == views(excluded@),
            p == (|prefix: Seq<char>| is_under(name@, prefix)),
            i <= excluded@.len(),
            forall|j: int| 0 <= j < i ==> !p(#[trigger] all[j]),
        decreases excluded@.len() - i,
    {
        if under(name.as_str(), excluded[i].as_str()) {
            assert(p(all[i as int]));
            return true;
        }
        i += 1;
    }
    false
}

/// What is excluded stays excluded below it.
pub proof fn excluded_below(name: Seq<char>, rest: Seq<char>, prefix: Seq<char>)
    requires
        is_under(name, prefix),
    ensures
        is_under(name + "/"@ + rest, prefix),
{
    let start = strip_end(prefix, '/');
    let longer = name + "/"@ + rest;
    if name == start {
        assert(longer.subrange(0, (start + "/"@).len() as int) =~= start + "/"@);
    } else {
        let inside = start + "/"@;
        assert(longer.subrange(0, inside.len() as int) =~= name.subrange(0, inside.len() as int));
    }
}

/// Whether the search for documents goes into a directory or looks at a file; `depth` is
/// zero for the root itself.
pub open spec fn searches(
    depth: usize,
    file_name: Seq<char>,
    name: Seq<char>,
    excluded: Seq<Seq<char>>,
) -> bool {
    depth == 0 || !(file_name == "target"@ || has_prefix(file_name, "."@) || excludes(
        excluded,
        name,
    ))
}

pub fn enters(
    depth: usize,
    file_name: &str,
    root: &str,
    path: &str,
    separators: Separators,
    excluded: &Vec<String>,
) -> (r: bool)
    ensures
        r == searches(
            depth,
            file_name@,
            relative_name(root@, path@, separators),
            views(excluded@),
        ),
{
    depth == 0 || !(same(file_name, "target") || starts_with(file_name, ".") || is_excluded(
        root,
        path,
        separators,
        excluded,
    ))
}

pub open spec fn is_slug_char(c: char) -> bool {
    'a' <= c <= 'z' || '0' <= c <= '9' || c == ' ' || c == '-'
}

/// A letter of the Latin alphabet in lower case.
pub open spec fn lower(c: char) -> char {
    if 'A' <= c <= 'Z' {
        ((c as u32 + 32) as u8) as char
    } else {
        c
    }
}

fn to_lower_char(c: char) -> (r: char)
    ensures
        r == lower(c),
{
    if 'A' <= c && c <= 'Z' {
        ((c as u32 + 32) as u8) as char
    } else {
        c
    }
}

/// The characters of a heading that its anchor keeps.
pub open spec fn slug_chars(s: Seq<char>) -> Seq<char> {
    keep(mapped(s, |c: char| lower(c)), |c: char| is_slug_char(c))
}

/// The anchor of a heading.
pub open spec fn slug_of(s: Seq<char>) -> Seq<char> {
    joined(words_of(slug_chars(s)), "-"@)
}

/// The anchor of a heading.
pub fn slug(value: &str) -> (r: String)
    ensures
        r@ == slug_of(value@),
{
    let all = chars(value);
    let ghost lowered = mapped(value@, |c: char| lower(c));
    let ghost p = |c: char| is_slug_char(c);
    let mut out = String::new();
    let mut i: usize = 0;
    while i < all.len()
        invariant
            all@ == value@,
            lowered == mapped(value@, |c: char| lower(c)),
            p == (|c: char| is_slug_char(c)),
            i <= all@.len(),
            out@ == keep(lowered.take(i as int), p),
        decreases all@.len() - i,
    {
        proof {
            take_step(lowered, i as int);
        }
        let c: char = to_lower_char(all[i]);
        if ('a' <= c && c <= 'z') || ('0' <= c && c <= '9') || c == ' ' || c == '-' {
            out.push(c);
        }
        i += 1;
    }
    proof {
        take_all(lowered);
    }
    join(&words(out.as_str()), "-")
}

/// Whether a line is a heading.
pub open spec fn is_heading(line: Seq<char>) -> bool {
    line.len() >= 2 && line[0] == '#' && (line[1] == '#' || line[1] == ' ')
}

/// The anchor of a line that is a heading.
pub open spec fn heading_slug(line: Seq<char>) -> Seq<char> {
    slug_of(trimmed(strip_end(strip_start(line.skip(1), '#'), '#')))
}

/// The anchors of the headings of a document.
pub open spec fn headings_of(text: Seq<char>) -> Set<Seq<char>> {
    mapped(
        keep(lines_of(text), |line: Seq<char>| is_heading(line)),
        |line: Seq<char>| heading_slug(line),
    ).to_set()
}

/// The anchors of the headings of a document.
pub fn heading_ids(text: &str) -> (r: Names)
    ensures
        r@ == headings_of(text@),
{
    let all_lines = lines(text);
    let ghost all = views(all_lines@);
    let ghost p = |line: Seq<char>| is_heading(line);
    let ghost f = |line: Seq<char>| heading_slug(line);
    let mut r = Names::new();
    let mut i: usize = 0;
    assert(mapped(keep(all.take(0), p), f).to_set() =~= Set::<Seq<char>>::empty());
    while i < all_lines.len()
        invariant
            all == views(all_lines@),
            p == (|line: Seq<char>| is_heading(line)),
            f == (|line: Seq<char>| heading_slug(line)),
            i <= all_lines@.len(),
            r@ == mapped(keep(all.take(i as int), p), f).to_set(),
        decreases all_lines@.len() - i,
    {
        proof {
            take_step(all, i as int);
        }
        let ghost before = mapped(keep(all.take(i as int), p), f);
        let line = chars(all_lines[i].as_str());
        let end: usize = line.len();
        if end >= 2 && line[0] == '#' && (line[1] == '#' || line[1] == ' ') {
            let rest = slice(line.as_slice(), 1, end);
            assert(rest@ =~= line@.skip(1));
            let id = slug(trim(trim_char(rest.as_str(), '#').as_str()).as_str());
            proof {
                assert(mapped(keep(all.take(i as int + 1), p), f) =~= before.push(id@));
                crate::names::set_of_push(before, id@);
            }
            r.insert(id);
        }
        i += 1;
    }
    proof {
        take_all(all);
    }
    r
}

/// What links in documents look like.
pub const LINK_PATTERN: &'static str = "\\[[^\\]]*\\]\\(([^)#\\s]*)(?:#([^)]*))?\\)";

/// A link to a place, and to a heading there.
pub struct Link {
    pub target: String,
    pub anchor: Option<String>,
}

#[verifier::ext_equal]
pub struct LinkView {
    pub target: Seq<char>,
    pub anchor: Option<Seq<char>>,
}

impl View for Link {
    type V = LinkView;

    open spec fn view(&self) -> LinkView {
        LinkView { target: self.target@, anchor: option_view(self.anchor) }
    }
}

/// The link that a match is.
pub open spec fn link_of(found: MatchView) -> LinkView {
    LinkView { target: found.group_text(1), anchor: found.group(2) }
}

/// The links of a document.
pub open spec fn links_of(text: Seq<char>) -> Seq<LinkView> {
    if pattern_fault(LINK_PATTERN@) is Some {
        seq![]
    } else {
        mapped(pattern_matches(LINK_PATTERN@, text), |found: MatchView| link_of(found))
    }
}

/// The links of a document.
pub fn markdown_links(text: &str) -> (r: Vec<Link>)
    ensures
        views(r@) == links_of(text@),
{
    let mut out: Vec<Link> = Vec::new();
    let pattern = match Pattern::new(LINK_PATTERN) {
        Ok(pattern) => pattern,
        Err(_) => {
            assert(views(out@) =~= links_of(text@));
            return out;
        },
    };
    let found = pattern.find_all(text);
    let ghost all = views(found@);
    let ghost f = |found: MatchView| link_of(found);
    let mut i: usize = 0;
    assert(views(out@) =~= mapped(all.take(0), f));
    while i < found.len()
        invariant
            all == views(found@),
            f == (|found: MatchView| link_of(found)),
            i <= found@.len(),
            views(out@) == mapped(all.take(i as int), f),
        decreases found@.len() - i,
    {
        let anchor = match found[i].group(2) {
            Some(text) => Some(text.clone()),
            None => None,
        };
        let link = Link { target: found[i].group_text(1), anchor };
        assert(link@ == f(all[i as int]));
        out.push(link);
        i += 1;
        assert(views(out@) =~= mapped(all.take(i as int), f));
    }
    proof {
        take_all(all);
    }
    out
}

/// Whether a link leads to a place in the repository.
pub open spec fn is_local(link: LinkView) -> bool {
    !(link.target.len() == 0 || contains_text(link.target, "://"@) || has_prefix(
        link.target,
        "mailto:"@,
    ))
}

fn local(link: &Link) -> (r: bool)
    ensures
        r == is_local(link@),
{
    let target = link.target.as_str();
    !(chars(target).len() == 0 || contains(target, "://") || starts_with(target, "mailto:"))
}

/// The links of a document that lead to places in the repository.
pub open spec fn local_links_of(text: Seq<char>) -> Seq<LinkView> {
    keep(links_of(text), |link: LinkView| is_local(link))
}

fn local_links(text: &str) -> (r: Vec<Link>)
    ensures
        views(r@) == local_links_of(text@),
{
    let links = markdown_links(text);
    let ghost all = views(links@);
    let ghost p = |link: LinkView| is_local(link);
    let mut out: Vec<Link> = Vec::new();
    for link in it: links
        invariant
            views(it.seq()) == all,
            p == (|link: LinkView| is_local(link)),
            views(out@) == keep(all.take(it.index() as int), p),
    {
        proof {
            assert(views(it.seq())[it.index() as int] == link@);
            take_step(all, it.index() as int);
        }
        if local(&link) {
            out.push(link);
        }
    }
    proof {
        take_all(all);
    }
    out
}

/// Documents that there must be and are not there.
pub struct MissingDocument<'a> {
    pub names: &'a Names,
}

impl<'a> Select<String> for MissingDocument<'a> {
    open spec fn wants(&self, path: Seq<char>) -> bool {
        !self.names@.contains(path)
    }

    fn accepts(&self, path: &String) -> (r: bool) {
        !self.names.contains(path.as_str())
    }
}

impl<'a> Describe<String> for MissingDocument<'a> {
    open spec fn ready(&self) -> bool {
        true
    }

    open spec fn text(&self, path: Seq<char>) -> Seq<char> {
        "missing required document: "@ + path
    }

    fn describe(&self, path: &String) -> (r: String) {
        let mut out = "missing required document: ".to_owned();
        out.append(path.as_str());
        out
    }
}

/// Documents that must not be there and are.
pub struct ForbiddenDocument<'a> {
    pub names: &'a Names,
}

impl<'a> Select<String> for ForbiddenDocument<'a> {
    open spec fn wants(&self, path: Seq<char>) -> bool {
        self.names@.contains(path)
    }

    fn accepts(&self, path: &String) -> (r: bool) {
        self.names.contains(path.as_str())
    }
}

impl<'a> Describe<String> for ForbiddenDocument<'a> {
    open spec fn ready(&self) -> bool {
        true
    }

    open spec fn text(&self, path: Seq<char>) -> Seq<char> {
        "forbidden document is present: "@ + path
    }

    fn describe(&self, path: &String) -> (r: String) {
        let mut out = "forbidden document is present: ".to_owned();
        out.append(path.as_str());
        out
    }
}

/// Texts that must not be in a document and are.
pub struct ForbiddenText<'a> {
    pub name: &'a str,
    pub text: &'a str,
}

impl<'a> Select<String> for ForbiddenText<'a> {
    open spec fn wants(&self, marker: Seq<char>) -> bool {
        contains_text(self.text@, marker)
    }

    fn accepts(&self, marker: &String) -> (r: bool) {
        contains(self.text, marker.as_str())
    }
}

impl<'a> Describe<String> for ForbiddenText<'a> {
    open spec fn ready(&self) -> bool {
        true
    }

    open spec fn text(&self, marker: Seq<char>) -> Seq<char> {
        self.name@ + ": forbidden documentation text "@ + quoted(marker)
    }

    fn describe(&self, marker: &String) -> (r: String) {
        let mut out = self.name.to_owned();
        out.append(": forbidden documentation text ");
        out.append(quote(marker.as_str()).as_str());
        out
    }
}

/// What is wrong with the documents that there are.
pub open spec fn presence_errors(
    required: Seq<Seq<char>>,
    forbidden: Seq<Seq<char>>,
    names: Set<Seq<char>>,
) -> Seq<Seq<char>> {
    mapped(
        keep(required, |path: Seq<char>| !names.contains(path)),
        |path: Seq<char>| "missing required document: "@ + path,
    ) + mapped(
        keep(forbidden, |path: Seq<char>| names.contains(path)),
        |path: Seq<char>| "forbidden document is present: "@ + path,
    )
}

/// What is wrong with the text of a document.
pub open spec fn text_errors(name: Seq<char>, text: Seq<char>, forbidden: Seq<Seq<char>>) -> Seq<
    Seq<char>,
> {
    mapped(
        keep(forbidden, |marker: Seq<char>| contains_text(text, marker)),
        |marker: Seq<char>| name + ": forbidden documentation text "@ + quoted(marker),
    )
}

/// A link of a document, and what stands where it leads.
pub struct FoundLink {
    /// The document that the link is in.
    pub name: String,
    pub link: Link,
    /// Whether the link leads to a file, or to a directory with a readme.
    pub found: bool,
    /// The document that the link leads to.
    pub target_name: String,
}

#[verifier::ext_equal]
pub struct FoundLinkView {
    pub name: Seq<char>,
    pub link: LinkView,
    pub found: bool,
    pub target_name: Seq<char>,
}

impl View for FoundLink {
    type V = FoundLinkView;

    open spec fn view(&self) -> FoundLinkView {
        FoundLinkView {
            name: self.name@,
            link: self.link@,
            found: self.found,
            target_name: self.target_name@,
        }
    }
}

/// What is wrong with a link, where `headings` are the anchors of all documents.
pub open spec fn link_errors(
    link: FoundLinkView,
    headings: Map<Seq<char>, Set<Seq<char>>>,
) -> Seq<Seq<char>> {
    (if link.found {
        seq![]
    } else {
        seq![link.name + ": broken local link "@ + link.link.target]
    }) + (match link.link.anchor {
        Some(anchor) => if headings.contains_key(link.target_name)
            && headings[link.target_name].contains(slug_of(anchor)) {
            seq![]
        } else {
            seq![link.name + ": broken anchor "@ + link.link.target + "#"@ + anchor]
        },
        None => seq![],
    })
}

/// Appends what is wrong with a link.
fn judge_link(out: &mut Vec<String>, link: &FoundLink, headings: &NameMap<Names>)
    ensures
        views(final(out)@) == views(old(out)@) + link_errors(link@, headings@),
{
    let ghost before = views(out@);
    if !link.found {
        let mut error = link.name.clone();
        error.append(": broken local link ");
        error.append(link.link.target.as_str());
        out.push(error);
    }
    match &link.link.anchor {
        Some(anchor) => {
            let known = match headings.get(link.target_name.as_str()) {
                Some(ids) => ids.contains(slug(anchor.as_str()).as_str()),
                None => false,
            };
            if !known {
                let mut error = link.name.clone();
                error.append(": broken anchor ");
                error.append(link.link.target.as_str());
                error.append("#");
                error.append(anchor.as_str());
                out.push(error);
            }
        },
        None => {},
    }
    assert(views(out@) =~= before + link_errors(link@, headings@));
}

/// What a check has come upon: an error, or a link that is judged when all documents are
/// read.
pub enum Note {
    Error(String),
    Link(FoundLink),
}

#[verifier::ext_equal]
pub enum NoteView {
    Error(Seq<char>),
    Link(FoundLinkView),
}

impl View for Note {
    type V = NoteView;

    open spec fn view(&self) -> NoteView {
        match self {
            Note::Error(error) => NoteView::Error(error@),
            Note::Link(link) => NoteView::Link(link@),
        }
    }
}

/// The errors that a note comes down to, where `headings` are the anchors of all
/// documents.
pub open spec fn note_errors(
    note: NoteView,
    headings: Map<Seq<char>, Set<Seq<char>>>,
) -> Seq<Seq<char>> {
    match note {
        NoteView::Error(error) => seq![error],
        NoteView::Link(link) => link_errors(link, headings),
    }
}

/// Errors as notes.
pub open spec fn error_notes(errors: Seq<Seq<char>>) -> Seq<NoteView> {
    mapped(errors, |error: Seq<char>| NoteView::Error(error))
}

fn note_all(notes: &mut Vec<Note>, errors: Vec<String>)
    ensures
        views(final(notes)@) == views(old(notes)@) + error_notes(views(errors@)),
{
    let ghost before = views(notes@);
    let ghost all = views(errors@);
    assert(views(notes@) =~= before + error_notes(all.take(0)));
    for error in it: errors
        invariant
            views(it.seq()) == all,
            views(notes@) == before + error_notes(all.take(it.index() as int)),
    {
        let ghost i = it.index() as int;
        proof {
            assert(views(it.seq())[i] == error@);
            take_step(all, i);
        }
        notes.push(Note::Error(error));
        assert(views(notes@) =~= before + error_notes(all.take(i + 1)));
    }
    proof {
        take_all(all);
    }
}

/// A check of documents under way: the documents read so far with their anchors, and what
/// was come upon. Links are judged at the end, so that every document is known by then.
pub struct DocsCheck {
    pub headings: NameMap<Names>,
    pub notes: Vec<Note>,
}

#[verifier::ext_equal]
pub struct DocsCheckView {
    pub headings: Map<Seq<char>, Set<Seq<char>>>,
    pub notes: Seq<NoteView>,
}

impl View for DocsCheck {
    type V = DocsCheckView;

    open spec fn view(&self) -> DocsCheckView {
        DocsCheckView { headings: self.headings@, notes: views(self.notes@) }
    }
}

impl DocsCheckView {
    /// The check after the text of one more document.
    pub open spec fn with_document(
        self,
        name: Seq<char>,
        text: Seq<char>,
        forbidden: Seq<Seq<char>>,
    ) -> DocsCheckView {
        DocsCheckView {
            headings: self.headings.insert(name, headings_of(text)),
            notes: self.notes + error_notes(text_errors(name, text, forbidden)),
        }
    }

    /// The check after one more link.
    pub open spec fn with_link(self, link: FoundLinkView) -> DocsCheckView {
        DocsCheckView { notes: self.notes.push(NoteView::Link(link)), ..self }
    }

    /// All errors, now that every document is read.
    pub open spec fn errors(self) -> Seq<Seq<char>> {
        flat(self.notes, |note: NoteView| note_errors(note, self.headings))
    }
}

impl DocsCheck {
    /// Starts with the names of all documents.
    pub fn start(config: &DocsConfig, names: &Names) -> (r: DocsCheck)
        ensures
            r@ == (DocsCheckView {
                headings: Map::empty(),
                notes: error_notes(
                    presence_errors(
                        views(config.required@),
                        views(config.forbidden_paths@),
                        names@,
                    ),
                ),
            }),
    {
        let missing = MissingDocument { names };
        let forbidden = ForbiddenDocument { names };
        let mut errors: Vec<String> = Vec::new();
        describe_wanted(&mut errors, &config.required, &missing);
        describe_wanted(&mut errors, &config.forbidden_paths, &forbidden);
        proof {
            assert(wanted::<String, MissingDocument>(&missing) =~= (|path: Seq<char>|
                !names@.contains(path)));
            assert(texts::<String, MissingDocument>(&missing) =~= (|path: Seq<char>|
                "missing required document: "@ + path));
            assert(wanted::<String, ForbiddenDocument>(&forbidden) =~= (|path: Seq<char>|
                names@.contains(path)));
            assert(texts::<String, ForbiddenDocument>(&forbidden) =~= (|path: Seq<char>|
                "forbidden document is present: "@ + path));
        }
        assert(views(errors@) =~= presence_errors(
            views(config.required@),
            views(config.forbidden_paths@),
            names@,
        ));
        let mut notes: Vec<Note> = Vec::new();
        note_all(&mut notes, errors);
        let r = DocsCheck { headings: NameMap::new(), notes };
        assert(r@.notes =~= error_notes(
            presence_errors(views(config.required@), views(config.forbidden_paths@), names@),
        ));
        r
    }

    /// Reads a document; gives the links in it that lead to places in the repository.
    pub fn add_document(&mut self, name: &str, text: &str, config: &DocsConfig) -> (r: Vec<Link>)
        ensures
            views(r@) == local_links_of(text@),
            final(self)@ == old(self)@.with_document(name@, text@, views(config.forbidden_text@)),
    {
        let forbidden = ForbiddenText { name, text };
        self.headings.insert(name.to_owned(), heading_ids(text));
        let mut errors: Vec<String> = Vec::new();
        describe_wanted(&mut errors, &config.forbidden_text, &forbidden);
        proof {
            assert(wanted::<String, ForbiddenText>(&forbidden) =~= (|marker: Seq<char>|
                contains_text(text@, marker)));
            assert(texts::<String, ForbiddenText>(&forbidden) =~= (|marker: Seq<char>|
                name@ + ": forbidden documentation text "@ + quoted(marker)));
            assert(views(errors@) =~= text_errors(name@, text@, views(config.forbidden_text@)));
        }
        note_all(&mut self.notes, errors);
        local_links(text)
    }

    /// Notes where a link leads.
    pub fn add_link(&mut self, link: FoundLink)
        ensures
            final(self)@ == old(self)@.with_link(link@),
    {
        self.notes.push(Note::Link(link));
    }

    /// All that is wrong, told when every document is read.
    pub fn finish(self) -> (r: Vec<String>)
        ensures
            views(r@) == self@.errors(),
    {
        let ghost all = views(self.notes@);
        let ghost f = |note: NoteView| note_errors(note, self@.headings);
        let mut out: Vec<String> = Vec::new();
        let mut i: usize = 0;
        while i < self.notes.len()
            invariant
                all == views(self.notes@),
                f == (|note: NoteView| note_errors(note, self@.headings)),
                i <= self.notes@.len(),
                views(out@) == flat(all.take(i as int), f),
            decreases self.notes@.len() - i,
        {
            proof {
                take_step(all, i as int);
            }
            let ghost before = views(out@);
            assert(self.notes@[i as int]@ == all[i as int]);
            match &self.notes[i] {
                Note::Error(error) => out.push(error.clone()),
                Note::Link(link) => judge_link(&mut out, link, &self.headings),
            }
            assert(views(out@) =~= before + f(all[i as int]));
            i += 1;
        }
        proof {
            take_all(all);
        }
        out
    }
}

/// A document with the links in it.
#[verifier::ext_equal]
pub struct DocumentView {
    pub name: Seq<char>,
    pub text: Seq<char>,
    pub links: Seq<FoundLinkView>,
}

/// A check after some links, in order.
pub open spec fn with_links(check: DocsCheckView, links: Seq<FoundLinkView>) -> DocsCheckView
    decreases links.len(),
{
    if links.len() == 0 {
        check
    } else {
        with_links(check, links.drop_last()).with_link(links.last())
    }
}

/// A check after some documents with their links, in order.
pub open spec fn with_documents(
    check: DocsCheckView,
    documents: Seq<DocumentView>,
    forbidden: Seq<Seq<char>>,
) -> DocsCheckView
    decreases documents.len(),
{
    if documents.len() == 0 {
        check
    } else {
        let rest = with_documents(check, documents.drop_last(), forbidden);
        let last = documents.last();
        with_links(rest.with_document(last.name, last.text, forbidden), last.links)
    }
}

/// What a document adds to the notes.
pub open spec fn document_notes(
    document: DocumentView,
    forbidden: Seq<Seq<char>>,
) -> Seq<NoteView> {
    error_notes(text_errors(document.name, document.text, forbidden)) + mapped(
        document.links,
        |link: FoundLinkView| NoteView::Link(link),
    )
}

/// The anchors of a set of documents, each of which has its own name.
pub open spec fn anchors(documents: Seq<DocumentView>) -> Map<Seq<char>, Set<Seq<char>>>
    decreases documents.len(),
{
    if documents.len() == 0 {
        Map::empty()
    } else {
        anchors(documents.drop_last()).insert(
            documents.last().name,
            headings_of(documents.last().text),
        )
    }
}

/// Whether no two documents have one name.
pub open spec fn named_apart(documents: Seq<DocumentView>) -> bool {
    forall|i: int, j: int|
        0 <= i < j < documents.len() ==> (#[trigger] documents[i]).name != (
        #[trigger] documents[j]).name
}

proof fn links_are_noted(check: DocsCheckView, links: Seq<FoundLinkView>)
    ensures
        with_links(check, links).headings == check.headings,
        with_links(check, links).notes == check.notes + mapped(
            links,
            |link: FoundLinkView| NoteView::Link(link),
        ),
    decreases links.len(),
{
    let f = |link: FoundLinkView| NoteView::Link(link);
    if links.len() == 0 {
        assert(check.notes + mapped(links, f) =~= check.notes);
    } else {
        links_are_noted(check, links.drop_last());
        assert(check.notes + mapped(links, f) =~= (check.notes + mapped(
            links.drop_last(),
            f,
        )).push(f(links.last())));
    }
}

proof fn documents_are_noted(
    check: DocsCheckView,
    documents: Seq<DocumentView>,
    forbidden: Seq<Seq<char>>,
)
    requires
        check.headings == Map::<Seq<char>, Set<Seq<char>>>::empty(),
    ensures
        with_documents(check, documents, forbidden).headings == anchors(documents),
        with_documents(check, documents, forbidden).notes == check.notes + flat(
            documents,
            |document: DocumentView| document_notes(document, forbidden),
        ),
    decreases documents.len(),
{
    let f = |document: DocumentView| document_notes(document, forbidden);
    if documents.len() == 0 {
        assert(check.notes + flat(documents, f) =~= check.notes);
    } else {
        let last = documents.last();
        let rest = with_documents(check, documents.drop_last(), forbidden);
        documents_are_noted(check, documents.drop_last(), forbidden);
        links_are_noted(rest.with_document(last.name, last.text, forbidden), last.links);
        assert(with_documents(check, documents, forbidden).notes =~= check.notes + flat(
            documents,
            f,
        ));
    }
}

proof fn anchors_of_each(documents: Seq<DocumentView>)
    requires
        named_apart(documents),
    ensures
        forall|name: Seq<char>| #[trigger]
            anchors(documents).contains_key(name) <==> exists|i: int|
                0 <= i < documents.len() && (#[trigger] documents[i]).name == name,
        forall|i: int|
            0 <= i < documents.len() ==> anchors(documents)[(#[trigger] documents[i]).name]
                == headings_of(documents[i].text),
    decreases documents.len(),
{
    if documents.len() > 0 {
        let rest = documents.drop_last();
        assert forall|i: int, j: int| 0 <= i < j < rest.len() implies (#[trigger] rest[i]).name != (
        #[trigger] rest[j]).name by {
            assert(rest[i] == documents[i] && rest[j] == documents[j]);
        }
        anchors_of_each(rest);
        assert forall|name: Seq<char>| #[trigger]
            anchors(documents).contains_key(name) <==> exists|i: int|
                0 <= i < documents.len() && (#[trigger] documents[i]).name == name by {
            if exists|i: int| 0 <= i < documents.len() && (#[trigger] documents[i]).name == name {
                let i = choose|i: int|
                    0 <= i < documents.len() && (#[trigger] documents[i]).name == name;
                if i < rest.len() {
                    assert(rest[i].name == name);
                    assert(anchors(rest).contains_key(name));
                }
            }
            if anchors(documents).contains_key(name) {
                if name == documents.last().name {
                    assert(documents[documents.len() - 1].name == name);
                } else {
                    assert(anchors(rest).contains_key(name));
                    let i = choose|i: int| 0 <= i < rest.len() && (#[trigger] rest[i]).name == name;
                    assert(documents[i].name == name);
                }
            }
        }
        assert forall|i: int| 0 <= i < documents.len() implies anchors(documents)[(
        #[trigger] documents[i]).name] == headings_of(documents[i].text) by {
            if i < rest.len() {
                assert(rest[i] == documents[i]);
                assert(documents[i].name != documents[documents.len() - 1].name);
            }
        }
    }
}

/// Documents with their own names have them in any order.
proof fn named_apart_in_any_order(a: Seq<DocumentView>, b: Seq<DocumentView>)
    requires
        a.to_multiset() == b.to_multiset(),
        named_apart(a),
    ensures
        named_apart(b),
{
    assert(a.no_duplicates());
    a.lemma_multiset_has_no_duplicates();
    b.lemma_multiset_has_no_duplicates_conv();
    assert forall|i: int, j: int| 0 <= i < j < b.len() implies (#[trigger] b[i]).name != (
    #[trigger] b[j]).name by {
        assert(b[i] != b[j]);
        same_multiset_contains(b, a, b[i]);
        same_multiset_contains(b, a, b[j]);
        let k = a.index_of(b[i]);
        let l = a.index_of(b[j]);
        assert(a[k] == b[i] && a[l] == b[j]);
        if k < l {
            assert(a[k].name != a[l].name);
        } else {
            assert(a[l].name != a[k].name);
        }
    }
}

/// The order of documents does not change which anchors there are.
proof fn anchors_ignore_order(a: Seq<DocumentView>, b: Seq<DocumentView>)
    requires
        a.to_multiset() == b.to_multiset(),
        named_apart(a),
    ensures
        anchors(a) == anchors(b),
{
    named_apart_in_any_order(a, b);
    anchors_of_each(a);
    anchors_of_each(b);
    assert forall|name: Seq<char>| #[trigger]
        anchors(a).contains_key(name) == anchors(b).contains_key(name) && (anchors(
        a,
    ).contains_key(name) ==> anchors(a)[name] == anchors(b)[name]) by {
        if anchors(a).contains_key(name) {
            let i = choose|i: int| 0 <= i < a.len() && (#[trigger] a[i]).name == name;
            same_multiset_contains(a, b, a[i]);
            let j = b.index_of(a[i]);
            assert(b[j].name == name);
        }
        if anchors(b).contains_key(name) {
            let i = choose|i: int| 0 <= i < b.len() && (#[trigger] b[i]).name == name;
            same_multiset_contains(b, a, b[i]);
            let j = a.index_of(b[i]);
            assert(a[j].name == name);
        }
    }
    assert(anchors(a) =~= anchors(b));
}

/// The order in which documents are read does not decide what is wrong: the same links
/// and the same anchors are broken, and the errors differ in their order at most.
pub proof fn reading_order_is_irrelevant(
    check: DocsCheckView,
    a: Seq<DocumentView>,
    b: Seq<DocumentView>,
    forbidden: Seq<Seq<char>>,
)
    requires
        check.headings == Map::<Seq<char>, Set<Seq<char>>>::empty(),
        a.to_multiset() == b.to_multiset(),
        named_apart(a),
    ensures
        with_documents(check, a, forbidden).headings == with_documents(
            check,
            b,
            forbidden,
        ).headings,
        with_documents(check, a, forbidden).errors().to_multiset() == with_documents(
            check,
            b,
            forbidden,
        ).errors().to_multiset(),
{
    broadcast use vstd::seq_lib::group_to_multiset_ensures;

    let f = |document: DocumentView| document_notes(document, forbidden);
    documents_are_noted(check, a, forbidden);
    documents_are_noted(check, b, forbidden);
    anchors_ignore_order(a, b);
    flat_of_permutation(a, b, f);
    let left = check.notes + flat(a, f);
    let right = check.notes + flat(b, f);
    vstd::seq_lib::lemma_multiset_commutative(check.notes, flat(a, f));
    vstd::seq_lib::lemma_multiset_commutative(check.notes, flat(b, f));
    let g = |note: NoteView| note_errors(note, anchors(a));
    flat_of_permutation(left, right, g);
}

/// An anchor of a document that is there is never broken, whenever that document is read.
pub proof fn present_anchor_is_not_broken(
    check: DocsCheckView,
    documents: Seq<DocumentView>,
    forbidden: Seq<Seq<char>>,
    link: FoundLinkView,
    i: int,
)
    requires
        check.headings == Map::<Seq<char>, Set<Seq<char>>>::empty(),
        named_apart(documents),
        0 <= i < documents.len(),
        link.found,
        link.target_name == documents[i].name,
        link.link.anchor matches Some(anchor) ==> headings_of(documents[i].text).contains(
            slug_of(anchor),
        ),
    ensures
        link_errors(link, with_documents(check, documents, forbidden).headings) == Seq::<
            Seq<char>,
        >::empty(),
{
    documents_are_noted(check, documents, forbidden);
    anchors_of_each(documents);
    assert(documents[i].name == link.target_name);
    assert(link_errors(link, anchors(documents)) =~= seq![]);
}

/// A slug holds nothing but lower case letters, digits and hyphens.
pub proof fn slug_has_slug_characters(s: Seq<char>, i: int)
    requires
        0 <= i < slug_of(s).len(),
    ensures
        is_slug_char(slug_of(s)[i]) && slug_of(s)[i] != ' ',
{
    let whole = slug_chars(s);
    let p = |c: char| is_slug_char(c);
    let q = |c: char| is_slug_char(c) && c != ' ';
    kept(mapped(s, |c: char| lower(c)), p);
    assert(every(whole, p));
    let parts = pieces(whole, " "@);
    let found = words_of(whole);
    reveal_strlit(" ");
    assert(" "@ =~= seq![' ']);
    pieces_keep(whole, p);
    kept(parts, |word: Seq<char>| word.len() > 0);
    assert forall|k: int| 0 <= k < found.len() implies every(#[trigger] found[k], q) by {
        let at = parts.index_of(found[k]);
        assert(parts[at] == found[k]);
    }
    reveal_strlit("-");
    joined_keep(found, "-"@, q);
}

/// What holds of all characters of a text holds of those of the parts that spaces divide,
/// and there are no spaces in them.
proof fn pieces_keep(s: Seq<char>, p: spec_fn(char) -> bool)
    requires
        every(s, p),
        " "@ == seq![' '],
    ensures
        forall|k: int|
            0 <= k < pieces(s, " "@).len() ==> every(
                #[trigger] pieces(s, " "@)[k],
                |c: char| p(c) && c != ' ',
            ),
    decreases s.len(),
{
    let space = " "@;
    let q = |c: char| p(c) && c != ' ';
    let all = pieces(s, space);
    find_from_found(s, space, 0);
    match find_from(s, space, 0) {
        Some(i) => {
            let rest = s.subrange(i + 1, s.len() as int);
            assert forall|j: int| 0 <= j < rest.len() implies p(#[trigger] rest[j]) by {
                assert(rest[j] == s[j + i + 1]);
            }
            pieces_keep(rest, p);
            assert forall|k: int| 0 <= k < all.len() implies every(#[trigger] all[k], q) by {
                if k == 0 {
                    assert forall|j: int| 0 <= j < all[0].len() implies q(#[trigger] all[0][j]) by {
                        assert(all[0][j] == s[j]);
                        assert(!matches_at(s, space, j));
                        if s[j] == ' ' {
                            assert(s.subrange(j, j + 1) =~= space);
                        }
                    }
                } else {
                    assert(all[k] == pieces(rest, space)[k - 1]);
                }
            }
        },
        None => {
            assert forall|j: int| 0 <= j < s.len() implies q(#[trigger] s[j]) by {
                assert(!matches_at(s, space, j));
                if s[j] == ' ' {
                    assert(s.subrange(j, j + 1) =~= space);
                }
            }
        },
    }
}

/// What holds of all characters of some texts and of what joins them holds of the whole.
proof fn joined_keep(parts: Seq<Seq<char>>, separator: Seq<char>, p: spec_fn(char) -> bool)
    requires
        forall|k: int| 0 <= k < parts.len() ==> every(#[trigger] parts[k], p),
        every(separator, p),
    ensures
        every(joined(parts, separator), p),
    decreases parts.len(),
{
    if parts.len() > 1 {
        joined_keep(parts.drop_last(), separator, p);
    } else if parts.len() == 1 {
        assert(every(parts[0], p));
    }
}

} // verus!
