//! Notes: their summaries, wikilink resolution, backlinks and mentions.
use vstd::prelude::*;

use crate::context::Context;
use crate::error::CoreError;
use crate::lines::{trim, trim_bounds};
use crate::moment::Moment;
use crate::order::{lex_less, lex_lt, lemma_lex_asymmetric, lemma_lex_total, lemma_lex_transitive};
use crate::paths::{notes_dir, notes_dir_of};
use crate::text::{chars_of, find_match, first_match, lowercase_chars, lowercase_seq, slice_range, string_of, window_matches};
use crate::title::{extract_title, title_of};
use crate::validated::{is_valid_note_filename, NoteFilename};
use crate::wikilink::{extract_wikilinks, string_seqs, wikilinks_of};

verus! {

/// Characters of a note body kept as its preview.
pub const PREVIEW_CHARS: usize = 100;

/// The frontmatter of a note.
pub struct NoteFrontmatter {
    pub time: Moment,
    pub tags: Vec<String>,
    pub context: Option<Context>,
}

/// What the note list shows of one note.
pub struct NoteSummary {
    pub path: String,
    pub filename: String,
    pub time: Option<Moment>,
    pub tags: Vec<String>,
    pub preview: String,
    pub title: String,
}

/// The plain-value form of a note summary.
pub struct NoteSummaryView {
    pub path: Seq<char>,
    pub filename: Seq<char>,
    pub time: Option<Moment>,
    pub tags: Seq<String>,
    pub preview: Seq<char>,
    pub title: Seq<char>,
}

impl View for NoteSummary {
    type V = NoteSummaryView;

    open spec fn view(&self) -> NoteSummaryView {
        NoteSummaryView {
            path: self.path@,
            filename: self.filename@,
            time: self.time,
            tags: self.tags@,
            preview: self.preview@,
            title: self.title@,
        }
    }
}

/// The plain-value forms of a list of summaries.
pub open spec fn summary_views(notes: Seq<NoteSummary>) -> Seq<NoteSummaryView> {
    notes.map_values(|n: NoteSummary| n@)
}

/// The body of a note file: the text after its frontmatter when the
/// frontmatter parsed, the whole file otherwise.
pub open spec fn note_body(content: Seq<char>, parsed: Option<(NoteFrontmatter, String)>) -> Seq<char> {
    match parsed {
        Some((_, body)) => body@,
        None => content,
    }
}

/// At most the first `PREVIEW_CHARS` characters of `s`.
pub open spec fn preview_of(s: Seq<char>) -> Seq<char> {
    if s.len() <= PREVIEW_CHARS { s } else { s.take(PREVIEW_CHARS as int) }
}

/// The title shown for a body: its title, or empty text when it has none.
pub open spec fn shown_title(body: Seq<char>) -> Seq<char> {
    match title_of(body) {
        Some(t) => t,
        None => Seq::<char>::empty(),
    }
}

pub fn clone_strings(v: &Vec<String>) -> (res: Vec<String>)
    ensures
        res@ == v@,
{
    let mut res: Vec<String> = Vec::new();
    let mut i: usize = 0;
    while i < v.len()
        invariant
            i <= v.len(),
            res@ == v@.take(i as int),
        decreases v.len() - i,
    {
        res.push(v[i].clone());
        assert(v@.take(i + 1) == v@.take(i as int).push(v@[i as int]));
        i += 1;
    }
    assert(v@.take(v.len() as int) == v@);
    res
}

impl NoteSummary {
    /// Builds the summary of one note file. `parsed` is the file's parsed
    /// frontmatter and the body after it, or none when it did not parse.
    pub fn from_file(
        path: String,
        filename: String,
        content: &str,
        parsed: Option<(NoteFrontmatter, String)>,
    ) -> (res: NoteSummary)
        ensures
            res.path == path,
            res.filename == filename,
            res.time == (match parsed {
                Some((fm, _)) => Some(fm.time),
                None => None::<Moment>,
            }),
            res.tags@ == (match parsed {
                Some((fm, _)) => fm.tags@,
                None => Seq::<String>::empty(),
            }),
            res.preview@ == preview_of(note_body(content@, parsed)),
            res.title@ == shown_title(note_body(content@, parsed)),
    {
        let ghost whole = parsed;
        let (time, tags, body) = match parsed {
            Some((fm, body)) => (Some(fm.time), fm.tags, body),
            None => (None, Vec::new(), String::from_str(content)),
        };
        assert(body@ == note_body(content@, whole));
        let chars = chars_of(body.as_str());
        let n = if chars.len() <= PREVIEW_CHARS { chars.len() } else { PREVIEW_CHARS };
        let p = slice_range(&chars, 0, n);
        assert(chars@.subrange(0, chars@.len() as int) =~= chars@);
        let preview = string_of(&p);
        let title = match extract_title(body.as_str()) {
            Some(t) => t,
            None => String::new(),
        };
        NoteSummary { path, filename, time, tags, preview, title }
    }

    /// A field-by-field copy.
    pub fn duplicate(&self) -> (res: NoteSummary)
        ensures
            res@ == self@,
    {
        NoteSummary {
            path: self.path.clone(),
            filename: self.filename.clone(),
            time: self.time,
            tags: clone_strings(&self.tags),
            preview: self.preview.clone(),
            title: self.title.clone(),
        }
    }
}

/// The smallest filename, in string order, among the notes titled exactly
/// `t`.
pub open spec fn min_titled(notes: Seq<NoteSummary>, t: Seq<char>) -> Option<Seq<char>>
    decreases notes.len(),
{
    if notes.len() == 0 {
        None
    } else {
        let rest = min_titled(notes.drop_last(), t);
        let n = notes.last();
        if n.title@ == t {
            match rest {
                None => Some(n.filename@),
                Some(f) => if lex_lt(n.filename@, f) { Some(n.filename@) } else { Some(f) },
            }
        } else {
            rest
        }
    }
}

/// The note a wikilink title resolves to: the trimmed title must match a
/// note title exactly; among several, the smallest (oldest) filename wins.
/// An empty title resolves to nothing.
pub open spec fn resolve_title(notes: Seq<NoteSummary>, title: Seq<char>) -> Option<Seq<char>> {
    let t = trim(title);
    if t.len() == 0 {
        None
    } else {
        min_titled(notes, t)
    }
}

/// What `min_titled` gives: a filename of a note with that title, no larger
/// than that of any other; none when no note has the title.
pub proof fn lemma_min_titled(notes: Seq<NoteSummary>, t: Seq<char>)
    ensures
        match min_titled(notes, t) {
            Some(f) => {
                &&& exists|i: int| 0 <= i < notes.len() && notes[i].title@ == t && notes[i].filename@ == f
                &&& forall|i: int| 0 <= i < notes.len() && notes[i].title@ == t ==> !lex_lt(notes[i].filename@, f)
            },
            None => forall|i: int| 0 <= i < notes.len() ==> notes[i].title@ != t,
        },
    decreases notes.len(),
{
    if notes.len() > 0 {
        let init = notes.drop_last();
        lemma_min_titled(init, t);
        let n = notes.last();
        let last = notes.len() - 1;
        assert forall|i: int| 0 <= i < init.len() implies notes[i] == init[i] by {}
        match min_titled(init, t) {
            None => {
                if n.title@ == t {
                    crate::order::lemma_lex_irreflexive(n.filename@);
                    assert(notes[last].title@ == t && notes[last].filename@ == n.filename@);
                }
            },
            Some(f) => {
                let i0 = choose|i: int| 0 <= i < init.len() && init[i].title@ == t && init[i].filename@ == f;
                assert(notes[i0] == init[i0]);
                if n.title@ == t {
                    if lex_lt(n.filename@, f) {
                        assert forall|i: int| 0 <= i < notes.len() && notes[i].title@ == t implies !lex_lt(notes[i].filename@, n.filename@) by {
                            if i < last {
                                assert(!lex_lt(init[i].filename@, f));
                                if lex_lt(notes[i].filename@, n.filename@) {
                                    lemma_lex_transitive(notes[i].filename@, n.filename@, f);
                                }
                            } else {
                                crate::order::lemma_lex_irreflexive(n.filename@);
                            }
                        }
                        assert(notes[last].title@ == t && notes[last].filename@ == n.filename@);
                    } else {
                        assert forall|i: int| 0 <= i < notes.len() && notes[i].title@ == t implies !lex_lt(notes[i].filename@, f) by {
                            if i < last {
                                assert(!lex_lt(init[i].filename@, f));
                            }
                        }
                    }
                }
            },
        }
    }
}

/// Resolves a wikilink title against a loaded note list: exact title match
/// after trimming; when several notes share the title, the oldest (smallest
/// filename) wins so existing links stay stable as notes are added.
pub fn resolve(notes: &[NoteSummary], title: &str) -> (res: Option<String>)
    ensures
        match res {
            Some(f) => resolve_title(notes@, title@) == Some(f@),
            None => resolve_title(notes@, title@) is None,
        },
{
    let c = chars_of(title);
    let (a, b) = trim_bounds(&c, 0, c.len());
    assert(c@.subrange(0, c@.len() as int) =~= c@);
    if a == b {
        return None;
    }
    let tc = slice_range(&c, a, b);
    let t = string_of(&tc);
    let ghost tv = t@;
    let mut best: Option<usize> = None;
    let mut i: usize = 0;
    while i < notes.len()
        invariant
            i <= notes.len(),
            t@ == tv,
            match best {
                Some(k) => k < notes.len() && min_titled(notes@.take(i as int), tv) == Some(
                    notes@[k as int].filename@,
                ),
                None => min_titled(notes@.take(i as int), tv) is None,
            },
        decreases notes.len() - i,
    {
        proof {
            assert(notes@.take(i + 1).drop_last() =~= notes@.take(i as int));
            assert(notes@.take(i + 1).last() == notes@[i as int]);
        }
        if notes[i].title == t {
            match best {
                None => {
                    best = Some(i);
                },
                Some(k) => {
                    if lex_less(notes[i].filename.as_str(), notes[k].filename.as_str()) {
                        best = Some(i);
                    }
                },
            }
        }
        i += 1;
    }
    assert(notes@.take(notes.len() as int) =~= notes@);
    match best {
        Some(k) => Some(notes[k].filename.clone()),
        None => None,
    }
}

/// Whether a body holds a wikilink that resolves to `target`.
pub open spec fn links_to(notes: Seq<NoteSummary>, body: Seq<char>, target: Seq<char>) -> bool {
    exists|j: int|
        0 <= j < wikilinks_of(body).len() && #[trigger] resolve_title(notes, wikilinks_of(body)[j])
            == Some(target)
}

/// Whether note `i` has a filename that fails the note filename check
/// (the target itself is never checked).
pub open spec fn bad_filename(notes: Seq<NoteSummary>, i: int, target: Seq<char>) -> bool {
    notes[i].filename@ != target && !is_valid_note_filename(notes[i].filename@)
}

/// Whether note `i` links to the target: it is another note, its body
/// could be read, and one of its wikilinks resolves to the target.
pub open spec fn is_backlink(notes: Seq<NoteSummary>, bodies: Seq<Option<String>>, i: int, target: Seq<char>) -> bool {
    &&& notes[i].filename@ != target
    &&& bodies[i] is Some
    &&& links_to(notes, bodies[i]->0@, target)
}

/// The notes among the first `n` that link to the target, in list order.
pub open spec fn backlinks_upto(notes: Seq<NoteSummary>, bodies: Seq<Option<String>>, target: Seq<char>, n: int) -> Seq<NoteSummaryView>
    decreases n,
{
    if n <= 0 {
        Seq::<NoteSummaryView>::empty()
    } else {
        let prev = backlinks_upto(notes, bodies, target, n - 1);
        if is_backlink(notes, bodies, n - 1, target) {
            prev.push(notes[n - 1]@)
        } else {
            prev
        }
    }
}

fn links_to_target(notes: &[NoteSummary], body: &str, target: &NoteFilename) -> (res: bool)
    ensures
        res == links_to(notes@, body@, target@),
{
    let links = extract_wikilinks(body);
    let mut j: usize = 0;
    while j < links.len()
        invariant
            j <= links.len(),
            string_seqs(links@) == wikilinks_of(body@),
            forall|m: int| 0 <= m < j ==> resolve_title(notes@, #[trigger] wikilinks_of(body@)[m]) != Some(target@),
        decreases links.len() - j,
    {
        assert(links@[j as int]@ == wikilinks_of(body@)[j as int]);
        match resolve(notes, links[j].as_str()) {
            Some(f) => {
                let ts = target.display();
                if f == ts {
                    return true;
                }
            },
            None => {},
        }
        j += 1;
    }
    false
}

/// The first note (other than the target) whose filename fails the check.
fn first_bad(notes: &[NoteSummary], target: &NoteFilename) -> (res: Option<usize>)
    ensures
        match res {
            Some(i) => i < notes.len() && bad_filename(notes@, i as int, target@) && forall|j: int|
                0 <= j < i ==> !bad_filename(notes@, j, target@),
            None => forall|j: int| 0 <= j < notes.len() ==> !bad_filename(notes@, j, target@),
        },
{
    let ts = target.display();
    let mut i: usize = 0;
    while i < notes.len()
        invariant
            i <= notes.len(),
            ts@ == target@,
            forall|j: int| 0 <= j < i ==> !bad_filename(notes@, j, target@),
        decreases notes.len() - i,
    {
        if notes[i].filename != ts {
            match NoteFilename::parse(notes[i].filename.as_str()) {
                Ok(_) => {},
                Err(_) => {
                    return Some(i);
                },
            }
        }
        i += 1;
    }
    None
}

/// Lists the notes holding a wikilink that resolves to `target`, in list
/// order, the target itself excluded. `bodies[i]` is the body of note `i`,
/// or none when it could not be read (such notes are skipped). A listed
/// filename that fails the note filename check is refused.
pub fn backlinks_in(
    notes: &[NoteSummary],
    bodies: &[Option<String>],
    target: &NoteFilename,
) -> (res: Result<Vec<NoteSummary>, CoreError>)
    requires
        bodies.len() == notes.len(),
    ensures
        match res {
            Ok(v) => (forall|j: int| 0 <= j < notes.len() ==> !bad_filename(notes@, j, target@))
                && summary_views(v@) == backlinks_upto(notes@, bodies@, target@, notes.len() as int),
            Err(e) => exists|i: int|
                0 <= i < notes.len() && bad_filename(notes@, i, target@) && (forall|j: int|
                    0 <= j < i ==> !bad_filename(notes@, j, target@)) && e == CoreError::PathTraversal(
                    e->PathTraversal_0,
                ) && e->PathTraversal_0@ == notes@[i].filename@,
        },
{
    if let Some(i) = first_bad(notes, target) {
        return Err(CoreError::PathTraversal(notes[i].filename.clone()));
    }
    let ts = target.display();
    let mut result: Vec<NoteSummary> = Vec::new();
    assert(summary_views(result@) =~= Seq::<NoteSummaryView>::empty());
    let mut i: usize = 0;
    while i < notes.len()
        invariant
            i <= notes.len(),
            bodies.len() == notes.len(),
            ts@ == target@,
            summary_views(result@) == backlinks_upto(notes@, bodies@, target@, i as int),
        decreases notes.len() - i,
    {
        let ghost before = result@;
        if notes[i].filename != ts {
            match &bodies[i] {
                Some(body) => {
                    if links_to_target(notes, body.as_str(), target) {
                        result.push(notes[i].duplicate());
                        assert(summary_views(result@) =~= summary_views(before).push(notes@[i as int]@));
                    }
                },
                None => {},
            }
        }
        i += 1;
    }
    Ok(result)
}

/// Whether `body` holds, case-insensitively, the text whose lowercase form
/// is `query`.
pub open spec fn holds_text(body: Seq<char>, query: Seq<char>) -> bool {
    query.len() > 0 && exists|j: int| window_matches(body, query, j)
}

/// The first note with the given filename.
pub open spec fn first_named(notes: Seq<NoteSummary>, target: Seq<char>) -> Option<int>
    decreases notes.len(),
{
    if notes.len() == 0 {
        None
    } else {
        match first_named(notes.drop_last(), target) {
            Some(i) => Some(i),
            None => if notes.last().filename@ == target { Some(notes.len() - 1) } else { None },
        }
    }
}

proof fn lemma_first_named(notes: Seq<NoteSummary>, target: Seq<char>)
    ensures
        match first_named(notes, target) {
            Some(i) => 0 <= i < notes.len() && notes[i].filename@ == target && forall|j: int|
                0 <= j < i ==> notes[j].filename@ != target,
            None => forall|j: int| 0 <= j < notes.len() ==> notes[j].filename@ != target,
        },
    decreases notes.len(),
{
    if notes.len() > 0 {
        lemma_first_named(notes.drop_last(), target);
        assert forall|j: int| 0 <= j < notes.len() - 1 implies notes.drop_last()[j] == notes[j] by {}
    }
}

/// Whether note `i` mentions the target title in plain text: it is another
/// note, its body could be read, it does not already wikilink to the
/// target, and its body holds the title case-insensitively.
pub open spec fn is_mention(notes: Seq<NoteSummary>, bodies: Seq<Option<String>>, i: int, target: Seq<char>, query: Seq<char>) -> bool {
    &&& notes[i].filename@ != target
    &&& bodies[i] is Some
    &&& !links_to(notes, bodies[i]->0@, target)
    &&& holds_text(bodies[i]->0@, query)
}

/// The notes among the first `n` that mention the target, in list order.
pub open spec fn mentions_upto(notes: Seq<NoteSummary>, bodies: Seq<Option<String>>, target: Seq<char>, query: Seq<char>, n: int) -> Seq<NoteSummaryView>
    decreases n,
{
    if n <= 0 {
        Seq::<NoteSummaryView>::empty()
    } else {
        let prev = mentions_upto(notes, bodies, target, query, n - 1);
        if is_mention(notes, bodies, n - 1, target, query) {
            prev.push(notes[n - 1]@)
        } else {
            prev
        }
    }
}

/// The lowercase form of the trimmed title of the target note, when the
/// target is listed and its trimmed title is not empty.
pub open spec fn mention_query(notes: Seq<NoteSummary>, target: Seq<char>) -> Option<Seq<char>> {
    match first_named(notes, target) {
        None => None,
        Some(i) => if trim(notes[i].title@).len() == 0 {
            None
        } else {
            Some(lowercase_seq(trim(notes[i].title@)))
        },
    }
}

fn find_named(notes: &[NoteSummary], ts: &String) -> (res: Option<usize>)
    ensures
        match res {
            Some(k) => first_named(notes@, ts@) == Some(k as int) && k < notes.len(),
            None => first_named(notes@, ts@) is None,
        },
{
    let mut k: usize = 0;
    while k < notes.len()
        invariant
            k <= notes.len(),
            first_named(notes@.take(k as int), ts@) is None,
        decreases notes.len() - k,
    {
        proof {
            assert(notes@.take(k + 1).drop_last() =~= notes@.take(k as int));
        }
        if notes[k].filename == *ts {
            proof {
                lemma_first_named(notes@, ts@);
                lemma_first_named(notes@.take(k as int), ts@);
                let c = first_named(notes@, ts@)->0;
                assert(c == k) by {
                    if c < k {
                        assert(notes@.take(k as int)[c] == notes@[c]);
                    }
                }
            }
            return Some(k);
        }
        k += 1;
    }
    assert(notes@.take(notes.len() as int) =~= notes@);
    None
}

fn query_for(notes: &[NoteSummary], target: &NoteFilename) -> (res: Option<Vec<char>>)
    ensures
        match res {
            Some(q) => mention_query(notes@, target@) == Some(q@),
            None => mention_query(notes@, target@) is None,
        },
{
    let ts = target.display();
    let k = match find_named(notes, &ts) {
        Some(k) => k,
        None => {
            return None;
        },
    };
    let tc = chars_of(notes[k].title.as_str());
    let (a, b) = trim_bounds(&tc, 0, tc.len());
    assert(tc@.subrange(0, tc@.len() as int) =~= tc@);
    if a == b {
        return None;
    }
    let trimmed = slice_range(&tc, a, b);
    let title = string_of(&trimmed);
    Some(lowercase_chars(title.as_str()))
}

fn mentions_among(
    notes: &[NoteSummary],
    bodies: &[Option<String>],
    target: &NoteFilename,
    query: &Vec<char>,
) -> (res: Vec<NoteSummary>)
    requires
        bodies.len() == notes.len(),
    ensures
        summary_views(res@) == mentions_upto(notes@, bodies@, target@, query@, notes.len() as int),
{
    let ts = target.display();
    let mut result: Vec<NoteSummary> = Vec::new();
    assert(summary_views(result@) =~= Seq::<NoteSummaryView>::empty());
    let mut i: usize = 0;
    while i < notes.len()
        invariant
            i <= notes.len(),
            bodies.len() == notes.len(),
            ts@ == target@,
            summary_views(result@) == mentions_upto(notes@, bodies@, target@, query@, i as int),
        decreases notes.len() - i,
    {
        let ghost before = result@;
        if notes[i].filename != ts {
            match &bodies[i] {
                Some(body) => {
                    if !links_to_target(notes, body.as_str(), target) {
                        let bc = chars_of(body.as_str());
                        let found = find_match(&bc, query);
                        if found.is_some() {
                            result.push(notes[i].duplicate());
                            assert(summary_views(result@) =~= summary_views(before).push(
                                notes@[i as int]@,
                            ));
                        }
                    }
                },
                None => {},
            }
        }
        i += 1;
    }
    result
}

/// Lists notes that mention the target note's title in plain text without
/// wikilinking to it. Notes that already wikilink to the target are
/// excluded (they are backlinks), as is the target itself. Matching is
/// case-insensitive. Nothing is listed when the target is not in the list
/// or has no title; otherwise a listed filename that fails the note
/// filename check is refused.
pub fn mentions_in(
    notes: &[NoteSummary],
    bodies: &[Option<String>],
    target: &NoteFilename,
) -> (res: Result<Vec<NoteSummary>, CoreError>)
    requires
        bodies.len() == notes.len(),
    ensures
        match mention_query(notes@, target@) {
            None => res is Ok && res->Ok_0@.len() == 0,
            Some(q) => match res {
                Ok(v) => (forall|j: int| 0 <= j < notes.len() ==> !bad_filename(notes@, j, target@))
                    && summary_views(v@) == mentions_upto(notes@, bodies@, target@, q, notes.len() as int),
                Err(e) => exists|i: int|
                    0 <= i < notes.len() && bad_filename(notes@, i, target@) && (forall|j: int|
                        0 <= j < i ==> !bad_filename(notes@, j, target@)) && e
                        == CoreError::PathTraversal(e->PathTraversal_0) && e->PathTraversal_0@
                        == notes@[i].filename@,
            },
        },
{
    let query = match query_for(notes, target) {
        Some(q) => q,
        None => {
            return Ok(Vec::new());
        },
    };
    if let Some(i) = first_bad(notes, target) {
        return Err(CoreError::PathTraversal(notes[i].filename.clone()));
    }
    Ok(mentions_among(notes, bodies, target, &query))
}

/// Links stay stable as notes are added: a new note whose filename sorts
/// after the note a title resolves to (a newer note) does not change where
/// the title resolves.
pub proof fn law_resolution_stable(notes: Seq<NoteSummary>, n: NoteSummary, title: Seq<char>)
    requires
        resolve_title(notes, title) matches Some(f) && lex_lt(f, n.filename@),
    ensures
        resolve_title(notes.push(n), title) == resolve_title(notes, title),
{
    let t = trim(title);
    assert(notes.push(n).drop_last() =~= notes);
    let f = resolve_title(notes, title)->0;
    if n.title@ == t {
        lemma_lex_asymmetric(f, n.filename@);
    }
}

/// A note is never both a backlink and a mention of the same target:
/// mentions leave out the notes that already link to it.
pub proof fn law_mentions_are_not_backlinks(
    notes: Seq<NoteSummary>,
    bodies: Seq<Option<String>>,
    i: int,
    target: Seq<char>,
    query: Seq<char>,
)
    ensures
        !(is_backlink(notes, bodies, i, target) && is_mention(notes, bodies, i, target, query)),
{
}

proof fn lemma_backlinks_from(notes: Seq<NoteSummary>, bodies: Seq<Option<String>>, target: Seq<char>, n: int)
    requires
        n <= notes.len(),
    ensures
        forall|k: int| 0 <= k < backlinks_upto(notes, bodies, target, n).len() ==> exists|i: int|
            0 <= i < n && is_backlink(notes, bodies, i, target) && #[trigger] backlinks_upto(notes, bodies, target, n)[k]
                == notes[i]@,
    decreases n,
{
    if n > 0 {
        lemma_backlinks_from(notes, bodies, target, n - 1);
        let prev = backlinks_upto(notes, bodies, target, n - 1);
        let cur = backlinks_upto(notes, bodies, target, n);
        assert forall|k: int| 0 <= k < cur.len() implies exists|i: int|
            0 <= i < n && is_backlink(notes, bodies, i, target) && #[trigger] cur[k] == notes[i]@ by {
            if k < prev.len() {
                assert(cur[k] == prev[k]);
            } else {
                assert(cur[k] == notes[n - 1]@);
            }
        }
    }
}

/// Whether `v` is the view of a note among the first `n` that mentions
/// the target.
pub open spec fn is_mention_view(notes: Seq<NoteSummary>, bodies: Seq<Option<String>>, target: Seq<char>, query: Seq<char>, n: int, v: NoteSummaryView) -> bool {
    exists|i: int| 0 <= i < n && is_mention(notes, bodies, i, target, query) && v == #[trigger] notes[i]@
}

proof fn lemma_mentions_from(notes: Seq<NoteSummary>, bodies: Seq<Option<String>>, target: Seq<char>, query: Seq<char>, n: int)
    requires
        n <= notes.len(),
    ensures
        forall|k: int| 0 <= k < mentions_upto(notes, bodies, target, query, n).len() ==> is_mention_view(
            notes,
            bodies,
            target,
            query,
            n,
            #[trigger] mentions_upto(notes, bodies, target, query, n)[k],
        ),
    decreases n,
{
    if n > 0 {
        lemma_mentions_from(notes, bodies, target, query, n - 1);
        let prev = mentions_upto(notes, bodies, target, query, n - 1);
        let cur = mentions_upto(notes, bodies, target, query, n);
        assert forall|k: int| 0 <= k < cur.len() implies is_mention_view(notes, bodies, target, query, n, #[trigger] cur[k]) by {
            if k < prev.len() {
                assert(cur[k] == prev[k]);
                assert(is_mention_view(notes, bodies, target, query, n - 1, prev[k]));
                let i = choose|i: int| 0 <= i < n - 1 && is_mention(notes, bodies, i, target, query) && prev[k] == #[trigger] notes[i]@;
                assert(0 <= i < n && is_mention(notes, bodies, i, target, query) && cur[k] == notes[i]@);
            } else {
                assert(cur[k] == notes[n - 1]@);
            }
        }
    }
}

/// Whether no two listed notes share a filename.
pub open spec fn filenames_unique(notes: Seq<NoteSummary>) -> bool {
    forall|i: int, j: int| 0 <= i < j < notes.len() ==> notes[i].filename@ != notes[j].filename@
}

/// Mentions and backlinks of a note never overlap: over the same listing
/// (no filename twice) and the same bodies, no filename is both among the
/// backlinks and among the mentions, and the target note is in neither.
pub proof fn law_mentions_and_backlinks_disjoint(
    notes: Seq<NoteSummary>,
    bodies: Seq<Option<String>>,
    target: Seq<char>,
    query: Seq<char>,
)
    requires
        filenames_unique(notes),
    ensures
        forall|a: int, b: int|
            0 <= a < mentions_upto(notes, bodies, target, query, notes.len() as int).len() && 0 <= b
                < backlinks_upto(notes, bodies, target, notes.len() as int).len() ==> #[trigger] mentions_upto(
                notes,
                bodies,
                target,
                query,
                notes.len() as int,
            )[a].filename != #[trigger] backlinks_upto(notes, bodies, target, notes.len() as int)[b].filename,
        forall|a: int|
            0 <= a < mentions_upto(notes, bodies, target, query, notes.len() as int).len() ==> #[trigger] mentions_upto(
                notes,
                bodies,
                target,
                query,
                notes.len() as int,
            )[a].filename != target,
        forall|b: int|
            0 <= b < backlinks_upto(notes, bodies, target, notes.len() as int).len() ==> #[trigger] backlinks_upto(
                notes,
                bodies,
                target,
                notes.len() as int,
            )[b].filename != target,
{
    let n = notes.len() as int;
    let m = mentions_upto(notes, bodies, target, query, n);
    let bl = backlinks_upto(notes, bodies, target, n);
    lemma_mentions_from(notes, bodies, target, query, n);
    lemma_backlinks_from(notes, bodies, target, n);
    assert forall|a: int, b: int| 0 <= a < m.len() && 0 <= b < bl.len() implies #[trigger] m[a].filename
        != #[trigger] bl[b].filename by {
        assert(is_mention_view(notes, bodies, target, query, n, m[a]));
        let i = choose|i: int| 0 <= i < n && is_mention(notes, bodies, i, target, query) && m[a] == #[trigger] notes[i]@;
        let j = choose|j: int| 0 <= j < n && is_backlink(notes, bodies, j, target) && #[trigger] bl[b] == notes[j]@;
        if i == j {
            law_mentions_are_not_backlinks(notes, bodies, i, target, query);
        } else if i < j {
            assert(notes[i].filename@ != notes[j].filename@);
        } else {
            assert(notes[j].filename@ != notes[i].filename@);
        }
    }
    assert forall|a: int| 0 <= a < m.len() implies #[trigger] m[a].filename != target by {
        assert(is_mention_view(notes, bodies, target, query, n, m[a]));
        let i = choose|i: int| 0 <= i < n && is_mention(notes, bodies, i, target, query) && m[a] == #[trigger] notes[i]@;
    }
    assert forall|b: int| 0 <= b < bl.len() implies #[trigger] bl[b].filename != target by {
        let j = choose|j: int| 0 <= j < n && is_backlink(notes, bodies, j, target) && #[trigger] bl[b] == notes[j]@;
    }
}

/// A Markdown document with frontmatter: the YAML text between `---`
/// lines, then the body.
pub open spec fn framed(yaml: Seq<char>, body: Seq<char>) -> Seq<char> {
    "---\n"@ + yaml + "---\n"@ + body
}

/// Frames a body with its frontmatter, given as YAML text (which ends with
/// a newline, as serde_yaml writes it).
pub fn render(yaml: &str, body: &str) -> (res: String)
    ensures
        res@ == framed(yaml@, body@),
{
    proof {
        reveal_strlit("---\n");
    }
    let mut out = String::from_str("---\n");
    out.append(yaml);
    out.append("---\n");
    out.append(body);
    out
}

/// The frontmatter of a note saved at `now` with these tags, from a device
/// in this context.
pub fn note_frontmatter(tags: &Vec<String>, now: Moment, context: &Context) -> (res: NoteFrontmatter)
    ensures
        res.time == now,
        res.tags@ == tags@,
        res.context == Some(*context),
{
    NoteFrontmatter { time: now, tags: clone_strings(tags), context: Some(*context) }
}

/// The notes of one base directory.
pub struct Notes {
    base_dir: String,
}

impl Notes {
    /// The notes kept under `base_dir`.
    pub fn new(base_dir: String) -> (res: Notes)
        ensures
            res.base_dir() == base_dir@,
    {
        Notes { base_dir }
    }

    /// The base directory.
    pub closed spec fn base_dir(&self) -> Seq<char> {
        self.base_dir@
    }

    /// The directory holding the notes: `<base>/data/notes`.
    pub fn notes_dir(&self) -> (res: String)
        ensures
            res@ == notes_dir_of(self.base_dir()),
    {
        notes_dir(self.base_dir.as_str())
    }
}

} // verus!
