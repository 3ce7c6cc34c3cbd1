//! Case-insensitive full-text search over note bodies.
use vstd::prelude::*;

use crate::text::{chars_of, find_match, lemma_first_match_is_match_from, make_snippet, match_from, snippet};
use crate::timeline::{prepare_query, search_query};
use crate::title::{extract_title, title_of};

verus! {

/// A note to search: its file name and its body (frontmatter removed).
pub struct NoteText {
    pub filename: String,
    pub body: String,
}

/// A search hit: the note's file name, its title (empty when it has none)
/// and a snippet of its body around the match.
pub struct SearchHit {
    pub filename: String,
    pub title: String,
    pub snippet: String,
}

/// The file name, title and snippet of a hit.
pub open spec fn search_hit_view(h: SearchHit) -> (Seq<char>, Seq<char>, Seq<char>) {
    (h.filename@, h.title@, h.snippet@)
}

/// The title of a body, empty when it has none.
pub open spec fn title_or_empty(body: Seq<char>) -> Seq<char> {
    match title_of(body) {
        Some(t) => t,
        None => Seq::empty(),
    }
}

/// The hit a note gives for the lowercased query, if its body matches.
pub open spec fn note_hit(note: NoteText, query: Seq<char>) -> Option<(Seq<char>, Seq<char>, Seq<char>)> {
    match match_from(note.body@, query, 0) {
        Some(i) => Some((note.filename@, title_or_empty(note.body@), snippet(note.body@, i, query.len() as int))),
        None => None,
    }
}

/// The hits among the first `n` notes, in list order.
pub open spec fn note_hits(notes: Seq<NoteText>, query: Seq<char>, n: int) -> Seq<(Seq<char>, Seq<char>, Seq<char>)>
    decreases n,
{
    if n <= 0 {
        Seq::empty()
    } else {
        match note_hit(notes[n - 1], query) {
            Some(h) => note_hits(notes, query, n - 1).push(h),
            None => note_hits(notes, query, n - 1),
        }
    }
}

fn copy_string(s: &String) -> (res: String)
    ensures
        res@ == s@,
{
    String::from_str(s.as_str())
}

/// Case-insensitive substring search over note bodies (titles are part of
/// the body, so they match too). Hits keep the order of the notes given
/// (the listing order, newest first). A blank query finds nothing.
pub fn search(notes: &[NoteText], query: &str) -> (res: Vec<SearchHit>)
    ensures
        match search_query(query@) {
            None => res@.len() == 0,
            Some(q) => res@.map_values(|h: SearchHit| search_hit_view(h)) == note_hits(
                notes@,
                q,
                notes@.len() as int,
            ),
        },
{
    let q = match prepare_query(query) {
        Some(q) => q,
        None => {
            return Vec::new();
        },
    };
    let mut hits: Vec<SearchHit> = Vec::new();
    let mut i: usize = 0;
    assert(hits@.map_values(|h: SearchHit| search_hit_view(h)) =~= note_hits(notes@, q@, 0));
    while i < notes.len()
        invariant
            i <= notes.len(),
            hits@.map_values(|h: SearchHit| search_hit_view(h)) == note_hits(notes@, q@, i as int),
        decreases notes.len() - i,
    {
        let ghost before = hits@;
        let note = &notes[i];
        let body = chars_of(note.body.as_str());
        let found = find_match(&body, &q);
        proof {
            lemma_first_match_is_match_from(body@, q@, found);
        }
        match found {
            Some(at) => {
                let title = match extract_title(note.body.as_str()) {
                    Some(t) => t,
                    None => String::new(),
                };
                let snip = make_snippet(&body, at, q.len());
                hits.push(SearchHit { filename: copy_string(&note.filename), title, snippet: snip });
                assert(hits@.map_values(|h: SearchHit| search_hit_view(h)) =~= before.map_values(
                    |h: SearchHit| search_hit_view(h),
                ).push(search_hit_view(hits@.last())));
            },
            None => {},
        }
        i += 1;
    }
    hits
}

} // verus!
