//! `[[Title]]` links between notes.
use vstd::prelude::*;

use crate::lines::{line_bounds, lines_of, starts_with, trim, trim_bounds};
use crate::text::{chars_equal, chars_of, slice_range, string_of};
use crate::title::is_fence_line;
use crate::validated::has_char;

verus! {

/// The characters of each vector, in order.
pub open spec fn char_seqs(v: Seq<Vec<char>>) -> Seq<Seq<char>> {
    v.map_values(|x: Vec<char>| x@)
}

/// The characters of each string, in order.
pub open spec fn string_seqs(v: Seq<String>) -> Seq<Seq<char>> {
    v.map_values(|x: String| x@)
}

/// The index of the first `]]` in `chars` at or after `from`.
pub open spec fn close_from(chars: Seq<char>, from: int) -> Option<int>
    decreases chars.len() - from,
{
    if from < 0 || from + 1 >= chars.len() {
        None
    } else if chars[from] == ']' && chars[from + 1] == ']' {
        Some(from)
    } else {
        close_from(chars, from + 1)
    }
}

pub proof fn lemma_close_from(chars: Seq<char>, from: int)
    ensures
        match close_from(chars, from) {
            Some(j) => from <= j && j + 1 < chars.len() && chars[j] == ']' && chars[j + 1] == ']',
            None => true,
        },
    decreases chars.len() - from,
{
    if !(from < 0 || from + 1 >= chars.len()) && !(chars[from] == ']' && chars[from + 1] == ']') {
        lemma_close_from(chars, from + 1);
    }
}

/// Whether a trimmed link title is kept: non-empty, free of brackets and
/// not seen before.
pub open spec fn accepts_link(title: Seq<char>, links: Seq<Seq<char>>) -> bool {
    &&& title.len() > 0
    &&& !has_char(title, '[')
    &&& !has_char(title, ']')
    &&& !links.contains(title)
}

/// Scans one line from position `i` for wikilinks, skipping inline code
/// spans (between backticks); each accepted link is appended to `links`.
pub open spec fn scan_links(chars: Seq<char>, i: int, in_code: bool, links: Seq<Seq<char>>) -> Seq<Seq<char>>
    decreases chars.len() - i,
{
    if i < 0 || i >= chars.len() {
        links
    } else if chars[i] == '`' {
        scan_links(chars, i + 1, !in_code, links)
    } else if in_code || !(chars[i] == '[' && i + 1 < chars.len() && chars[i + 1] == '[') {
        scan_links(chars, i + 1, in_code, links)
    } else {
        match close_from(chars, i + 2) {
            None => scan_links(chars, i + 2, in_code, links),
            Some(close) => {
                proof {
                    lemma_close_from(chars, i + 2);
                }
                let t = trim(chars.subrange(i + 2, close));
                scan_links(
                    chars,
                    close + 2,
                    in_code,
                    if accepts_link(t, links) { links.push(t) } else { links },
                )
            },
        }
    }
}

/// Scans the lines of a body for wikilinks, skipping fenced code blocks.
pub open spec fn wikilinks_scan(lines: Seq<Seq<char>>, in_fence: bool, links: Seq<Seq<char>>) -> Seq<Seq<char>>
    decreases lines.len(),
{
    if lines.len() == 0 {
        links
    } else {
        let rest = lines.drop_first();
        if is_fence_line(trim(lines[0])) {
            wikilinks_scan(rest, !in_fence, links)
        } else if in_fence {
            wikilinks_scan(rest, in_fence, links)
        } else {
            wikilinks_scan(rest, in_fence, scan_links(lines[0], 0, false, links))
        }
    }
}

proof fn lemma_wikilinks_scan_skips_fence(lines: Seq<Seq<char>>, links: Seq<Seq<char>>, j: int)
    requires
        0 <= j < lines.len(),
        forall|m: int|
            0 <= m < j ==> !(starts_with(trim(#[trigger] lines[m]), seq!['`', '`', '`']) || starts_with(
                trim(lines[m]),
                seq!['~', '~', '~'],
            )),
        starts_with(trim(lines[j]), seq!['`', '`', '`']) || starts_with(trim(lines[j]), seq!['~', '~', '~']),
    ensures
        wikilinks_scan(lines, true, links) == wikilinks_scan(lines.skip(j + 1), false, links),
    decreases j,
{
    assert(lines.drop_first() =~= lines.skip(1));
    if j > 0 {
        let rest = lines.drop_first();
        assert forall|m: int| 0 <= m < j - 1 implies !(starts_with(trim(#[trigger] rest[m]), seq!['`', '`', '`'])
            || starts_with(trim(rest[m]), seq!['~', '~', '~'])) by {
            assert(rest[m] == lines[m + 1]);
        }
        assert(rest[j - 1] == lines[j]);
        assert(!(starts_with(trim(lines[0]), seq!['`', '`', '`']) || starts_with(trim(lines[0]), seq!['~', '~', '~'])));
        lemma_wikilinks_scan_skips_fence(rest, links, j - 1);
        assert(rest.skip(j) =~= lines.skip(j + 1));
    }
}

/// Nothing inside a fenced code block is taken as a wikilink: when the
/// scan meets, outside a code block, a line that trimmed starts with three
/// backticks or three tildes, and a later such line closes the block, the
/// links found are those found in the lines after the block.
pub proof fn law_fenced_block_gives_no_links(lines: Seq<Seq<char>>, links: Seq<Seq<char>>, j: int)
    requires
        1 <= j < lines.len(),
        starts_with(trim(lines[0]), seq!['`', '`', '`']) || starts_with(trim(lines[0]), seq!['~', '~', '~']),
        forall|m: int|
            1 <= m < j ==> !(starts_with(trim(#[trigger] lines[m]), seq!['`', '`', '`']) || starts_with(
                trim(lines[m]),
                seq!['~', '~', '~'],
            )),
        starts_with(trim(lines[j]), seq!['`', '`', '`']) || starts_with(trim(lines[j]), seq!['~', '~', '~']),
    ensures
        wikilinks_scan(lines, false, links) == wikilinks_scan(lines.skip(j + 1), false, links),
{
    let rest = lines.drop_first();
    assert forall|m: int| 0 <= m < j - 1 implies !(starts_with(trim(#[trigger] rest[m]), seq!['`', '`', '`'])
        || starts_with(trim(rest[m]), seq!['~', '~', '~'])) by {
        assert(rest[m] == lines[m + 1]);
    }
    assert(rest[j - 1] == lines[j]);
    lemma_wikilinks_scan_skips_fence(rest, links, j - 1);
    assert(rest.skip(j) =~= lines.skip(j + 1));
}

/// The wikilink targets of a body, in order of first appearance.
pub open spec fn wikilinks_of(body: Seq<char>) -> Seq<Seq<char>> {
    wikilinks_scan(lines_of(body), false, Seq::<Seq<char>>::empty())
}

/// Whether links are distinct, non-empty and free of brackets.
pub open spec fn clean_links(links: Seq<Seq<char>>) -> bool {
    &&& forall|i: int, j: int| 0 <= i < j < links.len() ==> links[i] != links[j]
    &&& forall|i: int|
        0 <= i < links.len() ==> (#[trigger] links[i]).len() > 0 && !has_char(links[i], '[')
            && !has_char(links[i], ']')
}

proof fn lemma_push_clean(links: Seq<Seq<char>>, t: Seq<char>)
    requires
        clean_links(links),
        accepts_link(t, links),
    ensures
        clean_links(links.push(t)),
{
    let l = links.push(t);
    assert forall|i: int, j: int| 0 <= i < j < l.len() implies l[i] != l[j] by {
        if j == links.len() {
            assert(l[i] == links[i]);
            if links[i] == t {
                assert(links.contains(t));
            }
        } else {
            assert(l[i] == links[i] && l[j] == links[j]);
        }
    }
    assert forall|i: int| 0 <= i < l.len() implies (#[trigger] l[i]).len() > 0 && !has_char(l[i], '[')
        && !has_char(l[i], ']') by {
        if i < links.len() {
            assert(l[i] == links[i]);
        }
    }
}

proof fn lemma_scan_links_clean(chars: Seq<char>, i: int, in_code: bool, links: Seq<Seq<char>>)
    requires
        clean_links(links),
    ensures
        clean_links(scan_links(chars, i, in_code, links)),
    decreases chars.len() - i,
{
    if i < 0 || i >= chars.len() {
    } else if chars[i] == '`' {
        lemma_scan_links_clean(chars, i + 1, !in_code, links);
    } else if in_code || !(chars[i] == '[' && i + 1 < chars.len() && chars[i + 1] == '[') {
        lemma_scan_links_clean(chars, i + 1, in_code, links);
    } else {
        match close_from(chars, i + 2) {
            None => lemma_scan_links_clean(chars, i + 2, in_code, links),
            Some(close) => {
                lemma_close_from(chars, i + 2);
                let t = trim(chars.subrange(i + 2, close));
                if accepts_link(t, links) {
                    lemma_push_clean(links, t);
                    lemma_scan_links_clean(chars, close + 2, in_code, links.push(t));
                } else {
                    lemma_scan_links_clean(chars, close + 2, in_code, links);
                }
            },
        }
    }
}

proof fn lemma_wikilinks_scan_clean(lines: Seq<Seq<char>>, in_fence: bool, links: Seq<Seq<char>>)
    requires
        clean_links(links),
    ensures
        clean_links(wikilinks_scan(lines, in_fence, links)),
    decreases lines.len(),
{
    if lines.len() > 0 {
        let rest = lines.drop_first();
        if is_fence_line(trim(lines[0])) {
            lemma_wikilinks_scan_clean(rest, !in_fence, links);
        } else if in_fence {
            lemma_wikilinks_scan_clean(rest, in_fence, links);
        } else {
            lemma_scan_links_clean(lines[0], 0, false, links);
            lemma_wikilinks_scan_clean(rest, in_fence, scan_links(lines[0], 0, false, links));
        }
    }
}

/// The wikilinks of a body are deduplicated, and none is empty or holds a
/// bracket.
pub proof fn law_wikilinks_clean(body: Seq<char>)
    ensures
        clean_links(wikilinks_of(body)),
{
    lemma_wikilinks_scan_clean(lines_of(body), false, Seq::<Seq<char>>::empty());
}

/// The index of the next `]]`, starting at `from`.
pub fn find_close(chars: &[char], from: usize) -> (res: Option<usize>)
    ensures
        res == (match close_from(chars@, from as int) {
            Some(j) => Some(j as usize),
            None => None::<usize>,
        }),
{
    let mut j = from;
    while j < chars.len() && j + 1 < chars.len()
        invariant
            from <= j,
            close_from(chars@, from as int) == close_from(chars@, j as int),
        decreases chars.len() - j,
    {
        if chars[j] == ']' && chars[j + 1] == ']' {
            return Some(j);
        }
        j += 1;
    }
    None
}

fn contains_chars(links: &Vec<Vec<char>>, t: &[char]) -> (res: bool)
    ensures
        res == char_seqs(links@).contains(t@),
{
    let mut k: usize = 0;
    while k < links.len()
        invariant
            k <= links.len(),
            forall|m: int| 0 <= m < k ==> links@[m]@ != t@,
        decreases links.len() - k,
    {
        if chars_equal(&links[k], t) {
            assert(char_seqs(links@)[k as int] == t@);
            return true;
        }
        k += 1;
    }
    proof {
        if char_seqs(links@).contains(t@) {
            let m = choose|m: int| 0 <= m < char_seqs(links@).len() && char_seqs(links@)[m] == t@;
            assert(links@[m]@ == t@);
        }
    }
    false
}

fn has_bracket(s: &[char], from: usize, to: usize, x: char) -> (res: bool)
    requires
        from <= to <= s.len(),
    ensures
        res == has_char(s@.subrange(from as int, to as int), x),
{
    let mut i = from;
    while i < to
        invariant
            from <= i <= to <= s.len(),
            forall|j: int| from <= j < i ==> s@[j] != x,
        decreases to - i,
    {
        if s[i] == x {
            assert(s@.subrange(from as int, to as int)[i - from] == x);
            return true;
        }
        i += 1;
    }
    proof {
        if has_char(s@.subrange(from as int, to as int), x) {
            let j = choose|j: int|
                0 <= j < to - from && #[trigger] s@.subrange(from as int, to as int)[j] == x;
            assert(s@.subrange(from as int, to as int)[j] == s@[from + j]);
        }
    }
    false
}

/// Scans one line for wikilinks, skipping inline code spans, and appends
/// each new accepted link to `links`.
pub fn scan_line(line: &[char], links: &mut Vec<Vec<char>>)
    ensures
        char_seqs(final(links)@) == scan_links(line@, 0, false, char_seqs(old(links)@)),
{
    let mut in_code = false;
    let mut i: usize = 0;
    let ghost target = scan_links(line@, 0, false, char_seqs(links@));
    while i < line.len()
        invariant
            target == scan_links(line@, i as int, in_code, char_seqs(links@)),
        decreases line.len() - i,
    {
        if line[i] == '`' {
            in_code = !in_code;
            i += 1;
            continue;
        }
        if in_code || !(line[i] == '[' && i + 1 < line.len() && line[i + 1] == '[') {
            i += 1;
            continue;
        }
        let close = match find_close(line, i + 2) {
            Some(c) => c,
            None => {
                i += 2;
                continue;
            },
        };
        proof {
            lemma_close_from(line@, i + 2);
        }
        let (a, b) = trim_bounds(line, i + 2, close);
        let ghost t = line@.subrange(a as int, b as int);
        let ok = a < b && !has_bracket(line, a, b, '[') && !has_bracket(line, a, b, ']');
        if ok {
            let title = slice_range(line, a, b);
            if !contains_chars(links, &title) {
                let ghost before = links@;
                links.push(title);
                proof {
                    assert(char_seqs(links@) =~= char_seqs(before).push(t));
                }
            }
        }
        i = close + 2;
    }
    assert(char_seqs(links@) == target);
}

/// Extracts `[[Title]]` targets from a note body in order of appearance,
/// trimmed and deduplicated. Links inside fenced code blocks or inline code
/// spans are ignored, as are empty titles and ones holding brackets.
pub fn extract_wikilinks(body: &str) -> (res: Vec<String>)
    ensures
        string_seqs(res@) == wikilinks_of(body@),
{
    let c = chars_of(body);
    let lb = line_bounds(&c);
    let ghost lines = lines_of(c@);
    let mut in_fence = false;
    let mut links: Vec<Vec<char>> = Vec::new();
    let mut k: usize = 0;
    assert(lines.skip(0) =~= lines);
    assert(char_seqs(links@) =~= Seq::<Seq<char>>::empty());
    while k < lb.len()
        invariant
            k <= lb.len(),
            c@ == body@,
            lb@.len() == lines.len(),
            lines == lines_of(c@),
            forall|m: int|
                #![trigger lb@[m]]
                0 <= m < lb@.len() ==> {
                    &&& lb@[m].0 <= lb@[m].1 <= c@.len()
                    &&& c@.subrange(lb@[m].0 as int, lb@[m].1 as int) == lines[m]
                },
            wikilinks_of(c@) == wikilinks_scan(lines.skip(k as int), in_fence, char_seqs(links@)),
        decreases lb.len() - k,
    {
        let (ls, le) = lb[k];
        let (a, b) = trim_bounds(&c, ls, le);
        proof {
            assert(c@.subrange(ls as int, le as int) == lines[k as int]);
            assert(lines.skip(k as int)[0] == lines[k as int]);
            assert(lines.skip(k as int).drop_first() =~= lines.skip(k + 1));
        }
        let fence = crate::title::fence_prefix(&c, a, b);
        if fence {
            in_fence = !in_fence;
        } else if !in_fence {
            let line = slice_range(&c, ls, le);
            scan_line(&line, &mut links);
        }
        k += 1;
    }
    let mut res: Vec<String> = Vec::new();
    let mut m: usize = 0;
    while m < links.len()
        invariant
            m <= links.len(),
            res@.len() == m,
            forall|j: int| 0 <= j < m ==> #[trigger] res@[j]@ == links@[j]@,
        decreases links.len() - m,
    {
        res.push(string_of(&links[m]));
        m += 1;
    }
    assert(string_seqs(res@) =~= char_seqs(links@));
    res
}

} // verus!
