//! The human-facing title of a note body.
use vstd::prelude::*;

use crate::lines::{lines_of, line_bounds, starts_with, trim, trim_bounds};
use crate::text::{chars_of, slice_range, string_of};

verus! {

/// Whether a trimmed line opens or closes a fenced code block.
pub open spec fn is_fence_line(t: Seq<char>) -> bool {
    starts_with(t, seq!['`', '`', '`']) || starts_with(t, seq!['~', '~', '~'])
}

/// Whether every character of `t` is `-`.
pub open spec fn all_dashes(t: Seq<char>) -> bool {
    forall|i: int| 0 <= i < t.len() ==> #[trigger] t[i] == '-'
}

/// The number of `#` characters that start `s`.
pub open spec fn leading_hashes(s: Seq<char>) -> nat
    decreases s.len(),
{
    if s.len() > 0 && s[0] == '#' {
        1 + leading_hashes(s.drop_first())
    } else {
        0
    }
}

proof fn lemma_leading_hashes(s: Seq<char>, n: int)
    requires
        0 <= n <= s.len(),
        forall|i: int| 0 <= i < n ==> #[trigger] s[i] == '#',
        n == s.len() || s[n] != '#',
    ensures
        leading_hashes(s) == n,
    decreases n,
{
    if n > 0 {
        lemma_leading_hashes(s.drop_first(), n - 1);
    }
}

/// The text of an ATX heading (`# ` through `###### `): one to six `#`,
/// then nothing or a space, then the trimmed, non-empty text.
pub open spec fn heading_text(line: Seq<char>) -> Option<Seq<char>> {
    let h = leading_hashes(line);
    let rest = line.subrange(h as int, line.len() as int);
    if h == 0 || h > 6 {
        None
    } else if rest.len() > 0 && rest[0] != ' ' {
        None
    } else if trim(rest).len() == 0 {
        None
    } else {
        Some(trim(rest))
    }
}

/// Scans trimmed lines for a title: lines inside fenced code blocks, empty
/// lines and lines of dashes are skipped; the first heading wins; otherwise
/// the first other line.
pub open spec fn title_scan(lines: Seq<Seq<char>>, in_fence: bool, first: Option<Seq<char>>) -> Option<Seq<char>>
    decreases lines.len(),
{
    if lines.len() == 0 {
        first
    } else {
        let t = trim(lines[0]);
        let rest = lines.drop_first();
        if is_fence_line(t) {
            title_scan(rest, !in_fence, first)
        } else if in_fence || t.len() == 0 || all_dashes(t) {
            title_scan(rest, in_fence, first)
        } else {
            match heading_text(t) {
                Some(h) => Some(h),
                None => title_scan(rest, in_fence, if first is None { Some(t) } else { first }),
            }
        }
    }
}

/// The title of a note body.
pub open spec fn title_of(body: Seq<char>) -> Option<Seq<char>> {
    title_scan(lines_of(body), false, None)
}

proof fn lemma_title_scan_skips_fence(lines: Seq<Seq<char>>, first: Option<Seq<char>>, j: int)
    requires
        0 <= j < lines.len(),
        forall|m: int|
            0 <= m < j ==> !(starts_with(trim(#[trigger] lines[m]), seq!['`', '`', '`']) || starts_with(
                trim(lines[m]),
                seq!['~', '~', '~'],
            )),
        starts_with(trim(lines[j]), seq!['`', '`', '`']) || starts_with(trim(lines[j]), seq!['~', '~', '~']),
    ensures
        title_scan(lines, true, first) == title_scan(lines.skip(j + 1), false, first),
    decreases j,
{
    assert(lines.drop_first() =~= lines.skip(1));
    if j > 0 {
        let rest = lines.drop_first();
        assert forall|m: int| 0 <= m < j - 1 implies !(starts_with(trim(#[trigger] rest[m]), seq!['`', '`', '`'])
            || starts_with(trim(rest[m]), seq!['~', '~', '~'])) by {
            assert(rest[m] == lines[m + 1]);
        }
        assert(rest[j - 1] == lines[j]);
        assert(!(starts_with(trim(lines[0]), seq!['`', '`', '`']) || starts_with(trim(lines[0]), seq!['~', '~', '~'])));
        lemma_title_scan_skips_fence(rest, first, j - 1);
        assert(rest.skip(j) =~= lines.skip(j + 1));
    }
}

/// Nothing inside a fenced code block becomes a title: when the title scan
/// meets, outside a code block, a line that trimmed starts with three
/// backticks or three tildes, and a later such line closes the block, the
/// scan gives what it gives for the lines after the block; the fence
/// lines and every line between them are passed over.
pub proof fn law_fenced_block_gives_no_title(lines: Seq<Seq<char>>, first: Option<Seq<char>>, j: int)
    requires
        1 <= j < lines.len(),
        starts_with(trim(lines[0]), seq!['`', '`', '`']) || starts_with(trim(lines[0]), seq!['~', '~', '~']),
        forall|m: int|
            1 <= m < j ==> !(starts_with(trim(#[trigger] lines[m]), seq!['`', '`', '`']) || starts_with(
                trim(lines[m]),
                seq!['~', '~', '~'],
            )),
        starts_with(trim(lines[j]), seq!['`', '`', '`']) || starts_with(trim(lines[j]), seq!['~', '~', '~']),
    ensures
        title_scan(lines, false, first) == title_scan(lines.skip(j + 1), false, first),
{
    let rest = lines.drop_first();
    assert forall|m: int| 0 <= m < j - 1 implies !(starts_with(trim(#[trigger] rest[m]), seq!['`', '`', '`'])
        || starts_with(trim(rest[m]), seq!['~', '~', '~'])) by {
        assert(rest[m] == lines[m + 1]);
    }
    assert(rest[j - 1] == lines[j]);
    lemma_title_scan_skips_fence(rest, first, j - 1);
    assert(rest.skip(j) =~= lines.skip(j + 1));
}

/// A body that opens with a fenced code block (its first line and its
/// `j`th line, trimmed, start with three backticks or three tildes, no
/// line between does) has the title of the lines after the block.
pub proof fn law_leading_code_block_gives_no_title(body: Seq<char>, j: int)
    requires
        1 <= j < lines_of(body).len(),
        starts_with(trim(lines_of(body)[0]), seq!['`', '`', '`']) || starts_with(
            trim(lines_of(body)[0]),
            seq!['~', '~', '~'],
        ),
        forall|m: int|
            1 <= m < j ==> !(starts_with(trim(#[trigger] lines_of(body)[m]), seq!['`', '`', '`']) || starts_with(
                trim(lines_of(body)[m]),
                seq!['~', '~', '~'],
            )),
        starts_with(trim(lines_of(body)[j]), seq!['`', '`', '`']) || starts_with(
            trim(lines_of(body)[j]),
            seq!['~', '~', '~'],
        ),
    ensures
        title_of(body) == title_scan(lines_of(body).skip(j + 1), false, None),
{
    law_fenced_block_gives_no_title(lines_of(body), None, j);
}

fn prefix_is(s: &[char], from: usize, to: usize, a: char, b: char, c: char) -> (res: bool)
    requires
        from <= to <= s.len(),
    ensures
        res == starts_with(s@.subrange(from as int, to as int), seq![a, b, c]),
{
    if to - from < 3 {
        return false;
    }
    let r = s[from] == a && s[from + 1] == b && s[from + 2] == c;
    proof {
        let t = s@.subrange(from as int, to as int);
        if r {
            assert(t.subrange(0, 3) =~= seq![a, b, c]);
        } else if t.subrange(0, 3) == seq![a, b, c] {
            assert(t.subrange(0, 3)[0] == t[0]);
            assert(t.subrange(0, 3)[1] == t[1]);
            assert(t.subrange(0, 3)[2] == t[2]);
        }
    }
    r
}

/// Whether the trimmed line `s[from..to]` opens or closes a code fence.
pub(crate) fn fence_prefix(s: &[char], from: usize, to: usize) -> (res: bool)
    requires
        from <= to <= s.len(),
    ensures
        res == is_fence_line(s@.subrange(from as int, to as int)),
{
    prefix_is(s, from, to, '`', '`', '`') || prefix_is(s, from, to, '~', '~', '~')
}

fn dashes_only(s: &[char], from: usize, to: usize) -> (res: bool)
    requires
        from <= to <= s.len(),
    ensures
        res == all_dashes(s@.subrange(from as int, to as int)),
{
    let mut i = from;
    while i < to
        invariant
            from <= i <= to <= s.len(),
            forall|j: int| from <= j < i ==> s@[j] == '-',
        decreases to - i,
    {
        if s[i] != '-' {
            assert(s@.subrange(from as int, to as int)[i - from] != '-');
            return false;
        }
        i += 1;
    }
    proof {
        assert forall|j: int| 0 <= j < to - from implies #[trigger] s@.subrange(
            from as int,
            to as int,
        )[j] == '-' by {
            assert(s@.subrange(from as int, to as int)[j] == s@[from + j]);
        }
    }
    true
}

/// The bounds within `s` of the heading text of the line `s[from..to]`.
fn heading_bounds(s: &[char], from: usize, to: usize) -> (res: Option<(usize, usize)>)
    requires
        from <= to <= s.len(),
    ensures
        match res {
            Some((a, b)) => from <= a <= b <= to && heading_text(s@.subrange(from as int, to as int))
                == Some(s@.subrange(a as int, b as int)),
            None => heading_text(s@.subrange(from as int, to as int)) is None,
        },
{
    let ghost line = s@.subrange(from as int, to as int);
    let mut h = from;
    while h < to && s[h] == '#'
        invariant
            from <= h <= to <= s.len(),
            forall|j: int| from <= j < h ==> s@[j] == '#',
        decreases to - h,
    {
        h += 1;
    }
    proof {
        assert forall|i: int| 0 <= i < h - from implies #[trigger] line[i] == '#' by {
            assert(line[i] == s@[from + i]);
        }
        if h < to {
            assert(line[h - from] == s@[h as int]);
        }
        lemma_leading_hashes(line, h - from);
        assert(line.subrange(h - from, line.len() as int) =~= s@.subrange(h as int, to as int));
    }
    let n = h - from;
    if n == 0 || n > 6 {
        return None;
    }
    if h < to && s[h] != ' ' {
        assert(s@.subrange(h as int, to as int)[0] == s@[h as int]);
        return None;
    }
    let (a, b) = trim_bounds(s, h, to);
    if a == b {
        return None;
    }
    Some((a, b))
}

/// The text of an ATX heading line (`# ` through `###### `), if it is one.
pub fn parse_heading(line: &str) -> (res: Option<String>)
    ensures
        match res {
            Some(t) => heading_text(line@) == Some(t@),
            None => heading_text(line@) is None,
        },
{
    let c = chars_of(line);
    assert(c@.subrange(0, c@.len() as int) =~= c@);
    match heading_bounds(&c, 0, c.len()) {
        Some((a, b)) => {
            let t = slice_range(&c, a, b);
            Some(string_of(&t))
        },
        None => None,
    }
}

/// Extracts a human-facing title from a note body (frontmatter already
/// stripped). The first ATX heading wins even if plain text precedes it;
/// otherwise the first non-empty line is used. Lines inside fenced code
/// blocks and lines made only of `-` are never picked.
pub fn extract_title(body: &str) -> (res: Option<String>)
    ensures
        match res {
            Some(t) => title_of(body@) == Some(t@),
            None => title_of(body@) is None,
        },
{
    let c = chars_of(body);
    let lb = line_bounds(&c);
    let ghost lines = lines_of(c@);
    let mut in_fence = false;
    let mut first: Option<(usize, usize)> = None;
    let mut k: usize = 0;
    assert(lines.skip(0) =~= lines);
    while k < lb.len()
        invariant
            k <= lb.len(),
            c@ == body@,
            lb@.len() == lines.len(),
            lines == lines_of(c@),
            forall|m: int|
                #![trigger lb@[m]]
                0 <= m < lb@.len() ==> {
                    &&& lb@[m].0 <= lb@[m].1 <= c@.len()
                    &&& c@.subrange(lb@[m].0 as int, lb@[m].1 as int) == lines[m]
                },
            match first {
                Some((a, b)) => a <= b <= c@.len(),
                None => true,
            },
            title_of(c@) == title_scan(
                lines.skip(k as int),
                in_fence,
                match first {
                    Some((a, b)) => Some(c@.subrange(a as int, b as int)),
                    None => None,
                },
            ),
        decreases lb.len() - k,
    {
        let (ls, le) = lb[k];
        let (a, b) = trim_bounds(&c, ls, le);
        let ghost fs = match first {
            Some((x, y)) => Some(c@.subrange(x as int, y as int)),
            None => None,
        };
        proof {
            assert(c@.subrange(ls as int, le as int) == lines[k as int]);
            assert(lines.skip(k as int)[0] == lines[k as int]);
            assert(lines.skip(k as int).drop_first() =~= lines.skip(k + 1));
        }
        let fence = fence_prefix(&c, a, b);
        if fence {
            in_fence = !in_fence;
        } else if in_fence || a == b || dashes_only(&c, a, b) {
        } else {
            match heading_bounds(&c, a, b) {
                Some((ha, hb)) => {
                    proof {
                        let t0 = trim(lines.skip(k as int)[0]);
                        assert(t0 == c@.subrange(a as int, b as int));
                        assert(!is_fence_line(t0));
                        assert(heading_text(t0) == Some(c@.subrange(ha as int, hb as int)));
                        assert(title_scan(lines.skip(k as int), in_fence, fs) == Some(
                            c@.subrange(ha as int, hb as int),
                        ));
                    }
                    let t = slice_range(&c, ha, hb);
                    return Some(string_of(&t));
                },
                None => {
                    if first.is_none() {
                        first = Some((a, b));
                    }
                },
            }
        }
        k += 1;
    }
    match first {
        Some((a, b)) => {
            let t = slice_range(&c, a, b);
            Some(string_of(&t))
        },
        None => None,
    }
}

} // verus!
