//! The timeline: one Markdown file per day, named by its date, holding one
//! entry per saved text: `- [HH:MM:SS] text { "battery": .., "is_charging": .. }`.
use vstd::prelude::*;

use crate::context::Context;
use crate::lines::{
    lemma_newline_pieces_nonempty, line_bounds, lines_of, newline_pieces, starts_with, strip_cr,
};
use crate::moment::{
    clock_text, format_day, format_moment, parse_day, parsed_day, rendered_day, rendered_moment, Moment,
};
use crate::paths::{join, join_path, notes_dir, notes_dir_of, timeline_dir, timeline_dir_of};
use crate::text::{
    chars_of, find_first, find_last, first_from, last_below, lemma_first_match_is_match_from,
    lowercase_chars, lowercase_seq, make_snippet, match_from, occurs_at, occurs_at_exec, push_char,
    slice_range, snippet, string_of, find_match,
};
use crate::lines::{trim, trim_bounds};
use crate::validated::has_char;

verus! {

broadcast use vstd::seq_lib::group_to_multiset_ensures;

/// The character of a decimal digit.
pub open spec fn digit_char(d: int) -> char {
    (48 + d) as char
}

/// The decimal digits of `n`, without leading zeros.
pub open spec fn decimal(n: nat) -> Seq<char>
    decreases n,
{
    if n < 10 {
        seq![digit_char(n as int)]
    } else {
        decimal(n / 10).push(digit_char((n % 10) as int))
    }
}

/// Appends the decimal digits of `n`.
pub(crate) fn push_decimal(out: &mut String, n: u32)
    ensures
        final(out)@ == old(out)@ + decimal(n as nat),
    decreases n,
{
    let ghost start = out@;
    if n >= 10 {
        push_decimal(out, n / 10);
    }
    push_char(out, (48u8 + (n % 10) as u8) as char);
    proof {
        let m = n as nat;
        if m >= 10 {
            assert(decimal(m) == decimal(m / 10).push(digit_char((m % 10) as int)));
        }
        assert(out@ =~= start + decimal(m));
    }
}

/// `true` or `false`.
pub open spec fn bool_text(b: bool) -> Seq<char> {
    if b { "true"@ } else { "false"@ }
}

/// A timeline line: the clock time, the text, then the device context as
/// a small JSON object.
pub open spec fn timeline_line(time: Seq<char>, text: Seq<char>, context: Context) -> Seq<char> {
    "- ["@ + time + "] "@ + text + " { \"battery\": "@ + decimal(context.battery as nat)
        + ", \"is_charging\": "@ + bool_text(context.is_charging) + " }"@
}

/// The clock time of a moment, `HH:MM:SS`, as chrono renders it.
pub open spec fn clock_time(m: Moment) -> Option<Seq<char>> {
    rendered_moment(m.secs, m.nanos, m.offset_secs, "%H:%M:%S"@)
}

/// The timeline line for `text` written at `timestamp`; none when chrono
/// cannot render the moment.
pub fn format_timeline_line(text: &str, timestamp: Moment, context: &Context) -> (res: Option<String>)
    ensures
        match clock_time(timestamp) {
            Some(t) => res matches Some(s) && s@ == timeline_line(t, text@, *context),
            None => res is None,
        },
        timestamp.nanos < 1_000_000_000 ==> match res {
            Some(s) => s@ == timeline_line(clock_text(timestamp.secs + timestamp.offset_secs), text@, *context),
            None => true,
        },
{
    proof {
        reveal_strlit("%H:%M:%S");
    }
    let time = match format_moment(timestamp, "%H:%M:%S") {
        Some(t) => t,
        None => {
            return None;
        },
    };
    proof {
        reveal_strlit("- [");
        reveal_strlit("] ");
        reveal_strlit(" { \"battery\": ");
        reveal_strlit(", \"is_charging\": ");
        reveal_strlit("true");
        reveal_strlit("false");
        reveal_strlit(" }");
    }
    let mut out = String::from_str("- [");
    out.append(time.as_str());
    out.append("] ");
    out.append(text);
    out.append(" { \"battery\": ");
    push_decimal(&mut out, context.battery as u32);
    out.append(", \"is_charging\": ");
    if context.is_charging {
        out.append("true");
    } else {
        out.append("false");
    }
    out.append(" }");
    assert(out@ =~= timeline_line(time@, text@, *context));
    Some(out)
}

/// A day file's content after appending a line: a newline is added first
/// when the content does not already end with one, and the line is
/// followed by a newline.
pub open spec fn appended(content: Seq<char>, line: Seq<char>) -> Seq<char> {
    let base = if content.len() > 0 && content.last() != '\n' {
        content.push('\n')
    } else {
        content
    };
    base + line + seq!['\n']
}

/// The content of the day file after saving `text`, written at `now`
/// with `context`, to a file that held `existing`; none when chrono cannot
/// render the moment.
pub fn save_timeline_entry(existing: &str, text: &str, now: Moment, context: &Context) -> (res: Option<String>)
    ensures
        match clock_time(now) {
            Some(t) => res matches Some(s) && s@ == appended(existing@, timeline_line(t, text@, *context)),
            None => res is None,
        },
{
    let line = match format_timeline_line(text, now, context) {
        Some(l) => l,
        None => {
            return None;
        },
    };
    let chars = chars_of(existing);
    let mut out = String::from_str(existing);
    if chars.len() > 0 && chars[chars.len() - 1] != '\n' {
        push_char(&mut out, '\n');
    }
    out.append(line.as_str());
    push_char(&mut out, '\n');
    Some(out)
}

/// The file name of a day, `YYYY-MM-DD.md`, as chrono renders the date.
pub open spec fn day_file_name(day: i32) -> Option<Seq<char>> {
    match rendered_day(day, "%Y-%m-%d"@) {
        Some(d) => Some(d + ".md"@),
        None => None,
    }
}

/// The label of a day, `YYYY-MM-DD`, as chrono renders the date (days
/// since 1970-01-01); none when chrono cannot represent the day.
pub fn day_label(day: i32) -> (res: Option<String>)
    ensures
        match rendered_day(day, "%Y-%m-%d"@) {
            Some(d) => res matches Some(l) && l@ == d,
            None => res is None,
        },
{
    format_day(day, "%Y-%m-%d")
}

/// The path of a day's timeline file: `<base>/data/timeline/YYYY-MM-DD.md`;
/// none when chrono cannot render the day (days since 1970-01-01).
pub fn timeline_file_path(base_dir: &str, day: i32) -> (res: Option<String>)
    ensures
        match day_file_name(day) {
            Some(n) => res matches Some(p) && p@ == join(timeline_dir_of(base_dir@), n),
            None => res is None,
        },
{
    proof {
        reveal_strlit(".md");
    }
    let mut name = match day_label(day) {
        Some(d) => d,
        None => {
            return None;
        },
    };
    name.append(".md");
    let dir = timeline_dir(base_dir);
    Some(join_path(dir.as_str(), name.as_str()))
}

/// The path of the note written at a moment:
/// `<base>/data/notes/YYYYMMDD_HHMMSS.md`; none when chrono cannot render
/// the moment.
pub fn note_file_path(base_dir: &str, timestamp: Moment) -> (res: Option<String>)
    ensures
        match rendered_moment(timestamp.secs, timestamp.nanos, timestamp.offset_secs, "%Y%m%d_%H%M%S"@) {
            Some(s) => res matches Some(p) && p@ == join(notes_dir_of(base_dir@), s + ".md"@),
            None => res is None,
        },
{
    proof {
        reveal_strlit("%Y%m%d_%H%M%S");
        reveal_strlit(".md");
    }
    let mut name = match format_moment(timestamp, "%Y%m%d_%H%M%S") {
        Some(s) => s,
        None => {
            return None;
        },
    };
    name.append(".md");
    let dir = notes_dir(base_dir);
    Some(join_path(dir.as_str(), name.as_str()))
}

/// The day a timeline file name stands for: the name without `.md`,
/// read as `YYYY-MM-DD`; none for any other name.
pub open spec fn date_of_name(name: Seq<char>) -> Option<i32> {
    if name.len() >= 3 && name.subrange(name.len() - 3, name.len() as int) == ".md"@ {
        parsed_day(name.subrange(0, name.len() - 3), "%Y-%m-%d"@)
    } else {
        None
    }
}

/// The days named by the first `n` file names, in listing order.
pub open spec fn dates_upto(names: Seq<String>, n: int) -> Seq<i32>
    decreases n,
{
    if n <= 0 {
        Seq::empty()
    } else {
        match date_of_name(names[n - 1]@) {
            Some(d) => dates_upto(names, n - 1).push(d),
            None => dates_upto(names, n - 1),
        }
    }
}

/// Whether the days come newest first.
pub open spec fn newest_first(days: Seq<i32>) -> bool {
    forall|i: int, j: int| 0 <= i < j < days.len() ==> days[i] >= days[j]
}

fn date_of_file(name: &String) -> (res: Option<i32>)
    ensures
        res == date_of_name(name@),
{
    let chars = chars_of(name.as_str());
    proof {
        reveal_strlit(".md");
        reveal_strlit("%Y-%m-%d");
    }
    let n = chars.len();
    if n < 3 || chars[n - 3] != '.' || chars[n - 2] != 'm' || chars[n - 1] != 'd' {
        proof {
            if n >= 3 {
                let tail = name@.subrange(n - 3, n as int);
                if tail == ".md"@ {
                    assert(tail[0] == chars@[n - 3] && tail[1] == chars@[n - 2] && tail[2] == chars@[n - 1]);
                }
            }
        }
        return None;
    }
    assert(name@.subrange(n - 3, n as int) =~= ".md"@);
    let stem = slice_range(&chars, 0, n - 3);
    let s = string_of(&stem);
    parse_day(s.as_str(), "%Y-%m-%d")
}

/// The days of the timeline files among `file_names`, newest first.
/// Names that are not `YYYY-MM-DD.md` are skipped.
pub fn list_dates(file_names: &[String]) -> (res: Vec<i32>)
    ensures
        res@.to_multiset() == dates_upto(file_names@, file_names.len() as int).to_multiset(),
        newest_first(res@),
{
    let mut out: Vec<i32> = Vec::new();
    let mut i: usize = 0;
    while i < file_names.len()
        invariant
            i <= file_names.len(),
            out@.to_multiset() == dates_upto(file_names@, i as int).to_multiset(),
            newest_first(out@),
        decreases file_names.len() - i,
    {
        match date_of_file(&file_names[i]) {
            Some(d) => {
                let mut p: usize = 0;
                while p < out.len() && out[p] >= d
                    invariant
                        p <= out.len(),
                        forall|j: int| 0 <= j < p ==> out@[j] >= d,
                    decreases out.len() - p,
                {
                    p += 1;
                }
                let ghost before = out@;
                out.insert(p, d);
                proof {
                    assert(out@ == before.insert(p as int, d));
                    assert(dates_upto(file_names@, i + 1) == dates_upto(file_names@, i as int).push(d));
                    vstd::seq_lib::to_multiset_insert(before, p as int, d);
                    vstd::seq_lib::to_multiset_build(dates_upto(file_names@, i as int), d);
                    assert forall|a: int, b: int| 0 <= a < b < out@.len() implies out@[a] >= out@[b] by {
                        if b < p {
                            assert(out@[a] == before[a] && out@[b] == before[b]);
                        } else if b == p {
                            assert(out@[a] == before[a]);
                        } else if a == p {
                            assert(out@[b] == before[b - 1]);
                            if p < before.len() {
                                assert(before[p as int] < d);
                            }
                        } else if a < p {
                            assert(out@[a] == before[a] && out@[b] == before[b - 1]);
                        } else {
                            assert(out@[a] == before[a - 1] && out@[b] == before[b - 1]);
                        }
                    }
                }
            },
            None => {
                assert(dates_upto(file_names@, i + 1) == dates_upto(file_names@, i as int));
            },
        }
        i += 1;
    }
    out
}

/// The entries of a day file, from its lines: empty lines are dropped, a
/// line starting with `- [` starts an entry, and any other line continues
/// the entry before it (joined with a newline), or starts one when there
/// is none yet.
pub open spec fn group_lines(lines: Seq<Seq<char>>) -> Seq<Seq<char>>
    decreases lines.len(),
{
    if lines.len() == 0 {
        Seq::empty()
    } else {
        let prev = group_lines(lines.drop_last());
        let l = lines.last();
        if l.len() == 0 {
            prev
        } else if starts_with(l, "- ["@) || prev.len() == 0 {
            prev.push(l)
        } else {
            prev.update(prev.len() - 1, prev.last() + seq!['\n'] + l)
        }
    }
}

/// The characters of each string, in order.
pub open spec fn string_views(v: Seq<String>) -> Seq<Seq<char>> {
    v.map_values(|s: String| s@)
}

/// The entries of a day file's content, oldest first (a multi-line entry
/// stays one entry).
pub fn read_entries(content: &str) -> (res: Vec<String>)
    ensures
        string_views(res@) == group_lines(lines_of(content@)),
{
    let chars = chars_of(content);
    let bounds = line_bounds(&chars);
    let marker = chars_of("- [");
    proof {
        reveal_strlit("- [");
    }
    let ghost lines = lines_of(content@);
    let mut out: Vec<String> = Vec::new();
    let mut k: usize = 0;
    assert(string_views(out@) =~= group_lines(lines.take(0)));
    while k < bounds.len()
        invariant
            k <= bounds.len(),
            bounds@.len() == lines.len(),
            chars@ == content@,
            lines == lines_of(content@),
            marker@ == "- ["@,
            forall|m: int|
                #![trigger bounds@[m]]
                0 <= m < bounds@.len() ==> {
                    &&& bounds@[m].0 <= bounds@[m].1 <= chars@.len()
                    &&& chars@.subrange(bounds@[m].0 as int, bounds@[m].1 as int) == lines[m]
                },
            string_views(out@) == group_lines(lines.take(k as int)),
        decreases bounds.len() - k,
    {
        let (a, b) = bounds[k];
        let line = slice_range(&chars, a, b);
        let ghost prev = string_views(out@);
        proof {
            assert(lines.take(k + 1).drop_last() =~= lines.take(k as int));
            assert(lines.take(k + 1).last() == lines[k as int]);
            assert(line@ == lines[k as int]);
        }
        if line.len() > 0 {
            if occurs_at_exec(&line, &marker, 0) || out.len() == 0 {
                assert(occurs_at(line@, marker@, 0) ==> starts_with(line@, "- ["@));
                assert(starts_with(line@, "- ["@) ==> occurs_at(line@, marker@, 0));
                out.push(string_of(&line));
                assert(string_views(out@) =~= prev.push(line@));
            } else {
                assert(!starts_with(line@, "- ["@));
                let ghost old_out = out@;
                let mut last = out.pop().unwrap();
                assert(last@ == prev.last());
                push_char(&mut last, '\n');
                let s = string_of(&line);
                last.append(s.as_str());
                out.push(last);
                assert forall|m: int| 0 <= m < out@.len() implies #[trigger] string_views(out@)[m] == prev.update(
                    prev.len() - 1,
                    prev.last() + seq!['\n'] + line@,
                )[m] by {
                    if m < out@.len() - 1 {
                        assert(out@[m] == old_out[m]);
                    }
                }
                assert(string_views(out@) =~= prev.update(prev.len() - 1, prev.last() + seq!['\n'] + line@));
            }
        }
        k += 1;
    }
    assert(lines.take(bounds.len() as int) =~= lines);
    out
}

/// The number of bytes `c` takes in UTF-8.
pub open spec fn utf8_len(c: char) -> int {
    if (c as u32) < 0x80 {
        1
    } else if (c as u32) < 0x800 {
        2
    } else if (c as u32) < 0x10000 {
        3
    } else {
        4
    }
}

/// The number of bytes `s` takes in UTF-8.
pub open spec fn byte_len(s: Seq<char>) -> int
    decreases s.len(),
{
    if s.len() == 0 {
        0
    } else {
        byte_len(s.drop_last()) + utf8_len(s.last())
    }
}

proof fn lemma_byte_len_grows(s: Seq<char>, i: int)
    requires
        0 <= i <= s.len(),
    ensures
        byte_len(s.take(i)) <= byte_len(s),
    decreases s.len() - i,
{
    if i < s.len() {
        lemma_byte_len_grows(s, i + 1);
        assert(s.take(i + 1).drop_last() =~= s.take(i));
    } else {
        assert(s.take(i) =~= s);
    }
}

fn has_byte_len(s: &Vec<char>, n: usize) -> (res: bool)
    ensures
        res == (byte_len(s@) == n),
{
    let mut total: usize = 0;
    let mut i: usize = 0;
    while i < s.len()
        invariant
            i <= s.len(),
            total == byte_len(s@.take(i as int)),
            total <= n,
        decreases s.len() - i,
    {
        let c = s[i] as u32;
        let w: usize = if c < 0x80 {
            1
        } else if c < 0x800 {
            2
        } else if c < 0x10000 {
            3
        } else {
            4
        };
        proof {
            assert(s@.take(i + 1).drop_last() =~= s@.take(i as int));
            assert(s@.take(i + 1).last() == s@[i as int]);
        }
        if w > n - total {
            proof {
                lemma_byte_len_grows(s@, i + 1);
            }
            return false;
        }
        total = total + w;
        i += 1;
    }
    assert(s@.take(s.len() as int) =~= s@);
    total == n
}

/// Whether `s` is a JSON document, as serde_json reads one.
pub uninterp spec fn json_value_text(s: Seq<char>) -> bool;

/// Whether `s` parses as JSON (serde_json `from_str` into a `Value`).
/// The contract names the answer.
#[verifier::external_body]
fn is_json(s: &str) -> (res: bool)
    ensures
        res == json_value_text(s@),
{
    serde_json::from_str::<serde_json::Value>(s).is_ok()
}

/// The time and the text of an entry: a leading `- [HH:MM:SS] ` (its time
/// eight bytes long) gives the time, and a trailing ` {..}` that is JSON
/// (the device context) is dropped from the text.
pub open spec fn entry_parts(raw: Seq<char>) -> (Seq<char>, Seq<char>) {
    let split = if starts_with(raw, "- ["@) {
        let after = raw.subrange(3, raw.len() as int);
        match first_from(after, "] "@, 0) {
            Some(p) => if byte_len(after.subrange(0, p)) == 8 {
                (after.subrange(0, p), after.subrange(p + 2, after.len() as int))
            } else {
                (Seq::<char>::empty(), raw)
            },
            None => (Seq::<char>::empty(), raw),
        }
    } else {
        (Seq::<char>::empty(), raw)
    };
    let rest = split.1;
    let text = match last_below(rest, " {"@, rest.len() as int) {
        Some(pos) => if json_value_text(rest.subrange(pos + 1, rest.len() as int)) {
            rest.subrange(0, pos)
        } else {
            rest
        },
        None => rest,
    };
    (split.0, text)
}

/// Splits an entry into its time (empty when it has none) and its text.
pub fn split_entry(raw: &str) -> (res: (String, String))
    ensures
        res.0@ == entry_parts(raw@).0,
        res.1@ == entry_parts(raw@).1,
{
    proof {
        reveal_strlit("- [");
        reveal_strlit("] ");
        reveal_strlit(" {");
    }
    let chars = chars_of(raw);
    let open = chars_of("- [");
    let close = chars_of("] ");
    let brace = chars_of(" {");
    let mut time: Vec<char> = Vec::new();
    let mut rest: Vec<char> = slice_range(&chars, 0, chars.len());
    assert(chars@.subrange(0, chars@.len() as int) =~= chars@);
    if occurs_at_exec(&chars, &open, 0) {
        let after = slice_range(&chars, 3, chars.len());
        match find_first(&after, &close) {
            Some(p) => {
                proof {
                    if p + 2 > after@.len() {
                        assert(first_from(after@, close@, 0) == Some(p as int));
                        assert(false) by {
                            lemma_first_from_fits(after@, close@, 0);
                        }
                    }
                }
                let head = slice_range(&after, 0, p);
                if has_byte_len(&head, 8) {
                    proof {
                        lemma_first_from_fits(after@, close@, 0);
                    }
                    time = head;
                    rest = slice_range(&after, p + 2, after.len());
                }
            },
            None => {},
        }
    }
    let text = match find_last(&rest, &brace) {
        Some(pos) => {
            let tail = slice_range(&rest, pos + 1, rest.len());
            let tail_s = string_of(&tail);
            if is_json(tail_s.as_str()) {
                slice_range(&rest, 0, pos)
            } else {
                rest
            }
        },
        None => rest,
    };
    (string_of(&time), string_of(&text))
}

proof fn lemma_first_from_fits(s: Seq<char>, pat: Seq<char>, k: int)
    ensures
        first_from(s, pat, k) matches Some(p) ==> k <= p && p + pat.len() <= s.len(),
    decreases s.len() + 1 - k,
{
    if !(k < 0 || k + pat.len() > s.len()) && !occurs_at(s, pat, k) {
        lemma_first_from_fits(s, pat, k + 1);
    }
}

/// A hit of a timeline search: the date of the day file, the entry's time
/// (empty when it has none) and a snippet of its text around the match.
pub struct TimelineSearchHit {
    pub date: String,
    pub time: String,
    pub snippet: String,
}

/// The date, time and snippet of a hit.
pub open spec fn hit_view(h: TimelineSearchHit) -> (Seq<char>, Seq<char>, Seq<char>) {
    (h.date@, h.time@, h.snippet@)
}

/// The entries of one day, with the day's date as it names the file.
pub struct TimelineDay {
    pub date: String,
    pub entries: Vec<String>,
}

/// The hit an entry gives for the lowercased query, if its text matches.
pub open spec fn entry_hit(date: Seq<char>, entry: Seq<char>, query: Seq<char>) -> Option<(Seq<char>, Seq<char>, Seq<char>)> {
    let parts = entry_parts(entry);
    match match_from(parts.1, query, 0) {
        Some(i) => Some((date, parts.0, snippet(parts.1, i, query.len() as int))),
        None => None,
    }
}

/// The hits among the first `n` entries of a day, in entry order.
pub open spec fn day_hits(date: Seq<char>, entries: Seq<String>, query: Seq<char>, n: int) -> Seq<(Seq<char>, Seq<char>, Seq<char>)>
    decreases n,
{
    if n <= 0 {
        Seq::empty()
    } else {
        match entry_hit(date, entries[n - 1]@, query) {
            Some(h) => day_hits(date, entries, query, n - 1).push(h),
            None => day_hits(date, entries, query, n - 1),
        }
    }
}

/// The hits among the first `n` days, in the order of the days.
pub open spec fn days_hits(days: Seq<TimelineDay>, query: Seq<char>, n: int) -> Seq<(Seq<char>, Seq<char>, Seq<char>)>
    decreases n,
{
    if n <= 0 {
        Seq::empty()
    } else {
        days_hits(days, query, n - 1) + day_hits(
            days[n - 1].date@,
            days[n - 1].entries@,
            query,
            days[n - 1].entries@.len() as int,
        )
    }
}

/// The positions, in increasing order, of the first `n` entries of a day
/// that give a hit.
pub open spec fn matching_entries(date: Seq<char>, entries: Seq<String>, query: Seq<char>, n: int) -> Seq<int>
    decreases n,
{
    if n <= 0 {
        Seq::empty()
    } else if entry_hit(date, entries[n - 1]@, query) is Some {
        matching_entries(date, entries, query, n - 1).push(n - 1)
    } else {
        matching_entries(date, entries, query, n - 1)
    }
}

/// Where each hit among the first `n` days comes from: the position of the
/// day and the position of the entry within it.
pub open spec fn hit_origins(days: Seq<TimelineDay>, query: Seq<char>, n: int) -> Seq<(int, int)>
    decreases n,
{
    if n <= 0 {
        Seq::empty()
    } else {
        hit_origins(days, query, n - 1) + matching_entries(
            days[n - 1].date@,
            days[n - 1].entries@,
            query,
            days[n - 1].entries@.len() as int,
        ).map_values(|e: int| (n - 1, e))
    }
}

/// Whether position `a` (day, entry) comes before position `b`.
pub open spec fn origin_before(a: (int, int), b: (int, int)) -> bool {
    a.0 < b.0 || (a.0 == b.0 && a.1 < b.1)
}

proof fn lemma_day_hits_origins(date: Seq<char>, entries: Seq<String>, query: Seq<char>, n: int)
    requires
        0 <= n <= entries.len(),
    ensures
        day_hits(date, entries, query, n).len() == matching_entries(date, entries, query, n).len(),
        forall|k: int|
            0 <= k < matching_entries(date, entries, query, n).len() ==> {
                let e = #[trigger] matching_entries(date, entries, query, n)[k];
                &&& 0 <= e < n
                &&& entry_hit(date, entries[e]@, query) == Some(day_hits(date, entries, query, n)[k])
            },
        forall|k: int, l: int|
            0 <= k < l < matching_entries(date, entries, query, n).len() ==> #[trigger] matching_entries(
                date,
                entries,
                query,
                n,
            )[k] < #[trigger] matching_entries(date, entries, query, n)[l],
        forall|e: int|
            0 <= e < n && #[trigger] entry_hit(date, entries[e]@, query) is Some ==> matching_entries(
                date,
                entries,
                query,
                n,
            ).contains(e),
    decreases n,
{
    if n > 0 {
        lemma_day_hits_origins(date, entries, query, n - 1);
        let po = matching_entries(date, entries, query, n - 1);
        let o = matching_entries(date, entries, query, n);
        let ph = day_hits(date, entries, query, n - 1);
        let h = day_hits(date, entries, query, n);
        if entry_hit(date, entries[n - 1]@, query) is Some {
            assert(o == po.push(n - 1));
            assert(h == ph.push(entry_hit(date, entries[n - 1]@, query)->0));
            assert forall|k: int| 0 <= k < o.len() implies {
                let e = #[trigger] o[k];
                &&& 0 <= e < n
                &&& entry_hit(date, entries[e]@, query) == Some(h[k])
            } by {
                if k < po.len() {
                    assert(o[k] == po[k] && h[k] == ph[k]);
                }
            }
            assert forall|k: int, l: int| 0 <= k < l < o.len() implies #[trigger] o[k] < #[trigger] o[l] by {
                if l < po.len() {
                    assert(o[k] == po[k] && o[l] == po[l]);
                } else {
                    assert(o[k] == po[k]);
                }
            }
            assert forall|e: int| 0 <= e < n && #[trigger] entry_hit(date, entries[e]@, query) is Some implies o.contains(e) by {
                if e < n - 1 {
                    let k = choose|k: int| 0 <= k < po.len() && po[k] == e;
                    assert(o[k] == po[k]);
                } else {
                    assert(o[o.len() - 1] == e);
                }
            }
        } else {
            assert forall|e: int| 0 <= e < n && #[trigger] entry_hit(date, entries[e]@, query) is Some implies o.contains(e) by {
                if e == n - 1 {
                } else {
                }
            }
        }
    }
}

/// The hits of a search come from the matching entries, each matching
/// entry exactly once, in the order of the days given and, within a day,
/// in the order of its entries: hit `k` is the hit of the entry at
/// `hit_origins[k]`, the origins strictly increase (day first, then
/// entry), and every entry that matches the query is the origin of a hit.
pub proof fn law_search_hits_follow_days_and_entries(days: Seq<TimelineDay>, query: Seq<char>, n: int)
    requires
        0 <= n <= days.len(),
    ensures
        days_hits(days, query, n).len() == hit_origins(days, query, n).len(),
        forall|k: int|
            0 <= k < hit_origins(days, query, n).len() ==> {
                let o = #[trigger] hit_origins(days, query, n)[k];
                &&& 0 <= o.0 < n
                &&& 0 <= o.1 < days[o.0].entries@.len()
                &&& entry_hit(days[o.0].date@, days[o.0].entries@[o.1]@, query) == Some(days_hits(days, query, n)[k])
            },
        forall|k: int, l: int|
            0 <= k < l < hit_origins(days, query, n).len() ==> origin_before(
                #[trigger] hit_origins(days, query, n)[k],
                #[trigger] hit_origins(days, query, n)[l],
            ),
        forall|d: int, e: int|
            0 <= d < n && 0 <= e < days[d].entries@.len() && #[trigger] entry_hit(
                days[d].date@,
                days[d].entries@[e]@,
                query,
            ) is Some ==> hit_origins(days, query, n).contains((d, e)),
    decreases n,
{
    if n > 0 {
        law_search_hits_follow_days_and_entries(days, query, n - 1);
        let day = days[n - 1];
        let m = day.entries@.len() as int;
        lemma_day_hits_origins(day.date@, day.entries@, query, m);
        let po = hit_origins(days, query, n - 1);
        let ph = days_hits(days, query, n - 1);
        let mo = matching_entries(day.date@, day.entries@, query, m);
        let dh = day_hits(day.date@, day.entries@, query, m);
        let blk = mo.map_values(|e: int| (n - 1, e));
        let o = hit_origins(days, query, n);
        let h = days_hits(days, query, n);
        assert(o == po + blk);
        assert(h == ph + dh);
        assert forall|k: int| 0 <= k < o.len() implies {
            let x = #[trigger] o[k];
            &&& 0 <= x.0 < n
            &&& 0 <= x.1 < days[x.0].entries@.len()
            &&& entry_hit(days[x.0].date@, days[x.0].entries@[x.1]@, query) == Some(h[k])
        } by {
            if k < po.len() {
                assert(o[k] == po[k] && h[k] == ph[k]);
            } else {
                let j = k - po.len();
                assert(o[k] == blk[j] && blk[j] == (n - 1, mo[j]) && h[k] == dh[j]);
            }
        }
        assert forall|k: int, l: int| 0 <= k < l < o.len() implies origin_before(#[trigger] o[k], #[trigger] o[l]) by {
            if l < po.len() {
                assert(o[k] == po[k] && o[l] == po[l]);
            } else if k < po.len() {
                assert(o[k] == po[k]);
                assert(o[l] == blk[l - po.len()]);
            } else {
                assert(o[k] == blk[k - po.len()] && o[l] == blk[l - po.len()]);
                assert(mo[k - po.len()] < mo[l - po.len()]);
            }
        }
        assert forall|d: int, e: int|
            0 <= d < n && 0 <= e < days[d].entries@.len() && #[trigger] entry_hit(
                days[d].date@,
                days[d].entries@[e]@,
                query,
            ) is Some implies o.contains((d, e)) by {
            if d < n - 1 {
                let k = choose|k: int| 0 <= k < po.len() && po[k] == (d, e);
                assert(o[k] == po[k]);
            } else {
                assert(mo.contains(e));
                let j = choose|j: int| 0 <= j < mo.len() && mo[j] == e;
                assert(o[po.len() + j] == blk[j]);
            }
        }
    }
}

/// The lowercase form of the trimmed query; none when it is blank.
pub open spec fn search_query(query: Seq<char>) -> Option<Seq<char>> {
    if trim(query).len() == 0 {
        None
    } else {
        Some(lowercase_seq(trim(query)))
    }
}

/// The query to search with: trimmed and lowercased; none when blank.
pub(crate) fn prepare_query(query: &str) -> (res: Option<Vec<char>>)
    ensures
        match search_query(query@) {
            Some(q) => res matches Some(v) && v@ == q,
            None => res is None,
        },
{
    let qc = chars_of(query);
    let (a, b) = trim_bounds(&qc, 0, qc.len());
    assert(qc@.subrange(0, qc@.len() as int) =~= qc@);
    if a == b {
        return None;
    }
    let trimmed = string_of(&slice_range(&qc, a, b));
    Some(lowercase_chars(trimmed.as_str()))
}

fn copy_string(s: &String) -> (res: String)
    ensures
        res@ == s@,
{
    String::from_str(s.as_str())
}

/// Case-insensitive search over the text of timeline entries (the time
/// prefix and the device context excluded), given the days in the order
/// to report them (newest first) and each day's entries in file order.
/// A blank query finds nothing.
pub fn search(days: &[TimelineDay], query: &str) -> (res: Vec<TimelineSearchHit>)
    ensures
        match search_query(query@) {
            None => res@.len() == 0,
            Some(q) => res@.map_values(|h: TimelineSearchHit| hit_view(h)) == days_hits(
                days@,
                q,
                days@.len() as int,
            ),
        },
{
    let q = match prepare_query(query) {
        Some(q) => q,
        None => {
            return Vec::new();
        },
    };
    let mut hits: Vec<TimelineSearchHit> = Vec::new();
    let mut d: usize = 0;
    assert(hits@.map_values(|h: TimelineSearchHit| hit_view(h)) =~= days_hits(days@, q@, 0));
    while d < days.len()
        invariant
            d <= days.len(),
            hits@.map_values(|h: TimelineSearchHit| hit_view(h)) == days_hits(days@, q@, d as int),
        decreases days.len() - d,
    {
        let day = &days[d];
        let ghost base = hits@.map_values(|h: TimelineSearchHit| hit_view(h));
        let mut e: usize = 0;
        assert(base + day_hits(day.date@, day.entries@, q@, 0) =~= base);
        while e < day.entries.len()
            invariant
                e <= day.entries.len(),
                day == &days@[d as int],
                hits@.map_values(|h: TimelineSearchHit| hit_view(h)) == base + day_hits(
                    day.date@,
                    day.entries@,
                    q@,
                    e as int,
                ),
            decreases day.entries.len() - e,
        {
            let ghost before = hits@;
            let (time, text) = split_entry(day.entries[e].as_str());
            let text_chars = chars_of(text.as_str());
            let found = find_match(&text_chars, &q);
            proof {
                lemma_first_match_is_match_from(text_chars@, q@, found);
            }
            match found {
                Some(i) => {
                    let snip = make_snippet(&text_chars, i, q.len());
                    hits.push(TimelineSearchHit { date: copy_string(&day.date), time, snippet: snip });
                    assert(hits@.map_values(|h: TimelineSearchHit| hit_view(h)) =~= before.map_values(
                        |h: TimelineSearchHit| hit_view(h),
                    ).push(hit_view(hits@.last())));
                },
                None => {},
            }
            e += 1;
        }
        d += 1;
    }
    hits
}

/// Search over the days of the timeline, under the name the timeline
/// module gives it.
pub fn search_timeline(days: &[TimelineDay], query: &str) -> (res: Vec<TimelineSearchHit>)
    ensures
        match search_query(query@) {
            None => res@.len() == 0,
            Some(q) => res@.map_values(|h: TimelineSearchHit| hit_view(h)) == days_hits(
                days@,
                q,
                days@.len() as int,
            ),
        },
{
    search(days, query)
}

/// The timeline of one base directory.
pub struct Timeline {
    base_dir: String,
}

impl Timeline {
    /// The timeline kept under `base_dir`.
    pub fn new(base_dir: String) -> (res: Timeline)
        ensures
            res.base_dir() == base_dir@,
    {
        Timeline { base_dir }
    }

    /// The base directory.
    pub closed spec fn base_dir(&self) -> Seq<char> {
        self.base_dir@
    }

    /// The path of a day's file; none when chrono cannot render the day.
    pub fn file_path(&self, day: i32) -> (res: Option<String>)
        ensures
            match day_file_name(day) {
                Some(n) => res matches Some(p) && p@ == join(timeline_dir_of(self.base_dir()), n),
                None => res is None,
            },
    {
        timeline_file_path(self.base_dir.as_str(), day)
    }
}

/// The pieces joined back with newlines between them.
pub open spec fn joined(pieces: Seq<Seq<char>>) -> Seq<char>
    decreases pieces.len(),
{
    if pieces.len() <= 1 {
        if pieces.len() == 1 { pieces[0] } else { Seq::empty() }
    } else {
        joined(pieces.drop_last()) + seq!['\n'] + pieces.last()
    }
}

proof fn lemma_joined_pieces(s: Seq<char>)
    ensures
        joined(newline_pieces(s)) == s,
    decreases s.len(),
{
    if s.len() > 0 {
        let init = s.drop_last();
        lemma_joined_pieces(init);
        lemma_newline_pieces_nonempty(init);
        let p = newline_pieces(init);
        if s.last() == '\n' {
            assert(newline_pieces(s).drop_last() =~= p);
            assert(s =~= init + seq!['\n'] + Seq::<char>::empty());
        } else {
            let q = newline_pieces(s);
            assert(q == p.update(p.len() - 1, p.last().push(s.last())));
            if p.len() == 1 {
                assert(q[0] == p[0].push(s.last()));
                assert(s =~= init.push(s.last()));
            } else {
                assert(q.drop_last() =~= p.drop_last());
                assert(joined(p) == joined(p.drop_last()) + seq!['\n'] + p.last());
                assert(s =~= init.push(s.last()));
                assert(joined(q) =~= joined(p).push(s.last()));
            }
        }
    } else {
        assert(newline_pieces(s) =~= seq![Seq::<char>::empty()]);
    }
}

/// Whether the last piece of `s` is empty: `s` is empty or ends with a
/// newline.
proof fn lemma_last_piece_empty(s: Seq<char>)
    requires
        s.len() == 0 || s.last() == '\n',
    ensures
        newline_pieces(s).last().len() == 0,
{
    if s.len() > 0 {
        lemma_newline_pieces_nonempty(s.drop_last());
    }
}

proof fn lemma_pieces_concat(a: Seq<char>, b: Seq<char>)
    requires
        a.len() == 0 || a.last() == '\n',
    ensures
        newline_pieces(a + b) == newline_pieces(a).drop_last() + newline_pieces(b),
    decreases b.len(),
{
    lemma_newline_pieces_nonempty(a);
    lemma_last_piece_empty(a);
    if b.len() == 0 {
        assert(a + b =~= a);
        assert(newline_pieces(b) =~= seq![Seq::<char>::empty()]);
        assert(newline_pieces(a) =~= newline_pieces(a).drop_last() + seq![Seq::<char>::empty()]);
    } else {
        let b0 = b.drop_last();
        lemma_pieces_concat(a, b0);
        lemma_newline_pieces_nonempty(b0);
        assert((a + b).drop_last() =~= a + b0);
        assert((a + b).last() == b.last());
        let x = newline_pieces(a).drop_last();
        let y = newline_pieces(b0);
        if b.last() == '\n' {
            assert((x + y).push(Seq::<char>::empty()) =~= x + y.push(Seq::<char>::empty()));
        } else {
            assert((x + y).update((x + y).len() - 1, (x + y).last().push(b.last())) =~= x + y.update(
                y.len() - 1,
                y.last().push(b.last()),
            ));
        }
    }
}

/// The lines of a text that is empty or ends with a newline: all its
/// pieces but the last (empty) one, each without a trailing `\r`.
proof fn lemma_lines_of_closed(s: Seq<char>)
    requires
        s.len() == 0 || s.last() == '\n',
    ensures
        lines_of(s) == newline_pieces(s).drop_last().map_values(|p: Seq<char>| strip_cr(p)),
{
    lemma_newline_pieces_nonempty(s);
    lemma_last_piece_empty(s);
    assert(lines_of(s) =~= newline_pieces(s).drop_last().map_values(|p: Seq<char>| strip_cr(p)));
}

/// Whether `line` reads back as one timeline entry: its first line starts
/// with `- [`, no later line does, and none of its lines is empty or ends
/// with `\r`.
pub open spec fn single_entry(line: Seq<char>) -> bool {
    let p = newline_pieces(line);
    &&& starts_with(p[0], "- ["@)
    &&& forall|k: int| 0 <= k < p.len() ==> (#[trigger] p[k]).len() > 0 && p[k].last() != '\r'
    &&& forall|k: int| 1 <= k < p.len() ==> !starts_with(#[trigger] p[k], "- ["@)
}

proof fn lemma_group_entry(lines: Seq<Seq<char>>, p: Seq<Seq<char>>, n: int)
    requires
        1 <= n <= p.len(),
        starts_with(p[0], "- ["@),
        forall|k: int| 0 <= k < p.len() ==> (#[trigger] p[k]).len() > 0,
        forall|k: int| 1 <= k < p.len() ==> !starts_with(#[trigger] p[k], "- ["@),
    ensures
        group_lines(lines + p.take(n)) == group_lines(lines).push(joined(p.take(n))),
    decreases n,
{
    let all = lines + p.take(n);
    assert(all.drop_last() =~= lines + p.take(n - 1));
    assert(all.last() == p[n - 1]);
    if n == 1 {
        assert(p.take(0) =~= Seq::<Seq<char>>::empty());
        assert(lines + p.take(0) =~= lines);
        assert(joined(p.take(1)) == p[0]);
    } else {
        lemma_group_entry(lines, p, n - 1);
        assert(p.take(n).drop_last() =~= p.take(n - 1));
        let prev = group_lines(lines).push(joined(p.take(n - 1)));
        assert(prev.update(prev.len() - 1, prev.last() + seq!['\n'] + p[n - 1]) =~= group_lines(lines).push(
            joined(p.take(n)),
        ));
    }
}

/// What a read gives back of a save: after saving a line that reads back
/// as one entry to a day file that is empty or ends with a newline (as
/// saving always leaves it), the file's entries are the entries it had,
/// then that line; and the file again ends with a newline.
pub proof fn law_read_after_save(content: Seq<char>, line: Seq<char>)
    requires
        content.len() == 0 || content.last() == '\n',
        single_entry(line),
    ensures
        group_lines(lines_of(appended(content, line))) == group_lines(lines_of(content)).push(line),
        appended(content, line).last() == '\n',
{
    let s = appended(content, line);
    assert(s =~= content + (line + seq!['\n']));
    lemma_pieces_concat(content, line + seq!['\n']);
    lemma_newline_pieces_nonempty(line);
    let p = newline_pieces(line);
    let tail = seq!['\n'];
    assert(newline_pieces(line + tail) == p.push(Seq::<char>::empty())) by {
        assert((line + tail).drop_last() =~= line);
        assert((line + tail).last() == '\n');
    }
    lemma_lines_of_closed(content);
    lemma_lines_of_closed(s);
    let pc = newline_pieces(content).drop_last();
    assert(newline_pieces(s) =~= pc + p.push(Seq::<char>::empty()));
    assert(newline_pieces(s).drop_last() =~= pc + p);
    assert forall|k: int| 0 <= k < p.len() implies strip_cr(#[trigger] p[k]) == p[k] by {}
    assert(lines_of(s) =~= lines_of(content) + p) by {
        assert((pc + p).map_values(|q: Seq<char>| strip_cr(q)) =~= pc.map_values(|q: Seq<char>| strip_cr(q)) + p);
    }
    lemma_group_entry(lines_of(content), p, p.len() as int);
    assert(p.take(p.len() as int) =~= p);
    lemma_joined_pieces(line);
}

proof fn lemma_pieces_without_newline(s: Seq<char>)
    requires
        !has_char(s, '\n'),
    ensures
        newline_pieces(s) == seq![s],
    decreases s.len(),
{
    if s.len() > 0 {
        let s0 = s.drop_last();
        assert(!has_char(s0, '\n')) by {
            if has_char(s0, '\n') {
                let i = choose|i: int| 0 <= i < s0.len() && s0[i] == '\n';
                assert(s[i] == '\n');
            }
        }
        lemma_pieces_without_newline(s0);
        assert(s[s.len() - 1] == s.last());
        assert(s0.push(s.last()) =~= s);
    } else {
        assert(s =~= Seq::<char>::empty());
        assert(newline_pieces(s) =~= seq![s]);
    }
}

proof fn lemma_pieces_append(b: Seq<char>, c: Seq<char>)
    requires
        !has_char(c, '\n'),
    ensures
        newline_pieces(b + c) == newline_pieces(b).update(
            newline_pieces(b).len() - 1,
            newline_pieces(b).last() + c,
        ),
        newline_pieces(b + c).len() == newline_pieces(b).len(),
    decreases c.len(),
{
    lemma_newline_pieces_nonempty(b);
    let p = newline_pieces(b);
    if c.len() == 0 {
        assert(b + c =~= b);
        assert(p.last() + c =~= p.last());
        assert(p.update(p.len() - 1, p.last()) =~= p);
    } else {
        let c0 = c.drop_last();
        assert(!has_char(c0, '\n')) by {
            if has_char(c0, '\n') {
                let i = choose|i: int| 0 <= i < c0.len() && c0[i] == '\n';
                assert(c[i] == '\n');
            }
        }
        lemma_pieces_append(b, c0);
        assert((b + c).drop_last() =~= b + c0);
        assert((b + c).last() == c.last());
        assert(c[c.len() - 1] == c.last());
        let q = newline_pieces(b + c0);
        assert(c0.push(c.last()) =~= c);
        assert(q.last() == p.last() + c0);
        assert(q.last().push(c.last()) =~= p.last() + c);
        assert(q.update(q.len() - 1, q.last().push(c.last())) =~= p.update(p.len() - 1, p.last() + c));
    }
}

proof fn lemma_pieces_prepend(a: Seq<char>, b: Seq<char>)
    requires
        !has_char(a, '\n'),
    ensures
        newline_pieces(a + b) == newline_pieces(b).update(0, a + newline_pieces(b)[0]),
        newline_pieces(a + b).len() == newline_pieces(b).len(),
    decreases b.len(),
{
    lemma_newline_pieces_nonempty(b);
    if b.len() == 0 {
        assert(a + b =~= a);
        lemma_pieces_without_newline(a);
        assert(newline_pieces(b) =~= seq![Seq::<char>::empty()]);
        assert(a + Seq::<char>::empty() =~= a);
        assert(seq![Seq::<char>::empty()].update(0, a) =~= seq![a]);
    } else {
        let b0 = b.drop_last();
        lemma_pieces_prepend(a, b0);
        lemma_newline_pieces_nonempty(b0);
        assert((a + b).drop_last() =~= a + b0);
        assert((a + b).last() == b.last());
        let p0 = newline_pieces(b0);
        if b.last() == '\n' {
            assert(p0.update(0, a + p0[0]).push(Seq::<char>::empty()) =~= p0.push(Seq::<char>::empty()).update(
                0,
                a + p0[0],
            ));
        } else {
            let q = p0.update(0, a + p0[0]);
            let p = p0.update(p0.len() - 1, p0.last().push(b.last()));
            if p0.len() == 1 {
                assert(q.update(q.len() - 1, q.last().push(b.last())) =~= p.update(0, a + p[0])) by {
                    assert((a + p0[0]).push(b.last()) =~= a + p0[0].push(b.last()));
                }
            } else {
                assert(q.update(q.len() - 1, q.last().push(b.last())) =~= p.update(0, a + p[0]));
            }
        }
    }
}

proof fn lemma_no_newline_concat(a: Seq<char>, b: Seq<char>)
    requires
        !has_char(a, '\n'),
        !has_char(b, '\n'),
    ensures
        !has_char(a + b, '\n'),
{
    if has_char(a + b, '\n') {
        let i = choose|i: int| 0 <= i < (a + b).len() && (a + b)[i] == '\n';
        if i < a.len() {
            assert(a[i] == '\n');
        } else {
            assert(b[i - a.len()] == '\n');
        }
    }
}

proof fn lemma_decimal_digits(n: nat)
    ensures
        !has_char(decimal(n), '\n'),
        decimal(n).len() > 0,
    decreases n,
{
    if n >= 10 {
        lemma_decimal_digits(n / 10);
        lemma_no_newline_concat(decimal(n / 10), seq![digit_char((n % 10) as int)]);
        assert(decimal(n / 10) + seq![digit_char((n % 10) as int)] =~= decimal(n));
    } else {
        if has_char(decimal(n), '\n') {
            let i = choose|i: int| 0 <= i < decimal(n).len() && decimal(n)[i] == '\n';
        }
    }
}

/// Whether a text saved to the timeline reads back as one entry: no line
/// after its first starts with `- [`, its lines between the first and the
/// last are not empty, and no line but the last ends with `\r`.
pub open spec fn entry_text(text: Seq<char>) -> bool {
    let p = newline_pieces(text);
    &&& forall|k: int| 0 <= k < p.len() - 1 ==> (#[trigger] p[k]).len() == 0 || p[k].last() != '\r'
    &&& forall|k: int| 1 <= k < p.len() - 1 ==> (#[trigger] p[k]).len() > 0
    &&& forall|k: int| 1 <= k < p.len() ==> !starts_with(#[trigger] p[k], "- ["@)
}

/// A saved text reads back as it was written: after saving the timeline
/// line of a text that reads back as one entry (see `entry_text`), at a
/// clock time without newlines, the day file's entries are the entries it
/// had, then exactly that line.
pub proof fn law_saved_text_reads_back(content: Seq<char>, time: Seq<char>, text: Seq<char>, context: Context)
    requires
        content.len() == 0 || content.last() == '\n',
        !has_char(time, '\n'),
        entry_text(text),
    ensures
        group_lines(lines_of(appended(content, timeline_line(time, text, context)))) == group_lines(
            lines_of(content),
        ).push(timeline_line(time, text, context)),
{
    reveal_strlit("- [");
    reveal_strlit("] ");
    reveal_strlit(" { \"battery\": ");
    reveal_strlit(", \"is_charging\": ");
    reveal_strlit("true");
    reveal_strlit("false");
    reveal_strlit(" }");
    let open = "- ["@;
    let close = "] "@;
    let a = open + time + close;
    let dec = decimal(context.battery as nat);
    let suffix = " { \"battery\": "@ + dec + ", \"is_charging\": "@ + bool_text(context.is_charging) + " }"@;
    let line = timeline_line(time, text, context);
    assert(line =~= a + text + suffix);
    assert(forall|i: int| 0 <= i < open.len() ==> open[i] != '\n');
    assert(forall|i: int| 0 <= i < close.len() ==> close[i] != '\n');
    assert(!has_char(open, '\n'));
    assert(!has_char(close, '\n'));
    lemma_no_newline_concat(open, time);
    lemma_no_newline_concat(open + time, close);
    lemma_decimal_digits(context.battery as nat);
    let s1 = " { \"battery\": "@;
    let s2 = ", \"is_charging\": "@;
    let s3 = bool_text(context.is_charging);
    let s4 = " }"@;
    assert(forall|i: int| 0 <= i < s1.len() ==> s1[i] != '\n');
    assert(forall|i: int| 0 <= i < s2.len() ==> s2[i] != '\n');
    assert(forall|i: int| 0 <= i < s3.len() ==> s3[i] != '\n');
    assert(forall|i: int| 0 <= i < s4.len() ==> s4[i] != '\n');
    assert(!has_char(s1, '\n'));
    assert(!has_char(s2, '\n'));
    assert(!has_char(s3, '\n'));
    assert(!has_char(s4, '\n'));
    lemma_no_newline_concat(s1, dec);
    lemma_no_newline_concat(s1 + dec, s2);
    lemma_no_newline_concat(s1 + dec + s2, s3);
    lemma_no_newline_concat(s1 + dec + s2 + s3, s4);
    lemma_pieces_prepend(a, text);
    lemma_pieces_append(a + text, suffix);
    lemma_newline_pieces_nonempty(text);
    let p = newline_pieces(text);
    let q0 = p.update(0, a + p[0]);
    let q = newline_pieces(line);
    assert(q == q0.update(q0.len() - 1, q0.last() + suffix));
    assert(suffix[suffix.len() - 1] == '}');
    assert(suffix[0] == ' ' && suffix[1] == '{');
    assert(starts_with(a, "- ["@)) by {
        assert(a.subrange(0, 3) =~= open);
    }
    assert forall|k: int| 0 <= k < q.len() implies (#[trigger] q[k]).len() > 0 && q[k].last() != '\r' by {
        if k == q.len() - 1 {
            assert(q[k] == q0.last() + suffix);
            assert((q0.last() + suffix).last() == suffix[suffix.len() - 1]);
        } else if k == 0 {
            assert(q[0] == a + p[0]);
            if p[0].len() > 0 {
                assert((a + p[0]).last() == p[0].last());
            } else {
                assert(a + p[0] =~= a);
                assert(a.last() == close[1]);
            }
        } else {
            assert(q[k] == p[k]);
        }
    }
    assert forall|k: int| 1 <= k < q.len() implies !starts_with(#[trigger] q[k], "- ["@) by {
        if k == q.len() - 1 {
            let lastp = p[k];
            let x = lastp + suffix;
            assert(q[k] == x);
            assert(!starts_with(lastp, "- ["@));
            if starts_with(x, open) {
                let h = x.subrange(0, 3);
                assert(h == open);
                assert(h[0] == x[0] && h[1] == x[1] && h[2] == x[2]);
                assert(open[0] == '-' && open[1] == ' ' && open[2] == '[');
                if lastp.len() >= 3 {
                    assert(lastp.subrange(0, 3) =~= h);
                } else if lastp.len() == 2 {
                    assert(x[2] == suffix[0]);
                } else if lastp.len() == 1 {
                    assert(x[2] == suffix[1]);
                } else {
                    assert(x[0] == suffix[0]);
                }
            }
        } else {
            assert(q[k] == p[k]);
        }
    }
    assert(starts_with(q[0], "- ["@)) by {
        if q.len() == 1 {
            assert(q[0] == a + p[0] + suffix);
            assert((a + p[0] + suffix).subrange(0, 3) =~= a.subrange(0, 3));
        } else {
            assert(q[0] == a + p[0]);
            assert((a + p[0]).subrange(0, 3) =~= a.subrange(0, 3));
        }
    }
    law_read_after_save(content, line);
}

} // verus!
