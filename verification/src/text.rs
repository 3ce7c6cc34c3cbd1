//! Character-level text helpers shared by note and timeline search.
//! Working on characters (not bytes) keeps multi-byte text safe to cut.
use vstd::prelude::*;

verus! {

/// Characters kept before a match when building a snippet.
pub const SNIPPET_BEFORE: usize = 30;

/// Characters kept after a match when building a snippet.
pub const SNIPPET_AFTER: usize = 50;

/// Appends one character to a `String` (std `String::push`).
#[verifier::external_body]
pub(crate) fn push_char(s: &mut String, c: char)
    ensures
        final(s)@ == old(s)@.push(c),
{
    s.push(c);
}

/// The characters of a string slice, in order.
pub fn chars_of(s: &str) -> (res: Vec<char>)
    ensures
        res@ == s@,
{
    let mut res: Vec<char> = Vec::new();
    for c in it: s.chars()
        invariant
            res@ == it.seq().take(it.index() as int),
    {
        res.push(c);
    }
    res
}

/// A `String` holding the given characters, in order.
pub fn string_of(chars: &[char]) -> (res: String)
    ensures
        res@ == chars@,
{
    let mut res = String::new();
    let mut i: usize = 0;
    while i < chars.len()
        invariant
            i <= chars.len(),
            res@ == chars@.take(i as int),
        decreases chars.len() - i,
    {
        push_char(&mut res, chars[i]);
        assert(chars@.take(i + 1) == chars@.take(i as int).push(chars@[i as int]));
        i += 1;
    }
    assert(chars@.take(chars.len() as int) == chars@);
    res
}

/// Whether two character slices hold the same characters.
pub fn chars_equal(a: &[char], b: &[char]) -> (res: bool)
    ensures
        res == (a@ == b@),
{
    if a.len() != b.len() {
        return false;
    }
    let mut i: usize = 0;
    while i < a.len()
        invariant
            i <= a.len(),
            a.len() == b.len(),
            forall|j: int| 0 <= j < i ==> a@[j] == b@[j],
        decreases a.len() - i,
    {
        if a[i] != b[i] {
            return false;
        }
        i += 1;
    }
    assert(a@ =~= b@);
    true
}

/// What std's `char::to_lowercase` yields for a character: the full
/// Unicode lowercase mapping, one or more characters.
pub uninterp spec fn lowercase_mapping(c: char) -> Seq<char>;

/// The lowercase form of one character (std `char::to_lowercase`). The
/// contract names the Unicode mapping.
#[verifier::external_body]
fn char_to_lowercase(c: char) -> (res: Vec<char>)
    ensures
        res@ == lowercase_mapping(c),
{
    c.to_lowercase().collect()
}

/// Whether a character is ASCII.
pub open spec fn is_ascii_char(c: char) -> bool {
    (c as u32) < 128
}

/// The ASCII lowercase of a character: `'A'..='Z'` become `'a'..='z'`,
/// every other character stays as it is.
pub open spec fn ascii_lower(c: char) -> char {
    if 65 <= (c as u32) <= 90 {
        ((c as u32) + 32) as char
    } else {
        c
    }
}

/// The lowercase form of one character: for an ASCII character its ASCII
/// lowercase, as std documents for `char::to_lowercase`; for any other
/// character its Unicode lowercase mapping, one or more characters.
pub open spec fn lower_char(c: char) -> Seq<char> {
    if is_ascii_char(c) {
        seq![ascii_lower(c)]
    } else {
        lowercase_mapping(c)
    }
}

/// The lowercase form of a character sequence: each character replaced by
/// its lowercase form.
pub open spec fn lowercase_seq(s: Seq<char>) -> Seq<char>
    decreases s.len(),
{
    if s.len() == 0 {
        Seq::<char>::empty()
    } else {
        lowercase_seq(s.drop_last()) + lower_char(s.last())
    }
}

proof fn lemma_lowercase_seq_push(s: Seq<char>, c: char)
    ensures
        lowercase_seq(s.push(c)) == lowercase_seq(s) + lower_char(c),
{
    assert(s.push(c).drop_last() == s);
}

/// On ASCII text lowercasing keeps the length and lowercases each
/// character on its own.
pub proof fn lemma_lowercase_ascii(s: Seq<char>)
    requires
        forall|i: int| 0 <= i < s.len() ==> is_ascii_char(#[trigger] s[i]),
    ensures
        lowercase_seq(s) == s.map_values(|c: char| ascii_lower(c)),
    decreases s.len(),
{
    if s.len() > 0 {
        let t = s.drop_last();
        assert forall|i: int| 0 <= i < t.len() implies is_ascii_char(#[trigger] t[i]) by {
            assert(t[i] == s[i]);
        }
        lemma_lowercase_ascii(t);
        assert(is_ascii_char(s[s.len() - 1]));
        assert(lowercase_seq(s) =~= s.map_values(|c: char| ascii_lower(c)));
    } else {
        assert(lowercase_seq(s) =~= s.map_values(|c: char| ascii_lower(c)));
    }
}

/// The lowercase form of one character.
fn lower_one(c: char) -> (res: Vec<char>)
    ensures
        res@ == lower_char(c),
{
    let code = c as u32;
    if code < 128 {
        let mut v: Vec<char> = Vec::new();
        if 65 <= code && code <= 90 {
            let b: u8 = (code + 32) as u8;
            v.push(b as char);
        } else {
            v.push(c);
        }
        assert(v@ =~= lower_char(c));
        v
    } else {
        char_to_lowercase(c)
    }
}

fn lowercase_of_slice(s: &[char]) -> (res: Vec<char>)
    ensures
        res@ == lowercase_seq(s@),
{
    let mut res: Vec<char> = Vec::new();
    let mut i: usize = 0;
    while i < s.len()
        invariant
            i <= s.len(),
            res@ == lowercase_seq(s@.take(i as int)),
        decreases s.len() - i,
    {
        let mut low = lower_one(s[i]);
        proof {
            assert(s@.take(i + 1) == s@.take(i as int).push(s@[i as int]));
            lemma_lowercase_seq_push(s@.take(i as int), s@[i as int]);
        }
        res.append(&mut low);
        i += 1;
    }
    assert(s@.take(s.len() as int) == s@);
    res
}

/// Lowercases a string into characters, for use with `find_match`.
pub fn lowercase_chars(s: &str) -> (res: Vec<char>)
    ensures
        res@ == lowercase_seq(s@),
        (forall|i: int| 0 <= i < s@.len() ==> is_ascii_char(#[trigger] s@[i])) ==> res@ == s@.map_values(
            |c: char| ascii_lower(c),
        ),
{
    let chars = chars_of(s);
    proof {
        if forall|i: int| 0 <= i < s@.len() ==> is_ascii_char(#[trigger] s@[i]) {
            lemma_lowercase_ascii(s@);
        }
    }
    lowercase_of_slice(&chars)
}

/// Whether the window of `haystack` starting at `start`, as long as `query`,
/// lowercases to exactly `query`.
pub open spec fn window_matches(haystack: Seq<char>, query: Seq<char>, start: int) -> bool {
    &&& 0 <= start
    &&& start + query.len() <= haystack.len()
    &&& lowercase_seq(haystack.subrange(start, start + query.len())) == query
}

/// The result `find_match` gives: the first start of a matching window,
/// none for an empty query.
pub open spec fn first_match(haystack: Seq<char>, query: Seq<char>, result: Option<usize>) -> bool {
    match result {
        Some(i) => {
            &&& query.len() > 0
            &&& window_matches(haystack, query, i as int)
            &&& forall|j: int| 0 <= j < i ==> !window_matches(haystack, query, j)
        },
        None => query.len() == 0 || forall|j: int| !window_matches(haystack, query, j),
    }
}

/// Finds the first case-insensitive occurrence of `query` (already
/// lowercased) in `haystack`, comparing character by character.
pub fn find_match(haystack: &[char], query: &[char]) -> (res: Option<usize>)
    ensures
        first_match(haystack@, query@, res),
{
    if query.len() == 0 || haystack.len() < query.len() {
        return None;
    }
    let last = haystack.len() - query.len();
    let mut start: usize = 0;
    while start <= last
        invariant
            last == haystack.len() - query.len(),
            query.len() > 0,
            start <= last + 1,
            forall|j: int| 0 <= j < start ==> !window_matches(haystack@, query@, j),
        decreases last + 1 - start,
    {
        let window = slice_range(haystack, start, start + query.len());
        let low = lowercase_of_slice(&window);
        if chars_equal(&low, query) {
            return Some(start);
        }
        start += 1;
    }
    None
}

/// A copy of `s[from..to]`.
pub fn slice_range(s: &[char], from: usize, to: usize) -> (res: Vec<char>)
    requires
        from <= to <= s.len(),
    ensures
        res@ == s@.subrange(from as int, to as int),
{
    let mut res: Vec<char> = Vec::new();
    let mut i = from;
    while i < to
        invariant
            from <= i <= to,
            to <= s.len(),
            res@ == s@.subrange(from as int, i as int),
        decreases to - i,
    {
        res.push(s[i]);
        i += 1;
    }
    res
}

/// Newlines become spaces; every other character is kept.
pub open spec fn collapse_newline(c: char) -> char {
    if c == '\n' { ' ' } else { c }
}

/// The snippet `make_snippet` cuts: up to `SNIPPET_BEFORE` characters before
/// the match and `SNIPPET_AFTER` after it, newlines collapsed to spaces, and
/// an ellipsis on each side where text was dropped.
pub open spec fn snippet(chars: Seq<char>, match_index: int, match_len: int) -> Seq<char> {
    let start = if match_index >= SNIPPET_BEFORE { match_index - SNIPPET_BEFORE } else { 0 };
    let end = if match_index + match_len + SNIPPET_AFTER <= chars.len() {
        match_index + match_len + SNIPPET_AFTER
    } else {
        chars.len() as int
    };
    let body = chars.subrange(start, end).map_values(|c: char| collapse_newline(c));
    let front = if start > 0 { seq!['…'] } else { Seq::<char>::empty() };
    let back = if end < chars.len() { seq!['…'] } else { Seq::<char>::empty() };
    front + body + back
}

/// Cuts a window around a match, collapsing newlines and adding ellipses
/// where text was dropped on either side.
pub fn make_snippet(chars: &[char], match_index: usize, match_len: usize) -> (res: String)
    requires
        match_index <= SNIPPET_BEFORE || match_index - SNIPPET_BEFORE <= chars.len(),
    ensures
        res@ == snippet(chars@, match_index as int, match_len as int),
{
    let start = if match_index >= SNIPPET_BEFORE { match_index - SNIPPET_BEFORE } else { 0 };
    let end = if match_index <= chars.len() && match_len <= chars.len() - match_index
        && SNIPPET_AFTER <= chars.len() - match_index - match_len {
        match_index + match_len + SNIPPET_AFTER
    } else {
        chars.len()
    };
    let mut out = String::new();
    if start > 0 {
        push_char(&mut out, '…');
    }
    let ghost front = out@;
    let mut i = start;
    while i < end
        invariant
            start <= i <= end,
            end <= chars.len(),
            out@ == front + chars@.subrange(start as int, i as int).map_values(
                |c: char| collapse_newline(c),
            ),
        decreases end - i,
    {
        let c = chars[i];
        let d = if c == '\n' { ' ' } else { c };
        push_char(&mut out, d);
        proof {
            assert(chars@.subrange(start as int, i + 1).map_values(|c: char| collapse_newline(c))
                == chars@.subrange(start as int, i as int).map_values(
                |c: char| collapse_newline(c),
            ).push(collapse_newline(chars@[i as int])));
        }
        i += 1;
    }
    if end < chars.len() {
        push_char(&mut out, '…');
    }
    let ghost expected = snippet(chars@, match_index as int, match_len as int);
    assert(out@ =~= expected);
    out
}

/// Whether `s[j..]` starts with `pat`.
pub open spec fn occurs_at(s: Seq<char>, pat: Seq<char>, j: int) -> bool {
    0 <= j && j + pat.len() <= s.len() && s.subrange(j, j + pat.len()) == pat
}

/// Whether `s[j..]` starts with `pat`.
pub(crate) fn occurs_at_exec(s: &Vec<char>, pat: &Vec<char>, j: usize) -> (res: bool)
    ensures
        res == occurs_at(s@, pat@, j as int),
{
    if j > s.len() || pat.len() > s.len() - j {
        return false;
    }
    let mut k: usize = 0;
    while k < pat.len()
        invariant
            k <= pat.len(),
            j + pat.len() <= s.len(),
            forall|m: int| 0 <= m < k ==> s@[j + m] == pat@[m],
        decreases pat.len() - k,
    {
        if s[j + k] != pat[k] {
            assert(s@.subrange(j as int, j + pat.len())[k as int] != pat@[k as int]);
            return false;
        }
        k += 1;
    }
    assert(s@.subrange(j as int, j + pat.len()) =~= pat@);
    true
}

/// The first position at or after `k` where `pat` occurs in `s`.
pub open spec fn first_from(s: Seq<char>, pat: Seq<char>, k: int) -> Option<int>
    decreases s.len() + 1 - k,
{
    if k < 0 || k + pat.len() > s.len() {
        None
    } else if occurs_at(s, pat, k) {
        Some(k)
    } else {
        first_from(s, pat, k + 1)
    }
}

/// The last position below `k` where `pat` occurs in `s`.
pub open spec fn last_below(s: Seq<char>, pat: Seq<char>, k: int) -> Option<int>
    decreases k,
{
    if k <= 0 {
        None
    } else if occurs_at(s, pat, k - 1) {
        Some(k - 1)
    } else {
        last_below(s, pat, k - 1)
    }
}

/// The first position where `pat` occurs in `s` (std `str::find`).
pub(crate) fn find_first(s: &Vec<char>, pat: &Vec<char>) -> (res: Option<usize>)
    ensures
        res matches Some(j) ==> j <= s.len(),
        match res {
            Some(j) => first_from(s@, pat@, 0) == Some(j as int),
            None => first_from(s@, pat@, 0) is None,
        },
{
    if pat.len() > s.len() {
        return None;
    }
    let mut k: usize = 0;
    while k <= s.len() - pat.len()
        invariant
            pat.len() <= s.len(),
            k <= s.len() - pat.len() + 1,
            first_from(s@, pat@, 0) == first_from(s@, pat@, k as int),
        decreases s.len() - pat.len() + 1 - k,
    {
        if occurs_at_exec(s, pat, k) {
            return Some(k);
        }
        if k == s.len() - pat.len() {
            assert(first_from(s@, pat@, k + 1) is None);
            return None;
        }
        k += 1;
    }
    None
}

/// The last position where `pat` occurs in `s` (std `str::rfind`).
pub(crate) fn find_last(s: &Vec<char>, pat: &Vec<char>) -> (res: Option<usize>)
    ensures
        res matches Some(j) ==> j + pat.len() <= s.len(),
        match res {
            Some(j) => last_below(s@, pat@, s@.len() as int) == Some(j as int),
            None => last_below(s@, pat@, s@.len() as int) is None,
        },
{
    let mut k: usize = s.len();
    while k > 0
        invariant
            k <= s.len(),
            last_below(s@, pat@, s@.len() as int) == last_below(s@, pat@, k as int),
        decreases k,
    {
        if occurs_at_exec(s, pat, k - 1) {
            return Some(k - 1);
        }
        k -= 1;
    }
    None
}

/// The first start, at or after `k`, of a window of `haystack` that
/// lowercases to `query`; none for an empty query.
pub open spec fn match_from(haystack: Seq<char>, query: Seq<char>, k: int) -> Option<int>
    decreases haystack.len() + 1 - k,
{
    if query.len() == 0 || k < 0 || k + query.len() > haystack.len() {
        None
    } else if window_matches(haystack, query, k) {
        Some(k)
    } else {
        match_from(haystack, query, k + 1)
    }
}

proof fn lemma_match_from(haystack: Seq<char>, query: Seq<char>, k: int)
    requires
        k >= 0,
    ensures
        match match_from(haystack, query, k) {
            Some(i) => k <= i && window_matches(haystack, query, i) && forall|j: int|
                k <= j < i ==> !window_matches(haystack, query, j),
            None => query.len() == 0 || forall|j: int| k <= j ==> !window_matches(haystack, query, j),
        },
    decreases haystack.len() + 1 - k,
{
    if query.len() > 0 && k + query.len() <= haystack.len() && !window_matches(haystack, query, k) {
        lemma_match_from(haystack, query, k + 1);
    }
}

/// What `find_match` returns, as a function of its inputs.
pub proof fn lemma_first_match_is_match_from(haystack: Seq<char>, query: Seq<char>, res: Option<usize>)
    requires
        first_match(haystack, query, res),
    ensures
        match res {
            Some(i) => match_from(haystack, query, 0) == Some(i as int),
            None => match_from(haystack, query, 0) is None,
        },
{
    lemma_match_from(haystack, query, 0);
    match res {
        Some(i) => {
            match match_from(haystack, query, 0) {
                Some(j) => {
                    if j < i {
                        assert(!window_matches(haystack, query, j));
                    } else if j > i {
                        assert(!window_matches(haystack, query, i as int));
                    }
                },
                None => {
                    assert(!window_matches(haystack, query, i as int));
                },
            }
        },
        None => {},
    }
}

} // verus!
