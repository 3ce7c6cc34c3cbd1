//! Names that have been checked once and can be trusted afterwards:
//! project slugs, task filenames and note filenames.
use vstd::prelude::*;

use crate::error::CoreError;
use crate::text::chars_of;

verus! {

/// A character allowed in a slug: ASCII lowercase letter, ASCII digit or `-`.
pub open spec fn is_slug_char(c: char) -> bool {
    ('a' <= c <= 'z') || ('0' <= c <= '9') || c == '-'
}

/// A slug is non-empty, made of slug characters, and neither starts nor
/// ends with `-`.
pub open spec fn is_valid_slug(s: Seq<char>) -> bool {
    &&& s.len() > 0
    &&& forall|i: int| 0 <= i < s.len() ==> is_slug_char(#[trigger] s[i])
    &&& s[0] != '-'
    &&& s.last() != '-'
}

/// Whether `s` holds two consecutive dots.
pub open spec fn has_double_dot(s: Seq<char>) -> bool {
    exists|i: int| 0 <= i && i + 1 < s.len() && #[trigger] s[i] == '.' && s[i + 1] == '.'
}

/// Whether `s` holds the character `c`.
pub open spec fn has_char(s: Seq<char>, c: char) -> bool {
    exists|i: int| 0 <= i < s.len() && #[trigger] s[i] == c
}

/// A filename is non-empty and holds no `/`, `\`, NUL, nor `..`.
pub open spec fn is_valid_filename(s: Seq<char>) -> bool {
    &&& s.len() > 0
    &&& !has_char(s, '/')
    &&& !has_char(s, '\\')
    &&& !has_char(s, '\0')
    &&& !has_double_dot(s)
}

/// The index of the last `.` in `s`, if any.
pub open spec fn last_dot(s: Seq<char>) -> Option<int>
    decreases s.len(),
{
    if s.len() == 0 {
        None
    } else if s.last() == '.' {
        Some(s.len() - 1)
    } else {
        last_dot(s.drop_last())
    }
}

/// Where the last `.` is: no `.` follows it.
pub proof fn lemma_last_dot(s: Seq<char>)
    ensures
        match last_dot(s) {
            Some(i) => 0 <= i < s.len() && s[i] == '.' && forall|j: int|
                i < j < s.len() ==> s[j] != '.',
            None => forall|j: int| 0 <= j < s.len() ==> s[j] != '.',
        },
    decreases s.len(),
{
    if s.len() > 0 && s.last() != '.' {
        lemma_last_dot(s.drop_last());
        assert forall|j: int| 0 <= j < s.len() - 1 implies s.drop_last()[j] == s[j] by {}
    }
}

/// The extension std's `Path::extension` gives for a one-component relative
/// path `name`: none when the name is `.` or `..`, none without a `.`, none
/// when the only `.` starts the name, otherwise what follows the last `.`.
pub open spec fn path_extension(name: Seq<char>) -> Option<Seq<char>> {
    if name == seq!['.'] || name == seq!['.', '.'] {
        None
    } else {
        match last_dot(name) {
            None => None,
            Some(i) => if i == 0 { None } else { Some(name.subrange(i + 1, name.len() as int)) },
        }
    }
}

/// A note filename is a valid filename that forms a single path component
/// (it holds no `/`) and whose extension is `md`.
pub open spec fn is_valid_note_filename(s: Seq<char>) -> bool {
    &&& is_valid_filename(s)
    &&& path_extension(s) == Some(seq!['m', 'd'])
}

/// A project slug.
#[derive(Debug, Clone, PartialEq, Eq)]
pub struct Slug(String);

impl View for Slug {
    type V = Seq<char>;

    closed spec fn view(&self) -> Seq<char> {
        self.0@
    }
}

fn slug_ok(c: &[char]) -> (res: bool)
    ensures
        res == is_valid_slug(c@),
{
    if c.len() == 0 {
        return false;
    }
    let mut i: usize = 0;
    while i < c.len()
        invariant
            i <= c.len(),
            forall|j: int| 0 <= j < i ==> is_slug_char(#[trigger] c@[j]),
        decreases c.len() - i,
    {
        let ch = c[i];
        if !(('a' <= ch && ch <= 'z') || ('0' <= ch && ch <= '9') || ch == '-') {
            assert(!is_slug_char(c@[i as int]));
            return false;
        }
        i += 1;
    }
    c[0] != '-' && c[c.len() - 1] != '-'
}

impl Slug {
    /// Checks a slug.
    pub fn parse(s: &str) -> (res: Result<Slug, CoreError>)
        ensures
            match res {
                Ok(slug) => is_valid_slug(s@) && slug@ == s@,
                Err(e) => !is_valid_slug(s@) && e == CoreError::InvalidSlug(e->InvalidSlug_0)
                    && e->InvalidSlug_0@ == s@,
            },
    {
        let c = chars_of(s);
        if !slug_ok(&c) {
            return Err(CoreError::InvalidSlug(String::from_str(s)));
        }
        Ok(Slug(String::from_str(s)))
    }

    /// The slug's text.
    pub fn as_str(&self) -> (res: &str)
        ensures
            res@ == self@,
    {
        self.0.as_str()
    }

    /// The slug's text as its display form.
    pub fn display(&self) -> (res: String)
        ensures
            res@ == self@,
    {
        self.0.clone()
    }
}

fn find_char(c: &[char], x: char) -> (res: bool)
    ensures
        res == has_char(c@, x),
{
    let mut i: usize = 0;
    while i < c.len()
        invariant
            i <= c.len(),
            forall|j: int| 0 <= j < i ==> c@[j] != x,
        decreases c.len() - i,
    {
        if c[i] == x {
            return true;
        }
        i += 1;
    }
    false
}

fn find_double_dot(c: &[char]) -> (res: bool)
    ensures
        res == has_double_dot(c@),
{
    let mut i: usize = 0;
    while i < c.len()
        invariant
            forall|j: int| 0 <= j < i && j + 1 < c.len() ==> !(#[trigger] c@[j] == '.' && c@[j + 1] == '.'),
        decreases c.len() - i,
    {
        if i + 1 < c.len() && c[i] == '.' && c[i + 1] == '.' {
            return true;
        }
        i += 1;
    }
    false
}

fn filename_ok(c: &[char]) -> (res: bool)
    ensures
        res == is_valid_filename(c@),
{
    c.len() > 0 && !find_char(c, '/') && !find_char(c, '\\') && !find_char(c, '\0')
        && !find_double_dot(c)
}

/// A name has the extension `md` exactly when it is at least four
/// characters long and ends with `.md`.
pub proof fn lemma_md_extension(s: Seq<char>)
    ensures
        (path_extension(s) == Some(seq!['m', 'd'])) == (s.len() >= 4 && s[s.len() - 3] == '.'
            && s[s.len() - 2] == 'm' && s[s.len() - 1] == 'd'),
{
    let n = s.len() as int;
    lemma_last_dot(s);
    if s == seq!['.'] || s == seq!['.', '.'] {
        assert(s[0] == '.');
    } else if n >= 4 && s[n - 3] == '.' && s[n - 2] == 'm' && s[n - 1] == 'd' {
        let i = last_dot(s)->0;
        assert(i == n - 3);
        assert(s.subrange(i + 1, n) =~= seq!['m', 'd']);
    } else {
        match last_dot(s) {
            None => {},
            Some(i) => {
                if i != 0 && s.subrange(i + 1, n) == seq!['m', 'd'] {
                    assert(s.subrange(i + 1, n).len() == 2);
                    assert(i == n - 3);
                    assert(s.subrange(i + 1, n)[0] == s[i + 1]);
                    assert(s.subrange(i + 1, n)[1] == s[i + 2]);
                }
            },
        }
    }
}

/// A task filename: checked to stay inside its directory.
#[derive(Debug, Clone, PartialEq, Eq)]
pub struct Filename(String);

impl View for Filename {
    type V = Seq<char>;

    closed spec fn view(&self) -> Seq<char> {
        self.0@
    }
}

impl Filename {
    /// Checks a filename; a path-traversal attempt is refused.
    pub fn parse(s: &str) -> (res: Result<Filename, CoreError>)
        ensures
            match res {
                Ok(f) => is_valid_filename(s@) && f@ == s@,
                Err(e) => !is_valid_filename(s@) && e == CoreError::PathTraversal(
                    e->PathTraversal_0,
                ) && e->PathTraversal_0@ == s@,
            },
    {
        let c = chars_of(s);
        if !filename_ok(&c) {
            return Err(CoreError::PathTraversal(String::from_str(s)));
        }
        Ok(Filename(String::from_str(s)))
    }

    /// The filename's text.
    pub fn as_str(&self) -> (res: &str)
        ensures
            res@ == self@,
    {
        self.0.as_str()
    }

    /// The filename's text as its display form.
    pub fn display(&self) -> (res: String)
        ensures
            res@ == self@,
    {
        self.0.clone()
    }
}

/// A note filename: a single `.md` path component.
#[derive(Debug, Clone, PartialEq, Eq)]
pub struct NoteFilename(String);

impl View for NoteFilename {
    type V = Seq<char>;

    closed spec fn view(&self) -> Seq<char> {
        self.0@
    }
}

impl NoteFilename {
    /// Checks a note filename; anything that could leave the notes
    /// directory, or is not a markdown file, is refused.
    pub fn parse(s: &str) -> (res: Result<NoteFilename, CoreError>)
        ensures
            match res {
                Ok(f) => is_valid_note_filename(s@) && f@ == s@,
                Err(e) => !is_valid_note_filename(s@) && e == CoreError::PathTraversal(
                    e->PathTraversal_0,
                ) && e->PathTraversal_0@ == s@,
            },
    {
        let c = chars_of(s);
        let n = c.len();
        let ok = filename_ok(&c) && n >= 4 && c[n - 3] == '.' && c[n - 2] == 'm' && c[n - 1]
            == 'd';
        proof {
            if is_valid_filename(c@) {
                lemma_md_extension(c@);
            }
        }
        if !ok {
            return Err(CoreError::PathTraversal(String::from_str(s)));
        }
        Ok(NoteFilename(String::from_str(s)))
    }

    /// The note filename's text.
    pub fn as_str(&self) -> (res: &str)
        ensures
            res@ == self@,
    {
        self.0.as_str()
    }

    /// The note filename's text as its display form.
    pub fn display(&self) -> (res: String)
        ensures
            res@ == self@,
    {
        self.0.clone()
    }
}

} // verus!
