//! Resolving a file changed on both sides.
use vstd::prelude::*;

use crate::moment::{format_moment, not_later, rendered_moment, Moment};
use crate::sync::scan::excluded_name;
use crate::text::{last_below, occurs_at, push_char};
use crate::validated::{has_char, last_dot, lemma_last_dot, path_extension};

verus! {

/// Which side of a conflict wins.
#[derive(Debug, Clone, Copy, PartialEq, Eq, Structural)]
pub enum ConflictResolution {
    KeepLocal,
    KeepRemote,
}

/// The newer side wins; on a tie the local side does.
pub fn resolve(local_modified: Moment, remote_modified: Moment) -> (res: ConflictResolution)
    ensures
        res == (if not_later(remote_modified, local_modified) {
            ConflictResolution::KeepLocal
        } else {
            ConflictResolution::KeepRemote
        }),
{
    if remote_modified.not_later_than(&local_modified) {
        ConflictResolution::KeepLocal
    } else {
        ConflictResolution::KeepRemote
    }
}

/// The `/`-separated pieces of a path, as written.
pub open spec fn slash_pieces(p: Seq<char>) -> Seq<Seq<char>>
    decreases p.len(),
{
    if p.len() == 0 {
        seq![Seq::<char>::empty()]
    } else {
        let init = slash_pieces(p.drop_last());
        if p.last() == '/' {
            init.push(Seq::<char>::empty())
        } else {
            init.update(init.len() - 1, init.last().push(p.last()))
        }
    }
}

proof fn lemma_slash_pieces_nonempty(p: Seq<char>)
    ensures
        slash_pieces(p).len() >= 1,
    decreases p.len(),
{
    if p.len() > 0 {
        lemma_slash_pieces_nonempty(p.drop_last());
    }
}

/// A plain relative path: components separated by single `/`, none of
/// them empty, `.` or `..` (so no leading, trailing or doubled `/`).
pub open spec fn plain_relative(p: Seq<char>) -> bool {
    let c = slash_pieces(p);
    forall|k: int|
        0 <= k < c.len() ==> (#[trigger] c[k]).len() > 0 && c[k] != seq!['.'] && c[k] != seq!['.', '.']
}

/// The final component of a path.
pub open spec fn final_component(p: Seq<char>) -> Seq<char> {
    slash_pieces(p).last()
}

/// Everything before the final `/` of a path; empty when it has none.
pub open spec fn before_final(p: Seq<char>) -> Seq<char> {
    match last_below(p, seq!['/'], p.len() as int) {
        Some(i) => p.subrange(0, i),
        None => Seq::empty(),
    }
}

/// The stem std gives a file name: what comes before its last `.`, or the
/// whole name when it has no `.` or its only `.` starts it.
pub open spec fn stem_of(name: Seq<char>) -> Seq<char> {
    match last_dot(name) {
        Some(i) => if i == 0 { name } else { name.subrange(0, i) },
        None => name,
    }
}

/// The file stem std's `Path::file_stem` gives for the path `p`, as text.
pub uninterp spec fn path_stem(p: Seq<char>) -> Option<Seq<char>>;

/// The extension std's `Path::extension` gives for the path `p`, as text.
pub uninterp spec fn path_ext(p: Seq<char>) -> Option<Seq<char>>;

/// The parent std's `Path::parent` gives for the path `p`, as text.
pub uninterp spec fn path_parent(p: Seq<char>) -> Option<Seq<char>>;

/// The file stem of a path (std `Path::file_stem`, as text). For a plain
/// relative path the contract states what std documents: the stem of its
/// final component (before the last `.`, unless the only `.` starts it).
#[verifier::external_body]
fn file_stem_of(p: &str) -> (res: Option<String>)
    ensures
        match res {
            Some(s) => path_stem(p@) == Some(s@),
            None => path_stem(p@) is None,
        },
        plain_relative(p@) ==> match res {
            Some(s) => s@ == stem_of(final_component(p@)),
            None => false,
        },
{
    match std::path::Path::new(p).file_stem() {
        Some(s) => s.to_str().map(String::from),
        None => None,
    }
}

/// The extension of a path (std `Path::extension`, as text). For a plain
/// relative path the contract states what std documents: what follows the
/// last `.` of its final component, none when it has no `.` or its only
/// `.` starts it.
#[verifier::external_body]
fn extension_of(p: &str) -> (res: Option<String>)
    ensures
        match res {
            Some(s) => path_ext(p@) == Some(s@),
            None => path_ext(p@) is None,
        },
        plain_relative(p@) ==> match path_extension(final_component(p@)) {
            Some(e) => res matches Some(s) && s@ == e,
            None => res is None,
        },
{
    match std::path::Path::new(p).extension() {
        Some(s) => s.to_str().map(String::from),
        None => None,
    }
}

/// The parent of a path (std `Path::parent`, as text). For a plain
/// relative path the contract states what std documents: the path without
/// its final component (empty for a single component).
#[verifier::external_body]
fn parent_of(p: &str) -> (res: Option<String>)
    ensures
        match res {
            Some(s) => path_parent(p@) == Some(s@),
            None => path_parent(p@) is None,
        },
        plain_relative(p@) ==> match res {
            Some(s) => s@ == before_final(p@),
            None => false,
        },
{
    match std::path::Path::new(p).parent() {
        Some(s) => s.to_str().map(String::from),
        None => None,
    }
}

/// `value`, or `fallback` when there is none.
pub open spec fn or_else(value: Option<Seq<char>>, fallback: Seq<char>) -> Seq<char> {
    match value {
        Some(v) => v,
        None => fallback,
    }
}

/// The name of the conflict copy of `key` made at `stamp`:
/// `<parent>/<stem>.sync-conflict-<stamp>.<ext>`, without the parent part
/// when the key has none; a missing stem reads `file`, a missing
/// extension `md`.
pub open spec fn conflict_name(key: Seq<char>, stamp: Seq<char>) -> Seq<char> {
    let stem = or_else(path_stem(key), "file"@);
    let ext = or_else(path_ext(key), "md"@);
    let parent = or_else(path_parent(key), Seq::<char>::empty());
    let name = stem + ".sync-conflict-"@ + stamp + "."@ + ext;
    if parent.len() == 0 {
        name
    } else {
        parent + "/"@ + name
    }
}

/// The name of the conflict copy of a plain relative `key` made at
/// `stamp`, spelled out: `<parent>/<stem>.sync-conflict-<stamp>.<ext>`
/// from the parts std gives such a path, `md` standing in for a missing
/// extension.
pub open spec fn plain_conflict_name(key: Seq<char>, stamp: Seq<char>) -> Seq<char> {
    let f = final_component(key);
    let name = stem_of(f) + ".sync-conflict-"@ + stamp + "."@ + or_else(path_extension(f), "md"@);
    let parent = before_final(key);
    if parent.len() == 0 {
        name
    } else {
        parent + "/"@ + name
    }
}

/// The name of the conflict copy of `key` made at `timestamp` (a UTC
/// moment), stamped `%Y%m%d-%H%M%S`; none when chrono cannot represent the
/// moment.
pub fn conflict_filename(key: &str, timestamp: Moment) -> (res: Option<String>)
    ensures
        match rendered_moment(timestamp.secs, timestamp.nanos, timestamp.offset_secs, "%Y%m%d-%H%M%S"@) {
            Some(stamp) => res is Some && res->0@ == conflict_name(key@, stamp) && (plain_relative(key@)
                ==> res->0@ == plain_conflict_name(key@, stamp)),
            None => res is None,
        },
{
    let stamp = match format_moment(timestamp, "%Y%m%d-%H%M%S") {
        Some(s) => s,
        None => {
            return None;
        },
    };
    let stem = match file_stem_of(key) {
        Some(s) => s,
        None => String::from_str("file"),
    };
    let ext = match extension_of(key) {
        Some(s) => s,
        None => String::from_str("md"),
    };
    let parent = match parent_of(key) {
        Some(s) => s,
        None => String::new(),
    };
    let mut name = stem;
    name.append(".sync-conflict-");
    name.append(stamp.as_str());
    name.append(".");
    name.append(ext.as_str());
    let pc = crate::text::chars_of(parent.as_str());
    if pc.len() == 0 {
        return Some(name);
    }
    let mut out = parent;
    push_char(&mut out, '/');
    proof {
        reveal_strlit("/");
    }
    out.append(name.as_str());
    Some(out)
}

proof fn lemma_final_after_slash(a: Seq<char>, b: Seq<char>)
    requires
        !has_char(b, '/'),
    ensures
        final_component(a + seq!['/'] + b) == b,
    decreases b.len(),
{
    let pre = a + seq!['/'];
    if b.len() == 0 {
        assert(pre + b =~= pre);
        assert(pre.drop_last() =~= a);
    } else {
        let b0 = b.drop_last();
        assert(!has_char(b0, '/')) by {
            if has_char(b0, '/') {
                let i = choose|i: int| 0 <= i < b0.len() && b0[i] == '/';
                assert(b[i] == '/');
            }
        }
        lemma_final_after_slash(a, b0);
        lemma_slash_pieces_nonempty(pre + b0);
        assert((pre + b).drop_last() =~= pre + b0);
        assert((pre + b).last() == b.last());
        assert(b.last() != '/') by {
            assert(b[b.len() - 1] == b.last());
        }
        assert(b0.push(b.last()) =~= b);
    }
}

proof fn lemma_final_plain(b: Seq<char>)
    requires
        !has_char(b, '/'),
    ensures
        final_component(b) == b,
    decreases b.len(),
{
    if b.len() > 0 {
        let b0 = b.drop_last();
        assert(!has_char(b0, '/')) by {
            if has_char(b0, '/') {
                let i = choose|i: int| 0 <= i < b0.len() && b0[i] == '/';
                assert(b[i] == '/');
            }
        }
        lemma_final_plain(b0);
        lemma_slash_pieces_nonempty(b0);
        assert(b[b.len() - 1] == b.last());
        assert(b0.push(b.last()) =~= b);
    } else {
        assert(slash_pieces(b) =~= seq![Seq::<char>::empty()]);
    }
}

proof fn lemma_no_slash_concat(a: Seq<char>, b: Seq<char>)
    requires
        !has_char(a, '/'),
        !has_char(b, '/'),
    ensures
        !has_char(a + b, '/'),
{
    if has_char(a + b, '/') {
        let i = choose|i: int| 0 <= i < (a + b).len() && (a + b)[i] == '/';
        if i < a.len() {
            assert(a[i] == '/');
        } else {
            assert(b[i - a.len()] == '/');
        }
    }
}

proof fn lemma_final_component_no_slash(p: Seq<char>)
    ensures
        !has_char(final_component(p), '/'),
    decreases p.len(),
{
    if p.len() > 0 {
        lemma_final_component_no_slash(p.drop_last());
        lemma_slash_pieces_nonempty(p.drop_last());
        let f0 = final_component(p.drop_last());
        if p.last() != '/' {
            assert(final_component(p) == f0.push(p.last()));
            lemma_no_slash_concat(f0, seq![p.last()]);
            assert(f0 + seq![p.last()] =~= f0.push(p.last()));
        } else {
            assert(final_component(p) =~= Seq::<char>::empty());
        }
    } else {
        assert(final_component(p) =~= Seq::<char>::empty());
    }
}

/// Conflict copies are never synchronised: the final component of the
/// conflict copy of a plain relative key holds `.sync-conflict-`, which a
/// scan leaves out (so long as the stamp holds no `/`).
pub proof fn law_conflict_copy_excluded(key: Seq<char>, stamp: Seq<char>)
    requires
        plain_relative(key),
        !has_char(stamp, '/'),
    ensures
        excluded_name(final_component(plain_conflict_name(key, stamp))),
{
    let f = final_component(key);
    lemma_final_component_no_slash(key);
    lemma_last_dot(f);
    let stem = stem_of(f);
    let ext = or_else(path_extension(f), "md"@);
    assert(!has_char(stem, '/')) by {
        match last_dot(f) {
            Some(i) => if i != 0 {
                if has_char(stem, '/') {
                    let j = choose|j: int| 0 <= j < stem.len() && stem[j] == '/';
                    assert(f[j] == '/');
                }
            },
            None => {},
        }
    }
    assert(!has_char(ext, '/')) by {
        reveal_strlit("md");
        match path_extension(f) {
            Some(e) => {
                if has_char(e, '/') {
                    let j = choose|j: int| 0 <= j < e.len() && e[j] == '/';
                    let i = last_dot(f)->0;
                    assert(f[i + 1 + j] == '/');
                }
            },
            None => {
                assert(ext == seq!['m', 'd']);
                if has_char(ext, '/') {
                    let j = choose|j: int| 0 <= j < ext.len() && ext[j] == '/';
                }
            },
        }
    }
    reveal_strlit(".sync-conflict-");
    reveal_strlit(".");
    let marker = ".sync-conflict-"@;
    assert(!has_char(marker, '/')) by {
        if has_char(marker, '/') {
            let j = choose|j: int| 0 <= j < marker.len() && marker[j] == '/';
        }
    }
    assert(!has_char("."@, '/')) by {
        if has_char("."@, '/') {
            let j = choose|j: int| 0 <= j < 1 && "."@[j] == '/';
        }
    }
    let name = stem + marker + stamp + "."@ + ext;
    lemma_no_slash_concat(stem, marker);
    lemma_no_slash_concat(stem + marker, stamp);
    lemma_no_slash_concat(stem + marker + stamp, "."@);
    lemma_no_slash_concat(stem + marker + stamp + "."@, ext);
    let parent = before_final(key);
    reveal_strlit("/");
    if parent.len() == 0 {
        lemma_final_plain(name);
    } else {
        assert(parent + "/"@ + name =~= parent + seq!['/'] + name);
        lemma_final_after_slash(parent, name);
    }
    assert(name.subrange(stem.len() as int, stem.len() as int + 15) =~= marker);
}

} // verus!
