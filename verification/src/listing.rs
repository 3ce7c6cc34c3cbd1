//! Which directory entries count as Markdown files, and in what order
//! they are listed; where a note file is, and whether it stays inside the
//! notes directory.
use vstd::prelude::*;

use crate::error::CoreError;
use crate::lines::starts_with;
use crate::order::{lex_less, lex_lt, lemma_lex_asymmetric, lemma_lex_irreflexive, lemma_lex_total, lemma_lex_transitive};
use crate::paths::{join, join_path, notes_dir, notes_dir_of};
use crate::text::{chars_of, occurs_at, occurs_at_exec};
use crate::validated::{lemma_md_extension, path_extension, NoteFilename};

verus! {

broadcast use vstd::seq_lib::group_to_multiset_ensures;

/// Whether a directory entry's name has the extension `md`.
pub open spec fn is_md_name(name: Seq<char>) -> bool {
    path_extension(name) == Some(seq!['m', 'd'])
}

fn md_name(name: &String) -> (res: bool)
    ensures
        res == is_md_name(name@),
{
    let c = chars_of(name.as_str());
    let n = c.len();
    proof {
        lemma_md_extension(c@);
    }
    n >= 4 && c[n - 3] == '.' && c[n - 2] == 'm' && c[n - 1] == 'd'
}

/// The names among the first `n` that have the extension `md`.
pub open spec fn md_names_upto(names: Seq<String>, n: int) -> Seq<String>
    decreases n,
{
    if n <= 0 {
        Seq::empty()
    } else if is_md_name(names[n - 1]@) {
        md_names_upto(names, n - 1).push(names[n - 1])
    } else {
        md_names_upto(names, n - 1)
    }
}

/// Whether the names come in reverse name order: none sorts after one
/// listed earlier.
pub open spec fn in_reverse_name_order(v: Seq<String>) -> bool {
    forall|i: int, j: int| 0 <= i < j < v.len() ==> !lex_lt(v[i]@, v[j]@)
}

/// The Markdown files among the names of a directory's entries, the
/// greatest name first (note and task names start with their creation
/// time, so the newest come first).
pub fn list_md_files(names: Vec<String>) -> (res: Vec<String>)
    ensures
        res@.to_multiset() == md_names_upto(names@, names@.len() as int).to_multiset(),
        in_reverse_name_order(res@),
{
    let ghost all = names@;
    let count = names.len();
    assert(all.len() == count);
    let mut rest = names;
    let mut out: Vec<String> = Vec::new();
    let mut i: usize = 0;
    while rest.len() > 0
        invariant
            all.len() <= usize::MAX,
            i + rest@.len() == all.len(),
            rest@ == all.subrange(i as int, all.len() as int),
            out@.to_multiset() == md_names_upto(all, i as int).to_multiset(),
            in_reverse_name_order(out@),
        decreases rest@.len(),
    {
        let name = rest.remove(0);
        assert(name == all[i as int]);
        if md_name(&name) {
            let mut p: usize = 0;
            while p < out.len() && !lex_less(out[p].as_str(), name.as_str())
                invariant
                    p <= out.len(),
                    forall|j: int| 0 <= j < p ==> !lex_lt(#[trigger] out@[j]@, name@),
                decreases out.len() - p,
            {
                p += 1;
            }
            let ghost before = out@;
            let ghost nv = name@;
            out.insert(p, name);
            proof {
                vstd::seq_lib::to_multiset_insert(before, p as int, all[i as int]);
                vstd::seq_lib::to_multiset_build(md_names_upto(all, i as int), all[i as int]);
                assert forall|a: int, b: int| 0 <= a < b < out@.len() implies !lex_lt(out@[a]@, out@[b]@) by {
                    if b < p {
                        assert(out@[a] == before[a] && out@[b] == before[b]);
                    } else if b == p {
                        assert(out@[a] == before[a]);
                    } else if a == p {
                        assert(out@[b] == before[b - 1]);
                        assert(lex_lt(before[p as int]@, nv));
                        if lex_lt(nv, out@[b]@) {
                            if b - 1 == p {
                                lemma_lex_asymmetric(before[p as int]@, nv);
                            } else {
                                assert(!lex_lt(before[p as int]@, before[b - 1]@));
                                lemma_lex_total(before[p as int]@, before[b - 1]@);
                                if before[p as int]@ == before[b - 1]@ {
                                    lemma_lex_asymmetric(before[p as int]@, nv);
                                } else {
                                    lemma_lex_transitive(nv, before[b - 1]@, before[p as int]@);
                                    lemma_lex_asymmetric(before[p as int]@, nv);
                                }
                            }
                        }
                    } else if a < p {
                        assert(out@[a] == before[a] && out@[b] == before[b - 1]);
                        if a == b - 1 {
                            lemma_lex_irreflexive(before[a]@);
                        }
                    } else {
                        assert(out@[a] == before[a - 1] && out@[b] == before[b - 1]);
                    }
                }
            }
        }
        i += 1;
        assert(rest@ =~= all.subrange(i as int, all.len() as int));
    }
    out
}

/// How many of the names have the extension `md`.
pub fn count_md_files(names: &[String]) -> (res: usize)
    ensures
        res == md_names_upto(names@, names@.len() as int).len(),
{
    let mut n: usize = 0;
    let mut i: usize = 0;
    while i < names.len()
        invariant
            i <= names.len(),
            n == md_names_upto(names@, i as int).len(),
            n <= i,
        decreases names.len() - i,
    {
        if md_name(&names[i]) {
            n += 1;
        }
        i += 1;
    }
    n
}

/// The path of a note file: `<base>/data/notes/<filename>`.
pub fn note_path(base_dir: &str, filename: &NoteFilename) -> (res: String)
    ensures
        res@ == join(notes_dir_of(base_dir@), filename@),
{
    let dir = notes_dir(base_dir);
    join_path(dir.as_str(), filename.as_str())
}

/// Reaching a note file by name: its path, or not found (with that path)
/// when no file is there.
pub fn locate_note(base_dir: &str, filename: &NoteFilename, exists: bool) -> (res: Result<String, CoreError>)
    ensures
        exists ==> (res matches Ok(p) && p@ == join(notes_dir_of(base_dir@), filename@)),
        !exists ==> (res matches Err(e) && e == CoreError::NotFound(e->NotFound_0)
            && e->NotFound_0@ == join(notes_dir_of(base_dir@), filename@)),
{
    let path = note_path(base_dir, filename);
    if !exists {
        return Err(CoreError::NotFound(path));
    }
    Ok(path)
}

/// Whether the canonical path `file` lies in the canonical directory
/// `dir`, component by component (as std's `Path::starts_with` compares
/// canonical paths).
pub open spec fn within_dir(dir: Seq<char>, file: Seq<char>) -> bool {
    ||| file == dir
    ||| (starts_with(file, dir) && dir.len() > 0 && dir.last() == '/')
    ||| (starts_with(file, dir) && file.len() > dir.len() && file[dir.len() as int] == '/')
}

/// The last check before a note file is read or deleted: its canonical
/// path must lie in the canonical notes directory; otherwise the name is
/// refused as a path traversal.
pub fn confine_note(canonical_dir: &str, canonical_file: &str, filename: &NoteFilename) -> (res: Result<(), CoreError>)
    ensures
        within_dir(canonical_dir@, canonical_file@) ==> res is Ok,
        !within_dir(canonical_dir@, canonical_file@) ==> (res matches Err(e) && e == CoreError::PathTraversal(
            e->PathTraversal_0,
        ) && e->PathTraversal_0@ == filename@),
{
    let d = chars_of(canonical_dir);
    let f = chars_of(canonical_file);
    let prefix = occurs_at_exec(&f, &d, 0);
    proof {
        assert(occurs_at(f@, d@, 0) == starts_with(f@, d@));
    }
    let same = prefix && f.len() == d.len();
    proof {
        if same {
            assert(f@ =~= d@.subrange(0, d@.len() as int));
            assert(d@.subrange(0, d@.len() as int) =~= d@);
        }
        if f@ == d@ {
            assert(f@.subrange(0, d@.len() as int) =~= d@);
        }
    }
    let ok = same || (prefix && d.len() > 0 && d[d.len() - 1] == '/') || (prefix && f.len() > d.len()
        && f[d.len()] == '/');
    if !ok {
        return Err(CoreError::PathTraversal(filename.display()));
    }
    Ok(())
}

} // verus!
