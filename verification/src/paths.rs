//! Where the application keeps its files under its base directory.
use vstd::prelude::*;

use crate::text::{chars_of, push_char};

verus! {

/// Whether `s` is an absolute path (starts with `/`).
pub open spec fn is_absolute(s: Seq<char>) -> bool {
    s.len() > 0 && s[0] == '/'
}

/// std's `PathBuf::push` on Unix: an absolute `seg` replaces `base`;
/// otherwise `seg` is appended, with a `/` between them unless `base` is
/// empty or already ends with one.
pub open spec fn join(base: Seq<char>, seg: Seq<char>) -> Seq<char> {
    if is_absolute(seg) {
        seg
    } else if base.len() == 0 || base.last() == '/' {
        base + seg
    } else {
        base.push('/') + seg
    }
}

/// `base` joined with `seg` (std `Path::join`).
pub fn join_path(base: &str, seg: &str) -> (res: String)
    ensures
        res@ == join(base@, seg@),
{
    let b = chars_of(base);
    let s = chars_of(seg);
    if s.len() > 0 && s[0] == '/' {
        return String::from_str(seg);
    }
    let mut out = String::from_str(base);
    if b.len() > 0 && b[b.len() - 1] != '/' {
        push_char(&mut out, '/');
    }
    out.append(seg);
    out
}

/// `base/data`.
pub open spec fn data_dir_of(base: Seq<char>) -> Seq<char> {
    join(base, "data"@)
}

/// `base/data/notes`.
pub open spec fn notes_dir_of(base: Seq<char>) -> Seq<char> {
    join(data_dir_of(base), "notes"@)
}

/// `base/data/timeline`.
pub open spec fn timeline_dir_of(base: Seq<char>) -> Seq<char> {
    join(data_dir_of(base), "timeline"@)
}

/// `base/data/projects`.
pub open spec fn projects_dir_of(base: Seq<char>) -> Seq<char> {
    join(data_dir_of(base), "projects"@)
}

/// `base/data/projects/<slug>`.
pub open spec fn project_dir_of(base: Seq<char>, slug: Seq<char>) -> Seq<char> {
    join(projects_dir_of(base), slug)
}

/// `base/data/projects/<slug>/project.md`.
pub open spec fn project_file_of(base: Seq<char>, slug: Seq<char>) -> Seq<char> {
    join(project_dir_of(base, slug), "project.md"@)
}

/// `base/data/projects/<slug>/active`.
pub open spec fn active_tasks_dir_of(base: Seq<char>, slug: Seq<char>) -> Seq<char> {
    join(project_dir_of(base, slug), "active"@)
}

/// `base/data/projects/<slug>/done`.
pub open spec fn done_tasks_dir_of(base: Seq<char>, slug: Seq<char>) -> Seq<char> {
    join(project_dir_of(base, slug), "done"@)
}

/// The data directory, the root of everything that is synchronised.
pub fn data_dir(base: &str) -> (res: String)
    ensures
        res@ == data_dir_of(base@),
{
    proof {
        reveal_strlit("data");
    }
    join_path(base, "data")
}

/// The directory holding notes.
pub fn notes_dir(base: &str) -> (res: String)
    ensures
        res@ == notes_dir_of(base@),
{
    proof {
        reveal_strlit("notes");
    }
    let d = data_dir(base);
    join_path(d.as_str(), "notes")
}

/// The directory holding the timeline, one file per day.
pub fn timeline_dir(base: &str) -> (res: String)
    ensures
        res@ == timeline_dir_of(base@),
{
    proof {
        reveal_strlit("timeline");
    }
    let d = data_dir(base);
    join_path(d.as_str(), "timeline")
}

/// The directory holding projects.
pub fn projects_dir(base: &str) -> (res: String)
    ensures
        res@ == projects_dir_of(base@),
{
    proof {
        reveal_strlit("projects");
    }
    let d = data_dir(base);
    join_path(d.as_str(), "projects")
}

/// The directory of one project.
pub fn project_dir(base: &str, slug: &str) -> (res: String)
    ensures
        res@ == project_dir_of(base@, slug@),
{
    let d = projects_dir(base);
    join_path(d.as_str(), slug)
}

/// The file describing one project.
pub fn project_file_path(base: &str, slug: &str) -> (res: String)
    ensures
        res@ == project_file_of(base@, slug@),
{
    proof {
        reveal_strlit("project.md");
    }
    let d = project_dir(base, slug);
    join_path(d.as_str(), "project.md")
}

/// The directory of a project's active tasks.
pub fn active_tasks_dir(base: &str, slug: &str) -> (res: String)
    ensures
        res@ == active_tasks_dir_of(base@, slug@),
{
    proof {
        reveal_strlit("active");
    }
    let d = project_dir(base, slug);
    join_path(d.as_str(), "active")
}

/// The directory of a project's completed tasks.
pub fn done_tasks_dir(base: &str, slug: &str) -> (res: String)
    ensures
        res@ == done_tasks_dir_of(base@, slug@),
{
    proof {
        reveal_strlit("done");
    }
    let d = project_dir(base, slug);
    join_path(d.as_str(), "done")
}

} // verus!
