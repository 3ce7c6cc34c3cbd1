//! Projects and their tasks: summaries, the activity report, and the
//! decisions each project or task operation makes before it touches files.
use vstd::prelude::*;

use crate::error::CoreError;
use crate::moment::{format_moment, local_day, rendered_moment, Moment};
use crate::order::{lex_less, lex_lt, lemma_lex_total};
use crate::paths::{
    active_tasks_dir, active_tasks_dir_of, done_tasks_dir, done_tasks_dir_of, join, join_path,
    project_dir, project_dir_of, project_file_of, project_file_path,
};
use crate::text::chars_of;
use crate::validated::{is_valid_slug, Filename, Slug};

verus! {

broadcast use vstd::seq_lib::group_to_multiset_ensures;

/// The frontmatter of a project file.
pub struct ProjectFrontmatter {
    pub name: String,
    pub created: Moment,
    pub description: String,
}

/// The frontmatter of a task file.
pub struct TaskFrontmatter {
    pub title: String,
    pub created: Moment,
    pub completed: Option<Moment>,
    pub tags: Vec<String>,
}

/// What the project list shows of one project.
pub struct ProjectSummary {
    pub slug: String,
    pub name: String,
    pub created: Moment,
    pub description: String,
    pub active_task_count: usize,
}

impl ProjectSummary {
    /// The summary of a project from its slug, its frontmatter and the
    /// number of its active tasks.
    pub fn from_frontmatter(slug: String, fm: ProjectFrontmatter, active_task_count: usize) -> (res: ProjectSummary)
        ensures
            res.slug == slug,
            res.name == fm.name,
            res.created == fm.created,
            res.description == fm.description,
            res.active_task_count == active_task_count,
    {
        ProjectSummary {
            slug,
            name: fm.name,
            created: fm.created,
            description: fm.description,
            active_task_count,
        }
    }
}

/// What the task list shows of one task.
pub struct TaskSummary {
    pub filename: String,
    pub title: String,
    pub created: Moment,
    pub completed: Option<Moment>,
    pub tags: Vec<String>,
    pub body: String,
}

fn copy_string(s: &str) -> (res: String)
    ensures
        res@ == s@,
{
    String::from_str(s)
}

fn copy_strings(v: &Vec<String>) -> (res: Vec<String>)
    ensures
        res@ == v@,
{
    let mut res: Vec<String> = Vec::new();
    let mut i: usize = 0;
    while i < v.len()
        invariant
            i <= v.len(),
            res@ == v@.take(i as int),
        decreases v.len() - i,
    {
        res.push(v[i].clone());
        assert(v@.take(i + 1) == v@.take(i as int).push(v@[i as int]));
        i += 1;
    }
    assert(v@.take(v.len() as int) == v@);
    res
}

impl TaskSummary {
    /// The summary of a task file from its name, its frontmatter and the
    /// body after it.
    pub fn from_content(filename: &str, fm: TaskFrontmatter, body: String) -> (res: TaskSummary)
        ensures
            res.filename@ == filename@,
            res.title == fm.title,
            res.created == fm.created,
            res.completed == fm.completed,
            res.tags == fm.tags,
            res.body == body,
    {
        TaskSummary {
            filename: copy_string(filename),
            title: fm.title,
            created: fm.created,
            completed: fm.completed,
            tags: fm.tags,
            body,
        }
    }

    /// The frontmatter the task is written back with.
    pub fn to_frontmatter(&self) -> (res: TaskFrontmatter)
        ensures
            res.title@ == self.title@,
            res.created == self.created,
            res.completed == self.completed,
            res.tags@ == self.tags@,
    {
        TaskFrontmatter {
            title: copy_string(self.title.as_str()),
            created: self.created,
            completed: self.completed,
            tags: copy_strings(&self.tags),
        }
    }

    /// The frontmatter of the task once completed at `now`.
    pub fn completed_frontmatter(&self, now: Moment) -> (res: TaskFrontmatter)
        ensures
            res.title@ == self.title@,
            res.created == self.created,
            res.completed == Some(now),
            res.tags@ == self.tags@,
    {
        let mut fm = self.to_frontmatter();
        fm.completed = Some(now);
        fm
    }

    /// The frontmatter of the task after an edit of its title and tags: it
    /// keeps its creation time and is active again.
    pub fn updated_frontmatter(&self, title: &str, tags: &Vec<String>) -> (res: TaskFrontmatter)
        ensures
            res.title@ == title@,
            res.created == self.created,
            res.completed is None,
            res.tags@ == tags@,
    {
        TaskFrontmatter {
            title: copy_string(title),
            created: self.created,
            completed: None,
            tags: copy_strings(tags),
        }
    }
}

/// A project with activity in a period: the tasks completed in it, and
/// how many tasks are still active.
pub struct ProjectActivitySummary {
    pub slug: String,
    pub name: String,
    pub completed_tasks: Vec<TaskSummary>,
    pub active_task_count: usize,
}

/// The same summary under its shorter name.
pub type ActivitySummary = ProjectActivitySummary;

/// Whether a task was completed on a day from `start` to `end` (days since
/// 1970-01-01, both included), in the offset it was completed in.
pub open spec fn completed_between(t: TaskSummary, start: i32, end: i32) -> bool {
    match t.completed {
        Some(m) => start <= local_day(m) <= end,
        None => false,
    }
}

/// The tasks among the first `n` that were completed in the period, in
/// order.
pub open spec fn done_between(tasks: Seq<TaskSummary>, start: i32, end: i32, n: int) -> Seq<TaskSummary>
    decreases n,
{
    if n <= 0 {
        Seq::empty()
    } else if completed_between(tasks[n - 1], start, end) {
        done_between(tasks, start, end, n - 1).push(tasks[n - 1])
    } else {
        done_between(tasks, start, end, n - 1)
    }
}

/// The slug, name, completed tasks and active count of a report line.
pub open spec fn activity_view(a: ProjectActivitySummary) -> (Seq<char>, Seq<char>, Seq<TaskSummary>, usize) {
    (a.slug@, a.name@, a.completed_tasks@, a.active_task_count)
}

/// The report lines for the first `n` projects: a project is listed when
/// it completed a task in the period or still has active tasks.
pub open spec fn activity_upto(projects: Seq<ProjectSummary>, done: Seq<Vec<TaskSummary>>, start: i32, end: i32, n: int) -> Seq<(Seq<char>, Seq<char>, Seq<TaskSummary>, usize)>
    decreases n,
{
    if n <= 0 {
        Seq::empty()
    } else {
        let prev = activity_upto(projects, done, start, end, n - 1);
        let p = projects[n - 1];
        let tasks = done_between(done[n - 1]@, start, end, done[n - 1]@.len() as int);
        if tasks.len() > 0 || p.active_task_count > 0 {
            prev.push((p.slug@, p.name@, tasks, p.active_task_count))
        } else {
            prev
        }
    }
}

fn keep_done_between(tasks: Vec<TaskSummary>, start: i32, end: i32) -> (res: Vec<TaskSummary>)
    ensures
        res@ == done_between(tasks@, start, end, tasks@.len() as int),
{
    let ghost all = tasks@;
    let count = tasks.len();
    assert(all.len() == count);
    let mut rest = tasks;
    let mut kept: Vec<TaskSummary> = Vec::new();
    let mut i: usize = 0;
    while rest.len() > 0
        invariant
            all.len() <= usize::MAX,
            i + rest@.len() == all.len(),
            rest@ == all.subrange(i as int, all.len() as int),
            kept@ == done_between(all, start, end, i as int),
        decreases rest@.len(),
    {
        let t = rest.remove(0);
        assert(t == all[i as int]);
        let keep = match &t.completed {
            Some(m) => {
                let d = m.local_day();
                start as i64 <= d && d <= end as i64
            },
            None => false,
        };
        if keep {
            kept.push(t);
        }
        i += 1;
        assert(rest@ =~= all.subrange(i as int, all.len() as int));
    }
    kept
}

/// The activity report for a period from `start` to `end` (days since
/// 1970-01-01, both included): for each project, in the order given, the
/// tasks of `done_tasks` (its completed tasks, same position) completed in
/// the period; a project is listed when it has such tasks or still has
/// active tasks.
pub fn get_project_activity_summary(
    projects: Vec<ProjectSummary>,
    done_tasks: Vec<Vec<TaskSummary>>,
    start: i32,
    end: i32,
) -> (res: Vec<ProjectActivitySummary>)
    requires
        done_tasks.len() == projects.len(),
    ensures
        res@.map_values(|a: ProjectActivitySummary| activity_view(a)) == activity_upto(
            projects@,
            done_tasks@,
            start,
            end,
            projects@.len() as int,
        ),
{
    let ghost all_p = projects@;
    let ghost all_d = done_tasks@;
    let mut ps = projects;
    let mut ds = done_tasks;
    let mut out: Vec<ProjectActivitySummary> = Vec::new();
    let mut i: usize = 0;
    assert(out@.map_values(|a: ProjectActivitySummary| activity_view(a)) =~= activity_upto(all_p, all_d, start, end, 0));
    while ps.len() > 0
        invariant
            all_p.len() <= usize::MAX,
            all_p.len() == all_d.len(),
            i + ps@.len() == all_p.len(),
            ps@.len() == ds@.len(),
            ps@ == all_p.subrange(i as int, all_p.len() as int),
            ds@ == all_d.subrange(i as int, all_d.len() as int),
            out@.map_values(|a: ProjectActivitySummary| activity_view(a)) == activity_upto(
                all_p,
                all_d,
                start,
                end,
                i as int,
            ),
        decreases ps@.len(),
    {
        let ghost before = out@;
        let p = ps.remove(0);
        let tasks = ds.remove(0);
        assert(p == all_p[i as int]);
        assert(tasks == all_d[i as int]);
        let filtered = keep_done_between(tasks, start, end);
        if filtered.len() > 0 || p.active_task_count > 0 {
            let count = p.active_task_count;
            out.push(
                ProjectActivitySummary {
                    slug: p.slug,
                    name: p.name,
                    completed_tasks: filtered,
                    active_task_count: count,
                },
            );
            assert(out@.map_values(|a: ProjectActivitySummary| activity_view(a)) =~= before.map_values(
                |a: ProjectActivitySummary| activity_view(a),
            ).push(activity_view(out@.last())));
        }
        i += 1;
        assert(ps@ =~= all_p.subrange(i as int, all_p.len() as int));
        assert(ds@ =~= all_d.subrange(i as int, all_d.len() as int));
    }
    out
}

proof fn lemma_done_between(tasks: Seq<TaskSummary>, start: i32, end: i32, n: int)
    requires
        0 <= n <= tasks.len(),
    ensures
        forall|t: int|
            0 <= t < n && (#[trigger] tasks[t]).completed is Some && start <= local_day((tasks[t]).completed->0) <= end
                ==> done_between(tasks, start, end, n).contains(tasks[t]),
        forall|k: int|
            0 <= k < done_between(tasks, start, end, n).len() ==> (#[trigger] done_between(
                tasks,
                start,
                end,
                n,
            )[k]).completed is Some && start <= local_day(done_between(tasks, start, end, n)[k].completed->0) <= end,
    decreases n,
{
    if n > 0 {
        lemma_done_between(tasks, start, end, n - 1);
        let prev = done_between(tasks, start, end, n - 1);
        let cur = done_between(tasks, start, end, n);
        assert forall|t: int|
            0 <= t < n && (#[trigger] tasks[t]).completed is Some && start <= local_day((tasks[t]).completed->0) <= end
                implies cur.contains(tasks[t]) by {
            if t < n - 1 {
                let k = choose|k: int| 0 <= k < prev.len() && prev[k] == tasks[t];
                assert(cur[k] == prev[k]);
            } else {
                assert(cur[cur.len() - 1] == tasks[t]);
            }
        }
        assert forall|k: int| 0 <= k < cur.len() implies (#[trigger] cur[k]).completed is Some && start <= local_day((cur[k]).completed->0) <= end by {
            if k < prev.len() {
                assert(cur[k] == prev[k]);
            }
        }
    }
}

proof fn lemma_activity_lines(projects: Seq<ProjectSummary>, done: Seq<Vec<TaskSummary>>, start: i32, end: i32, n: int)
    requires
        0 <= n <= projects.len(),
        projects.len() == done.len(),
    ensures
        forall|p: int|
            0 <= p < n && (done_between(done[p]@, start, end, done[p]@.len() as int).len() > 0
                || projects[p].active_task_count > 0) ==> #[trigger] activity_upto(projects, done, start, end, n).contains(
                (
                    projects[p].slug@,
                    projects[p].name@,
                    done_between(done[p]@, start, end, done[p]@.len() as int),
                    projects[p].active_task_count,
                ),
            ),
        forall|k: int|
            0 <= k < activity_upto(projects, done, start, end, n).len() ==> exists|p: int|
                0 <= p < n && #[trigger] activity_upto(projects, done, start, end, n)[k] == (
                    projects[p].slug@,
                    projects[p].name@,
                    done_between(done[p]@, start, end, done[p]@.len() as int),
                    projects[p].active_task_count,
                ),
    decreases n,
{
    if n > 0 {
        lemma_activity_lines(projects, done, start, end, n - 1);
        let prev = activity_upto(projects, done, start, end, n - 1);
        let cur = activity_upto(projects, done, start, end, n);
        assert forall|p: int|
            0 <= p < n && (done_between(done[p]@, start, end, done[p]@.len() as int).len() > 0
                || projects[p].active_task_count > 0) implies #[trigger] activity_upto(projects, done, start, end, n).contains(
                (
                    projects[p].slug@,
                    projects[p].name@,
                    done_between(done[p]@, start, end, done[p]@.len() as int),
                    projects[p].active_task_count,
                ),
            ) by {
            if p < n - 1 {
                let line = (
                    projects[p].slug@,
                    projects[p].name@,
                    done_between(done[p]@, start, end, done[p]@.len() as int),
                    projects[p].active_task_count,
                );
                assert(prev.contains(line));
                let k = choose|k: int| 0 <= k < prev.len() && prev[k] == line;
                assert(cur[k] == prev[k]);
            } else {
                assert(cur[cur.len() - 1] == cur.last());
            }
        }
        assert forall|k: int| 0 <= k < cur.len() implies exists|p: int|
            0 <= p < n && #[trigger] cur[k] == (
                projects[p].slug@,
                projects[p].name@,
                done_between(done[p]@, start, end, done[p]@.len() as int),
                projects[p].active_task_count,
            ) by {
            if k < prev.len() {
                assert(cur[k] == prev[k]);
                assert(exists|p: int|
                    0 <= p < n - 1 && #[trigger] prev[k] == (
                        projects[p].slug@,
                        projects[p].name@,
                        done_between(done[p]@, start, end, done[p]@.len() as int),
                        projects[p].active_task_count,
                    ));
            } else {
                assert(cur[k] == (
                    projects[n - 1].slug@,
                    projects[n - 1].name@,
                    done_between(done[n - 1]@, start, end, done[n - 1]@.len() as int),
                    projects[n - 1].active_task_count,
                ));
            }
        }
    }
}

/// The activity report keeps exactly the tasks completed in the period,
/// both ends included: a done task whose completion day, in its own
/// offset, lies from `start` to `end` is in the report line of its
/// project (so that project is listed); every task in a report line was
/// completed on such a day; and every report line is that of a project,
/// with its slug, name and active count.
pub proof fn law_activity_keeps_period(
    projects: Seq<ProjectSummary>,
    done: Seq<Vec<TaskSummary>>,
    start: i32,
    end: i32,
)
    requires
        projects.len() == done.len(),
    ensures
        forall|p: int, t: int|
            0 <= p < projects.len() && 0 <= t < done[p]@.len() && (#[trigger] done[p]@[t]).completed is Some && start <= local_day((done[p]@[t]).completed->0) <= end ==> exists|k: int|
                0 <= k < activity_upto(projects, done, start, end, projects.len() as int).len() && {
                    let line = #[trigger] activity_upto(projects, done, start, end, projects.len() as int)[k];
                    &&& line.0 == projects[p].slug@
                    &&& line.1 == projects[p].name@
                    &&& line.3 == projects[p].active_task_count
                    &&& line.2.contains(done[p]@[t])
                },
        forall|k: int, j: int|
            0 <= k < activity_upto(projects, done, start, end, projects.len() as int).len() && 0 <= j
                < activity_upto(projects, done, start, end, projects.len() as int)[k].2.len() ==> (
            #[trigger] activity_upto(projects, done, start, end, projects.len() as int)[k].2[j]).completed is Some
                && start <= local_day(
                activity_upto(projects, done, start, end, projects.len() as int)[k].2[j].completed->0,
            ) <= end,
{
    let n = projects.len() as int;
    let r = activity_upto(projects, done, start, end, n);
    lemma_activity_lines(projects, done, start, end, n);
    assert forall|p: int, t: int|
        0 <= p < n && 0 <= t < done[p]@.len() && (#[trigger] done[p]@[t]).completed is Some && start <= local_day((done[p]@[t]).completed->0) <= end implies exists|k: int|
            0 <= k < r.len() && {
                let line = #[trigger] r[k];
                &&& line.0 == projects[p].slug@
                &&& line.1 == projects[p].name@
                &&& line.3 == projects[p].active_task_count
                &&& line.2.contains(done[p]@[t])
            } by {
        let tasks = done[p]@;
        lemma_done_between(tasks, start, end, tasks.len() as int);
        let dt = done_between(tasks, start, end, tasks.len() as int);
        assert(dt.contains(tasks[t]));
        let line = (projects[p].slug@, projects[p].name@, dt, projects[p].active_task_count);
        assert(r.contains(line));
        let k = choose|k: int| 0 <= k < r.len() && r[k] == line;
        assert(r[k] == line);
    }
    assert forall|k: int, j: int| 0 <= k < r.len() && 0 <= j < r[k].2.len() implies (#[trigger] r[k].2[j]).completed is Some
        && start <= local_day(r[k].2[j].completed->0) <= end by {
        let p = choose|p: int|
            0 <= p < n && #[trigger] r[k] == (
                projects[p].slug@,
                projects[p].name@,
                done_between(done[p]@, start, end, done[p]@.len() as int),
                projects[p].active_task_count,
            );
        lemma_done_between(done[p]@, start, end, done[p]@.len() as int);
        assert(r[k].2[j] == done_between(done[p]@, start, end, done[p]@.len() as int)[j]);
    }
}

/// The valid slugs among the first `n` directory names, in listing order.
pub open spec fn slugs_upto(names: Seq<String>, n: int) -> Seq<String>
    decreases n,
{
    if n <= 0 {
        Seq::empty()
    } else if is_valid_slug(names[n - 1]@) {
        slugs_upto(names, n - 1).push(names[n - 1])
    } else {
        slugs_upto(names, n - 1)
    }
}

/// Whether the strings come in order: none sorts before one listed
/// earlier.
pub open spec fn in_name_order(v: Seq<String>) -> bool {
    forall|i: int, j: int| 0 <= i < j < v.len() ==> !lex_lt(v[j]@, v[i]@)
}

/// The project slugs among the directory names of the projects directory,
/// sorted by name; names that are not valid slugs are skipped.
pub fn project_slugs(dir_names: Vec<String>) -> (res: Vec<String>)
    ensures
        res@.to_multiset() == slugs_upto(dir_names@, dir_names@.len() as int).to_multiset(),
        in_name_order(res@),
{
    let ghost all = dir_names@;
    let count = dir_names.len();
    assert(all.len() == count);
    let mut rest = dir_names;
    let mut out: Vec<String> = Vec::new();
    let mut i: usize = 0;
    while rest.len() > 0
        invariant
            all.len() <= usize::MAX,
            i + rest@.len() == all.len(),
            rest@ == all.subrange(i as int, all.len() as int),
            out@.to_multiset() == slugs_upto(all, i as int).to_multiset(),
            in_name_order(out@),
        decreases rest@.len(),
    {
        let name = rest.remove(0);
        assert(name == all[i as int]);
        if Slug::parse(name.as_str()).is_ok() {
            let mut p: usize = 0;
            while p < out.len() && !lex_less(name.as_str(), out[p].as_str())
                invariant
                    p <= out.len(),
                    forall|j: int| 0 <= j < p ==> !lex_lt(name@, #[trigger] out@[j]@),
                decreases out.len() - p,
            {
                p += 1;
            }
            let ghost before = out@;
            let ghost nv = name@;
            out.insert(p, name);
            proof {
                vstd::seq_lib::to_multiset_insert(before, p as int, all[i as int]);
                vstd::seq_lib::to_multiset_build(slugs_upto(all, i as int), all[i as int]);
                assert forall|a: int, b: int| 0 <= a < b < out@.len() implies !lex_lt(out@[b]@, out@[a]@) by {
                    if b < p {
                        assert(out@[a] == before[a] && out@[b] == before[b]);
                    } else if b == p {
                        assert(out@[a] == before[a]);
                    } else if a == p {
                        assert(out@[b] == before[b - 1]);
                        if b - 1 > p {
                            assert(!lex_lt(before[b - 1]@, before[p as int]@));
                        }
                        assert(lex_lt(nv, before[p as int]@));
                        if lex_lt(out@[b]@, nv) {
                            if b - 1 == p {
                                crate::order::lemma_lex_asymmetric(nv, before[p as int]@);
                            } else {
                                lemma_lex_total(before[b - 1]@, before[p as int]@);
                                if lex_lt(before[b - 1]@, before[p as int]@) {
                                } else if before[b - 1]@ == before[p as int]@ {
                                    crate::order::lemma_lex_asymmetric(nv, before[p as int]@);
                                } else {
                                    crate::order::lemma_lex_transitive(before[p as int]@, before[b - 1]@, nv);
                                    crate::order::lemma_lex_asymmetric(nv, before[p as int]@);
                                }
                            }
                        }
                    } else if a < p {
                        assert(out@[a] == before[a] && out@[b] == before[b - 1]);
                        if a < b - 1 {
                        } else {
                            crate::order::lemma_lex_irreflexive(before[a]@);
                        }
                    } else {
                        assert(out@[a] == before[a - 1] && out@[b] == before[b - 1]);
                    }
                }
            }
        }
        i += 1;
        assert(rest@ =~= all.subrange(i as int, all.len() as int));
    }
    out
}

/// `project: <slug>`.
pub open spec fn project_label(slug: Seq<char>) -> Seq<char> {
    "project: "@ + slug
}

/// `task: <slug>/<filename>`.
pub open spec fn task_label(slug: Seq<char>, filename: Seq<char>) -> Seq<char> {
    "task: "@ + slug + "/"@ + filename
}

fn project_text(slug: &Slug) -> (res: String)
    ensures
        res@ == project_label(slug@),
{
    proof {
        reveal_strlit("project: ");
    }
    let mut s = String::from_str("project: ");
    s.append(slug.as_str());
    s
}

fn task_text(slug: &Slug, filename: &Filename) -> (res: String)
    ensures
        res@ == task_label(slug@, filename@),
{
    proof {
        reveal_strlit("task: ");
        reveal_strlit("/");
    }
    let mut s = String::from_str("task: ");
    s.append(slug.as_str());
    s.append("/");
    s.append(filename.as_str());
    s
}

/// Where a new project goes, and what its file says.
pub struct ProjectCreation {
    pub project_dir: String,
    pub active_dir: String,
    pub done_dir: String,
    pub file_path: String,
    pub frontmatter: ProjectFrontmatter,
}

/// Creating a project: refused when its project file already exists;
/// otherwise its directory, its active and done task directories and its
/// project file (named, created at `now`, described) are to be made.
pub fn create_project(
    base_dir: &str,
    slug: &Slug,
    name: &str,
    description: &str,
    file_exists: bool,
    now: Moment,
) -> (res: Result<ProjectCreation, CoreError>)
    ensures
        file_exists ==> (res matches Err(e) && e == CoreError::AlreadyExists(e->AlreadyExists_0)
            && e->AlreadyExists_0@ == project_label(slug@)),
        !file_exists ==> (res matches Ok(c) && {
            &&& c.project_dir@ == project_dir_of(base_dir@, slug@)
            &&& c.active_dir@ == active_tasks_dir_of(base_dir@, slug@)
            &&& c.done_dir@ == done_tasks_dir_of(base_dir@, slug@)
            &&& c.file_path@ == project_file_of(base_dir@, slug@)
            &&& c.frontmatter.name@ == name@
            &&& c.frontmatter.created == now
            &&& c.frontmatter.description@ == description@
        }),
{
    if file_exists {
        return Err(CoreError::AlreadyExists(project_text(slug)));
    }
    let s = slug.as_str();
    Ok(
        ProjectCreation {
            project_dir: project_dir(base_dir, s),
            active_dir: active_tasks_dir(base_dir, s),
            done_dir: done_tasks_dir(base_dir, s),
            file_path: project_file_path(base_dir, s),
            frontmatter: ProjectFrontmatter {
                name: copy_string(name),
                created: now,
                description: copy_string(description),
            },
        },
    )
}

/// Reading a project: the path of its project file, or not found when the
/// file does not exist.
pub fn read_project(base_dir: &str, slug: &Slug, file_exists: bool) -> (res: Result<String, CoreError>)
    ensures
        file_exists ==> (res matches Ok(p) && p@ == project_file_of(base_dir@, slug@)),
        !file_exists ==> (res matches Err(e) && e == CoreError::NotFound(e->NotFound_0)
            && e->NotFound_0@ == project_label(slug@)),
{
    if !file_exists {
        return Err(CoreError::NotFound(project_text(slug)));
    }
    Ok(project_file_path(base_dir, slug.as_str()))
}

/// The projects of one base directory.
pub struct Projects {
    base_dir: String,
}

impl Projects {
    /// The projects kept under `base_dir`.
    pub fn new(base_dir: String) -> (res: Projects)
        ensures
            res.base_dir() == base_dir@,
    {
        Projects { base_dir }
    }

    /// The base directory.
    pub closed spec fn base_dir(&self) -> Seq<char> {
        self.base_dir@
    }

    /// The project file of a project.
    pub fn file_path(&self, slug: &Slug) -> (res: String)
        ensures
            res@ == project_file_of(self.base_dir(), slug@),
    {
        project_file_path(self.base_dir.as_str(), slug.as_str())
    }
}

/// The format of a task's file name stamp: date, time and milliseconds.
pub open spec fn task_stamp_format() -> Seq<char> {
    "%Y%m%d_%H%M%S_%3f"@
}

/// The file name of a task created at `now`, `YYYYMMDD_HHMMSS_mmm.md`;
/// none when chrono cannot render the moment.
pub open spec fn task_name_at(now: Moment) -> Option<Seq<char>> {
    match rendered_moment(now.secs, now.nanos, now.offset_secs, task_stamp_format()) {
        Some(s) => Some(s + ".md"@),
        None => None,
    }
}

/// The file name of a task created at `now`: `YYYYMMDD_HHMMSS_mmm.md`;
/// none when chrono cannot render the moment.
pub fn task_file_name(now: Moment) -> (res: Option<String>)
    ensures
        match task_name_at(now) {
            Some(s) => res matches Some(n) && n@ == s,
            None => res is None,
        },
{
    proof {
        reveal_strlit("%Y%m%d_%H%M%S_%3f");
        reveal_strlit(".md");
    }
    let mut name = match format_moment(now, "%Y%m%d_%H%M%S_%3f") {
        Some(s) => s,
        None => {
            return None;
        },
    };
    name.append(".md");
    Some(name)
}

/// Where a new task goes, and what its file says.
pub struct TaskCreation {
    pub file_path: String,
    pub frontmatter: TaskFrontmatter,
}

/// The active and done paths of a task file.
pub struct TaskPaths {
    pub active: String,
    pub done: String,
}

/// What each task operation decides before it touches files, for the
/// tasks kept under one base directory.
pub trait TaskRepository {
    /// The base directory the tasks are kept under.
    spec fn base(&self) -> Seq<char>;

    /// Creating a task at `now`: refused when the project's active task
    /// directory does not exist; otherwise, when chrono cannot render the
    /// moment, a parse error; otherwise the file to write in that directory,
    /// named by the moment (see `task_file_name`), and its frontmatter
    /// (titled, created now, not completed, tagged).
    fn create(
        &self,
        project_slug: &Slug,
        title: &str,
        tags: &Vec<String>,
        now: Moment,
        active_dir_exists: bool,
    ) -> (res: Result<TaskCreation, CoreError>)
        ensures
            !active_dir_exists ==> (res matches Err(e) && e == CoreError::NotFound(e->NotFound_0)
                && e->NotFound_0@ == project_label(project_slug@)),
            active_dir_exists ==> match task_name_at(now) {
                None => res matches Err(e) && e == CoreError::Parse(e->Parse_0)
                    && e->Parse_0@ == "time out of range"@,
                Some(n) => res matches Ok(c) && {
                    &&& c.file_path@ == join(active_tasks_dir_of(self.base(), project_slug@), n)
                    &&& c.frontmatter.title@ == title@
                    &&& c.frontmatter.created == now
                    &&& c.frontmatter.completed is None
                    &&& c.frontmatter.tags@ == tags@
                },
            },
    ;

    /// Listing a project's active tasks: the directory to list, or not
    /// found when the project file does not exist.
    fn list_active(&self, project_slug: &Slug, project_exists: bool) -> (res: Result<String, CoreError>)
        ensures
            project_exists ==> (res matches Ok(d) && d@ == active_tasks_dir_of(self.base(), project_slug@)),
            !project_exists ==> (res matches Err(e) && e == CoreError::NotFound(e->NotFound_0)
                && e->NotFound_0@ == project_label(project_slug@)),
    ;

    /// Listing a project's completed tasks: the directory to list, or not
    /// found when the project file does not exist.
    fn list_done(&self, project_slug: &Slug, project_exists: bool) -> (res: Result<String, CoreError>)
        ensures
            project_exists ==> (res matches Ok(d) && d@ == done_tasks_dir_of(self.base(), project_slug@)),
            !project_exists ==> (res matches Err(e) && e == CoreError::NotFound(e->NotFound_0)
                && e->NotFound_0@ == project_label(project_slug@)),
    ;

    /// Completing a task: refused when it is not among the active tasks;
    /// otherwise it is read from its active path, written to its done path
    /// (see `TaskSummary::completed_frontmatter`) and removed from the
    /// active one.
    fn complete(&self, project_slug: &Slug, filename: &Filename, active_exists: bool) -> (res: Result<TaskPaths, CoreError>)
        ensures
            !active_exists ==> (res matches Err(e) && e == CoreError::NotFound(e->NotFound_0)
                && e->NotFound_0@ == task_label(project_slug@, filename@)),
            active_exists ==> (res matches Ok(p) && p.active@ == join(
                active_tasks_dir_of(self.base(), project_slug@),
                filename@,
            ) && p.done@ == join(done_tasks_dir_of(self.base(), project_slug@), filename@)),
    ;

    /// Updating a task: refused when it is not among the active tasks;
    /// otherwise the active path to read and rewrite (see
    /// `TaskSummary::updated_frontmatter`).
    fn update(&self, project_slug: &Slug, filename: &Filename, active_exists: bool) -> (res: Result<String, CoreError>)
        ensures
            !active_exists ==> (res matches Err(e) && e == CoreError::NotFound(e->NotFound_0)
                && e->NotFound_0@ == task_label(project_slug@, filename@)),
            active_exists ==> (res matches Ok(p) && p@ == join(
                active_tasks_dir_of(self.base(), project_slug@),
                filename@,
            )),
    ;

    /// Deleting a task: the active file when there is one, else the done
    /// file when there is one, else not found.
    fn delete(&self, project_slug: &Slug, filename: &Filename, active_exists: bool, done_exists: bool) -> (res: Result<String, CoreError>)
        ensures
            active_exists ==> (res matches Ok(p) && p@ == join(
                active_tasks_dir_of(self.base(), project_slug@),
                filename@,
            )),
            !active_exists && done_exists ==> (res matches Ok(p) && p@ == join(
                done_tasks_dir_of(self.base(), project_slug@),
                filename@,
            )),
            !active_exists && !done_exists ==> (res matches Err(e) && e == CoreError::NotFound(
                e->NotFound_0,
            ) && e->NotFound_0@ == task_label(project_slug@, filename@)),
    ;
}

/// The tasks of one base directory, kept as files.
pub struct FsTaskRepository {
    base_dir: String,
}

impl FsTaskRepository {
    /// The tasks kept under `base_dir`.
    pub fn new(base_dir: String) -> (res: FsTaskRepository)
        ensures
            res.base() == base_dir@,
    {
        FsTaskRepository { base_dir }
    }
}

impl TaskRepository for FsTaskRepository {
    closed spec fn base(&self) -> Seq<char> {
        self.base_dir@
    }

    fn create(
        &self,
        project_slug: &Slug,
        title: &str,
        tags: &Vec<String>,
        now: Moment,
        active_dir_exists: bool,
    ) -> (res: Result<TaskCreation, CoreError>) {
        if !active_dir_exists {
            return Err(CoreError::NotFound(project_text(project_slug)));
        }
        let file_name = match task_file_name(now) {
            Some(n) => n,
            None => {
                return Err(CoreError::Parse(String::from_str("time out of range")));
            },
        };
        let dir = active_tasks_dir(self.base_dir.as_str(), project_slug.as_str());
        Ok(
            TaskCreation {
                file_path: join_path(dir.as_str(), file_name.as_str()),
                frontmatter: TaskFrontmatter {
                    title: copy_string(title),
                    created: now,
                    completed: None,
                    tags: copy_strings(tags),
                },
            },
        )
    }

    fn list_active(&self, project_slug: &Slug, project_exists: bool) -> (res: Result<String, CoreError>) {
        if !project_exists {
            return Err(CoreError::NotFound(project_text(project_slug)));
        }
        Ok(active_tasks_dir(self.base_dir.as_str(), project_slug.as_str()))
    }

    fn list_done(&self, project_slug: &Slug, project_exists: bool) -> (res: Result<String, CoreError>) {
        if !project_exists {
            return Err(CoreError::NotFound(project_text(project_slug)));
        }
        Ok(done_tasks_dir(self.base_dir.as_str(), project_slug.as_str()))
    }

    fn complete(&self, project_slug: &Slug, filename: &Filename, active_exists: bool) -> (res: Result<TaskPaths, CoreError>) {
        if !active_exists {
            return Err(CoreError::NotFound(task_text(project_slug, filename)));
        }
        let a = active_tasks_dir(self.base_dir.as_str(), project_slug.as_str());
        let d = done_tasks_dir(self.base_dir.as_str(), project_slug.as_str());
        Ok(
            TaskPaths {
                active: join_path(a.as_str(), filename.as_str()),
                done: join_path(d.as_str(), filename.as_str()),
            },
        )
    }

    fn update(&self, project_slug: &Slug, filename: &Filename, active_exists: bool) -> (res: Result<String, CoreError>) {
        if !active_exists {
            return Err(CoreError::NotFound(task_text(project_slug, filename)));
        }
        let a = active_tasks_dir(self.base_dir.as_str(), project_slug.as_str());
        Ok(join_path(a.as_str(), filename.as_str()))
    }

    fn delete(&self, project_slug: &Slug, filename: &Filename, active_exists: bool, done_exists: bool) -> (res: Result<String, CoreError>) {
        if active_exists {
            let a = active_tasks_dir(self.base_dir.as_str(), project_slug.as_str());
            return Ok(join_path(a.as_str(), filename.as_str()));
        }
        if done_exists {
            let d = done_tasks_dir(self.base_dir.as_str(), project_slug.as_str());
            return Ok(join_path(d.as_str(), filename.as_str()));
        }
        Err(CoreError::NotFound(task_text(project_slug, filename)))
    }
}

/// Creating a task under `base_dir` at `now` (see
/// `TaskRepository::create`).
pub fn create_task(
    base_dir: &str,
    project_slug: &Slug,
    title: &str,
    tags: &Vec<String>,
    now: Moment,
    active_dir_exists: bool,
) -> (res: Result<TaskCreation, CoreError>)
    ensures
        !active_dir_exists ==> (res matches Err(e) && e == CoreError::NotFound(e->NotFound_0)
            && e->NotFound_0@ == project_label(project_slug@)),
        active_dir_exists ==> match task_name_at(now) {
            None => res matches Err(e) && e == CoreError::Parse(e->Parse_0)
                && e->Parse_0@ == "time out of range"@,
            Some(n) => res matches Ok(c) && {
                &&& c.file_path@ == join(active_tasks_dir_of(base_dir@, project_slug@), n)
                &&& c.frontmatter.title@ == title@
                &&& c.frontmatter.created == now
                &&& c.frontmatter.completed is None
                &&& c.frontmatter.tags@ == tags@
            },
        },
{
    FsTaskRepository::new(copy_string(base_dir)).create(project_slug, title, tags, now, active_dir_exists)
}

/// Listing a project's active tasks under `base_dir` (see
/// `TaskRepository::list_active`).
pub fn list_active_tasks(base_dir: &str, project_slug: &Slug, project_exists: bool) -> (res: Result<String, CoreError>)
    ensures
        project_exists ==> (res matches Ok(d) && d@ == active_tasks_dir_of(base_dir@, project_slug@)),
        !project_exists ==> (res matches Err(e) && e == CoreError::NotFound(e->NotFound_0)
            && e->NotFound_0@ == project_label(project_slug@)),
{
    FsTaskRepository::new(copy_string(base_dir)).list_active(project_slug, project_exists)
}

/// Listing a project's completed tasks under `base_dir` (see
/// `TaskRepository::list_done`).
pub fn list_done_tasks(base_dir: &str, project_slug: &Slug, project_exists: bool) -> (res: Result<String, CoreError>)
    ensures
        project_exists ==> (res matches Ok(d) && d@ == done_tasks_dir_of(base_dir@, project_slug@)),
        !project_exists ==> (res matches Err(e) && e == CoreError::NotFound(e->NotFound_0)
            && e->NotFound_0@ == project_label(project_slug@)),
{
    FsTaskRepository::new(copy_string(base_dir)).list_done(project_slug, project_exists)
}

/// Completing a task under `base_dir` (see `TaskRepository::complete`).
pub fn complete_task(base_dir: &str, project_slug: &Slug, filename: &Filename, active_exists: bool) -> (res: Result<TaskPaths, CoreError>)
    ensures
        !active_exists ==> (res matches Err(e) && e == CoreError::NotFound(e->NotFound_0)
            && e->NotFound_0@ == task_label(project_slug@, filename@)),
        active_exists ==> (res matches Ok(p) && p.active@ == join(
            active_tasks_dir_of(base_dir@, project_slug@),
            filename@,
        ) && p.done@ == join(done_tasks_dir_of(base_dir@, project_slug@), filename@)),
{
    FsTaskRepository::new(copy_string(base_dir)).complete(project_slug, filename, active_exists)
}

/// Updating a task under `base_dir` (see `TaskRepository::update`).
pub fn update_task(base_dir: &str, project_slug: &Slug, filename: &Filename, active_exists: bool) -> (res: Result<String, CoreError>)
    ensures
        !active_exists ==> (res matches Err(e) && e == CoreError::NotFound(e->NotFound_0)
            && e->NotFound_0@ == task_label(project_slug@, filename@)),
        active_exists ==> (res matches Ok(p) && p@ == join(active_tasks_dir_of(base_dir@, project_slug@), filename@)),
{
    FsTaskRepository::new(copy_string(base_dir)).update(project_slug, filename, active_exists)
}

/// Deleting a task under `base_dir` (see `TaskRepository::delete`).
pub fn delete_task(
    base_dir: &str,
    project_slug: &Slug,
    filename: &Filename,
    active_exists: bool,
    done_exists: bool,
) -> (res: Result<String, CoreError>)
    ensures
        active_exists ==> (res matches Ok(p) && p@ == join(active_tasks_dir_of(base_dir@, project_slug@), filename@)),
        !active_exists && done_exists ==> (res matches Ok(p) && p@ == join(
            done_tasks_dir_of(base_dir@, project_slug@),
            filename@,
        )),
        !active_exists && !done_exists ==> (res matches Err(e) && e == CoreError::NotFound(
            e->NotFound_0,
        ) && e->NotFound_0@ == task_label(project_slug@, filename@)),
{
    FsTaskRepository::new(copy_string(base_dir)).delete(project_slug, filename, active_exists, done_exists)
}

/// Errors of project operations.
#[derive(Debug, Clone, PartialEq, Eq)]
pub enum ProjectError {
    Io(String),
    NotFound(String),
    AlreadyExists(String),
    InvalidSlug(String),
    Parse(String),
}

/// The message a project error is shown with.
pub open spec fn project_error_text(e: ProjectError) -> Seq<char> {
    match e {
        ProjectError::Io(m) => "IO error: "@ + m@,
        ProjectError::NotFound(m) => "Not found: "@ + m@,
        ProjectError::AlreadyExists(m) => "Already exists: "@ + m@,
        ProjectError::InvalidSlug(m) => "Invalid slug: "@ + m@,
        ProjectError::Parse(m) => "Parse error: "@ + m@,
    }
}

fn prefixed(prefix: &str, m: &String) -> (res: String)
    ensures
        res@ == prefix@ + m@,
{
    let mut out = String::from_str(prefix);
    out.append(m.as_str());
    out
}

impl ProjectError {
    /// The message this error is shown with.
    pub fn describe(&self) -> (res: String)
        ensures
            res@ == project_error_text(*self),
    {
        match self {
            ProjectError::Io(m) => prefixed("IO error: ", m),
            ProjectError::NotFound(m) => prefixed("Not found: ", m),
            ProjectError::AlreadyExists(m) => prefixed("Already exists: ", m),
            ProjectError::InvalidSlug(m) => prefixed("Invalid slug: ", m),
            ProjectError::Parse(m) => prefixed("Parse error: ", m),
        }
    }
}

/// The library error a project error is reported as: each variant maps
/// to the variant of the same name, with the same message.
pub open spec fn core_error_of(err: ProjectError) -> CoreError {
    match err {
        ProjectError::Io(m) => CoreError::Io(m),
        ProjectError::NotFound(m) => CoreError::NotFound(m),
        ProjectError::AlreadyExists(m) => CoreError::AlreadyExists(m),
        ProjectError::InvalidSlug(m) => CoreError::InvalidSlug(m),
        ProjectError::Parse(m) => CoreError::Parse(m),
    }
}

impl From<ProjectError> for CoreError {
    fn from(err: ProjectError) -> (res: CoreError) {
        match err {
            ProjectError::Io(m) => CoreError::Io(m),
            ProjectError::NotFound(m) => CoreError::NotFound(m),
            ProjectError::AlreadyExists(m) => CoreError::AlreadyExists(m),
            ProjectError::InvalidSlug(m) => CoreError::InvalidSlug(m),
            ProjectError::Parse(m) => CoreError::Parse(m),
        }
    }
}

impl vstd::std_specs::convert::FromSpecImpl<ProjectError> for CoreError {
    open spec fn obeys_from_spec() -> bool {
        true
    }

    open spec fn from_spec(err: ProjectError) -> CoreError {
        core_error_of(err)
    }
}

} // verus!
