use chrono::{FixedOffset, NaiveDate, TimeZone};
use magical_merchant_core::error::CoreError;
use magical_merchant_core::moment::Moment;
use magical_merchant_core::project::{
    complete_task, create_project, create_task, delete_task, get_project_activity_summary,
    list_active_tasks, list_done_tasks, project_slugs, read_project, task_file_name, update_task,
    FsTaskRepository, ProjectError, ProjectFrontmatter, ProjectSummary, Projects, TaskFrontmatter,
    TaskRepository, TaskSummary,
};
use magical_merchant_core::validated::{Filename, Slug};

fn slug(s: &str) -> Slug {
    Slug::parse(s).unwrap()
}

fn filename(s: &str) -> Filename {
    Filename::parse(s).unwrap()
}

fn sample_datetime(year: i32, month: u32, day: u32, hour: u32, min: u32, sec: u32) -> Moment {
    let dt = FixedOffset::east_opt(9 * 3600).unwrap().with_ymd_and_hms(year, month, day, hour, min, sec).unwrap();
    Moment { secs: dt.timestamp(), nanos: 0, offset_secs: 9 * 3600 }
}

fn day(y: i32, m: u32, d: u32) -> i32 {
    NaiveDate::from_ymd_opt(y, m, d).unwrap().to_epoch_days()
}

fn project(s: &str, name: &str, active: usize) -> ProjectSummary {
    ProjectSummary::from_frontmatter(
        s.to_string(),
        ProjectFrontmatter {
            name: name.to_string(),
            created: sample_datetime(2026, 1, 1, 12, 0, 0),
            description: "Desc".to_string(),
        },
        active,
    )
}

fn done_task(file: &str, completed: Moment) -> TaskSummary {
    TaskSummary::from_content(
        file,
        TaskFrontmatter {
            title: "Task".to_string(),
            created: sample_datetime(2026, 1, 1, 12, 0, 0),
            completed: Some(completed),
            tags: vec![],
        },
        "body".to_string(),
    )
}

#[test]
fn test_activity_summary_date_filter() {
    let tasks = vec![
        done_task("20260101_120000.md", sample_datetime(2026, 1, 15, 12, 0, 0)),
        done_task("20260201_120000.md", sample_datetime(2026, 2, 15, 12, 0, 0)),
        done_task("20260301_120000.md", sample_datetime(2026, 3, 15, 12, 0, 0)),
    ];
    let result = get_project_activity_summary(vec![project("proj", "Proj", 0)], vec![tasks], day(2026, 1, 1), day(2026, 2, 28));
    assert_eq!(result.len(), 1);
    assert_eq!(result[0].completed_tasks.len(), 2);
}

#[test]
fn test_activity_summary_multiple_projects() {
    let result = get_project_activity_summary(
        vec![project("alpha", "Alpha", 0), project("beta", "Beta", 0)],
        vec![
            vec![done_task("20260101_120000.md", sample_datetime(2026, 1, 15, 12, 0, 0))],
            vec![done_task("20260101_120000.md", sample_datetime(2026, 1, 20, 12, 0, 0))],
        ],
        day(2026, 1, 1),
        day(2026, 1, 31),
    );
    assert_eq!(result.len(), 2);
    assert_eq!(result[0].completed_tasks.len(), 1);
    assert_eq!(result[1].completed_tasks.len(), 1);
}

#[test]
fn test_activity_summary_empty_result() {
    let result = get_project_activity_summary(
        vec![project("proj", "Proj", 0)],
        vec![vec![done_task("20260101_120000.md", sample_datetime(2026, 1, 15, 12, 0, 0))]],
        day(2026, 6, 1),
        day(2026, 6, 30),
    );
    assert!(result.is_empty());
}

#[test]
fn activity_lists_projects_with_active_tasks_and_uses_local_dates() {
    // Completed 2026-02-01 00:30 at +09:00, which is still January in UTC.
    let late = done_task("a.md", sample_datetime(2026, 2, 1, 0, 30, 0));
    let result = get_project_activity_summary(
        vec![project("busy", "Busy", 2), project("quiet", "Quiet", 0)],
        vec![vec![late], vec![]],
        day(2026, 1, 1),
        day(2026, 1, 31),
    );
    assert_eq!(result.len(), 1);
    assert_eq!(result[0].slug, "busy");
    assert!(result[0].completed_tasks.is_empty());
    assert_eq!(result[0].active_task_count, 2);
}

#[test]
fn test_from_frontmatter() {
    let summary = project("my-proj", "My Project", 3);
    assert_eq!(summary.slug, "my-proj");
    assert_eq!(summary.name, "My Project");
    assert_eq!(summary.created, sample_datetime(2026, 1, 1, 12, 0, 0));
    assert_eq!(summary.description, "Desc");
    assert_eq!(summary.active_task_count, 3);
}

#[test]
fn test_from_frontmatter_zero_tasks() {
    let summary = project("empty", "Empty", 0);
    assert_eq!(summary.active_task_count, 0);
}

#[test]
fn test_from_content() {
    let fm = TaskFrontmatter {
        title: "My Task".to_string(),
        created: sample_datetime(2026, 1, 1, 12, 0, 0),
        completed: None,
        tags: vec!["rust".to_string()],
    };
    let task = TaskSummary::from_content("test.md", fm, "task body".to_string());
    assert_eq!(task.filename, "test.md");
    assert_eq!(task.title, "My Task");
    assert_eq!(task.tags, vec!["rust"]);
    assert_eq!(task.body, "task body");
    assert!(task.completed.is_none());
}

#[test]
fn test_to_frontmatter() {
    let task = TaskSummary {
        filename: "test.md".to_string(),
        title: "Task".to_string(),
        created: sample_datetime(2026, 1, 1, 12, 0, 0),
        completed: Some(sample_datetime(2026, 1, 1, 12, 0, 0)),
        tags: vec!["done".to_string()],
        body: "body".to_string(),
    };
    let fm = task.to_frontmatter();
    assert_eq!(fm.title, "Task");
    assert_eq!(fm.created, sample_datetime(2026, 1, 1, 12, 0, 0));
    assert!(fm.completed.is_some());
    assert_eq!(fm.tags, vec!["done"]);
}

#[test]
fn completing_and_updating_keep_creation_time() {
    let task = done_task("t.md", sample_datetime(2026, 1, 2, 0, 0, 0));
    let now = sample_datetime(2026, 5, 5, 5, 5, 5);
    let fm = task.completed_frontmatter(now);
    assert_eq!(fm.completed, Some(now));
    assert_eq!(fm.created, task.created);
    let fm = task.updated_frontmatter("New Title", &vec!["updated".to_string()]);
    assert_eq!(fm.title, "New Title");
    assert_eq!(fm.tags, vec!["updated"]);
    assert!(fm.completed.is_none());
    assert_eq!(fm.created, task.created);
}

#[test]
fn test_list_projects_empty() {
    assert!(project_slugs(vec![]).is_empty());
}

#[test]
fn test_list_projects_multiple() {
    let slugs = project_slugs(vec!["beta".to_string(), "Not A Slug".to_string(), "alpha".to_string()]);
    assert_eq!(slugs.len(), 2);
    assert_eq!(slugs[0], "alpha");
    assert_eq!(slugs[1], "beta");
}

#[test]
fn test_create_project() {
    let s = slug("my-proj");
    let c = create_project("/app", &s, "My Project", "A test project", false, sample_datetime(2026, 1, 1, 12, 0, 0)).unwrap();
    assert_eq!(c.project_dir, "/app/data/projects/my-proj");
    assert_eq!(c.active_dir, "/app/data/projects/my-proj/active");
    assert_eq!(c.done_dir, "/app/data/projects/my-proj/done");
    assert_eq!(c.file_path, "/app/data/projects/my-proj/project.md");
    assert_eq!(c.frontmatter.name, "My Project");
    assert_eq!(c.frontmatter.description, "A test project");
}

#[test]
fn test_create_project_already_exists() {
    let result = create_project("/app", &slug("proj"), "Proj2", "Desc2", true, sample_datetime(2026, 1, 1, 12, 0, 0));
    assert!(matches!(result, Err(CoreError::AlreadyExists(_))));
}

#[test]
fn test_read_project_not_found() {
    match read_project("/app", &slug("nonexistent"), false) {
        Err(CoreError::NotFound(m)) => assert_eq!(m, "project: nonexistent"),
        _ => panic!("expected not found"),
    }
    assert_eq!(read_project("/app", &slug("p"), true).unwrap(), "/app/data/projects/p/project.md");
    assert_eq!(Projects::new("/app".to_string()).file_path(&slug("p")), "/app/data/projects/p/project.md");
}

#[test]
fn test_create_task_nonexistent_project() {
    let result = create_task("/app", &slug("nonexistent"), "Task", &vec![], sample_datetime(2026, 1, 1, 12, 0, 0), false);
    assert!(matches!(result, Err(CoreError::NotFound(_))));
}

#[test]
fn creating_a_task_names_it_by_its_creation_time() {
    let now = Moment { secs: 1767268800, nanos: 123_456_789, offset_secs: 0 };
    let name = task_file_name(now).unwrap();
    assert_eq!(name, "20260101_120000_123.md");
    let c = create_task("/app", &slug("p"), "Task", &vec!["t".to_string()], now, true).unwrap();
    assert_eq!(c.file_path, "/app/data/projects/p/active/20260101_120000_123.md");
    assert_eq!(c.frontmatter.title, "Task");
    assert!(c.frontmatter.completed.is_none());
    assert_eq!(c.frontmatter.tags, vec!["t"]);
    let repo = FsTaskRepository::new("/app".to_string());
    let c = repo.create(&slug("p"), "Task", &vec![], now, true).unwrap();
    assert_eq!(c.file_path, "/app/data/projects/p/active/20260101_120000_123.md");
    let far = Moment { secs: i64::MAX, nanos: 0, offset_secs: 0 };
    assert!(matches!(create_task("/app", &slug("p"), "Task", &vec![], far, true), Err(CoreError::Parse(m)) if m == "time out of range"));
    assert!(matches!(create_task("/app", &slug("p"), "Task", &vec![], far, false), Err(CoreError::NotFound(_))));
}

#[test]
fn test_list_active_tasks_nonexistent_project() {
    assert!(matches!(list_active_tasks("/app", &slug("nonexistent"), false), Err(CoreError::NotFound(_))));
    assert_eq!(list_active_tasks("/app", &slug("p"), true).unwrap(), "/app/data/projects/p/active");
}

#[test]
fn test_list_done_tasks_nonexistent_project() {
    assert!(matches!(list_done_tasks("/app", &slug("nonexistent"), false), Err(CoreError::NotFound(_))));
    assert_eq!(list_done_tasks("/app", &slug("p"), true).unwrap(), "/app/data/projects/p/done");
}

#[test]
fn test_complete_task_not_found() {
    match complete_task("/app", &slug("proj"), &filename("nonexistent.md"), false) {
        Err(CoreError::NotFound(m)) => assert_eq!(m, "task: proj/nonexistent.md"),
        _ => panic!("expected not found"),
    }
    let p = complete_task("/app", &slug("proj"), &filename("t.md"), true).unwrap();
    assert_eq!(p.active, "/app/data/projects/proj/active/t.md");
    assert_eq!(p.done, "/app/data/projects/proj/done/t.md");
    assert_eq!(update_task("/app", &slug("proj"), &filename("t.md"), true).unwrap(), "/app/data/projects/proj/active/t.md");
}

#[test]
fn test_delete_active_task() {
    let p = delete_task("/app", &slug("proj"), &filename("20260101_120000.md"), true, true).unwrap();
    assert_eq!(p, "/app/data/projects/proj/active/20260101_120000.md");
}

#[test]
fn test_delete_done_task() {
    let p = delete_task("/app", &slug("proj"), &filename("20260101_120000.md"), false, true).unwrap();
    assert_eq!(p, "/app/data/projects/proj/done/20260101_120000.md");
}

#[test]
fn test_delete_task_not_found() {
    let result = delete_task("/app", &slug("proj"), &filename("nonexistent.md"), false, false);
    assert!(matches!(result, Err(CoreError::NotFound(_))));
}

#[test]
fn project_errors_read_as_displayed() {
    assert_eq!(ProjectError::NotFound("x".to_string()).describe(), "Not found: x");
    assert_eq!(ProjectError::InvalidSlug("B".to_string()).describe(), "Invalid slug: B");
}

#[test]
fn project_errors_become_library_errors_of_the_same_kind() {
    assert_eq!(CoreError::from(ProjectError::NotFound("x".to_string())), CoreError::NotFound("x".to_string()));
    assert_eq!(CoreError::from(ProjectError::Io("disk".to_string())), CoreError::Io("disk".to_string()));
}

#[test]
fn the_file_repository_decides_under_its_base() {
    let repo = FsTaskRepository::new("/base".to_string());
    assert_eq!(repo.delete(&slug("p"), &filename("t.md"), false, true).unwrap(), "/base/data/projects/p/done/t.md");
    assert_eq!(repo.list_active(&slug("p"), true).unwrap(), "/base/data/projects/p/active");
    assert!(matches!(repo.update(&slug("p"), &filename("t.md"), false), Err(CoreError::NotFound(_))));
}

fn active_task(file: &str, title: &str, created: Moment, tags: Vec<String>, body: &str) -> TaskSummary {
    TaskSummary::from_content(file, TaskFrontmatter { title: title.to_string(), created, completed: None, tags }, body.to_string())
}

#[test]
fn test_list_active_tasks_empty() {
    assert!(magical_merchant_core::listing::list_md_files(vec![]).is_empty());
}

#[test]
fn test_list_active_tasks_multiple() {
    let names = magical_merchant_core::listing::list_md_files(vec![
        "20260101_120000.md".to_string(),
        "20260102_120000.md".to_string(),
    ]);
    let tasks: Vec<TaskSummary> = names
        .iter()
        .map(|n| {
            let (title, day) = if n == "20260101_120000.md" { ("First", 1) } else { ("Second", 2) };
            active_task(n, title, sample_datetime(2026, 1, day, 12, 0, 0), vec![], "body")
        })
        .collect();
    assert_eq!(tasks.len(), 2);
    assert_eq!(tasks[0].title, "Second");
    assert_eq!(tasks[1].title, "First");
}

#[test]
fn test_create_task() {
    let tags = vec!["rust".to_string(), "test".to_string()];
    let now = sample_datetime(2026, 1, 1, 12, 0, 0);
    let name = task_file_name(now).unwrap();
    let c = create_task("/app", &slug("proj"), "My Task", &tags, now, true).unwrap();
    assert_eq!(c.frontmatter.title, "My Task");
    assert_eq!(c.frontmatter.tags, vec!["rust", "test"]);
    assert!(c.file_path.starts_with("/app/data/projects/proj/active/"));
    assert!(c.file_path.ends_with(&name));
}

#[test]
fn test_complete_task() {
    let task = active_task("20260101_120000.md", "Task", sample_datetime(2026, 1, 1, 12, 0, 0), vec!["a".to_string()], "body");
    let paths = complete_task("/app", &slug("proj"), &filename("20260101_120000.md"), true).unwrap();
    assert_eq!(paths.done, "/app/data/projects/proj/done/20260101_120000.md");
    let fm = task.completed_frontmatter(sample_datetime(2026, 1, 2, 9, 0, 0));
    assert_eq!(fm.title, "Task");
    assert!(fm.completed.is_some());
    assert_eq!(fm.tags, vec!["a"]);
    assert_eq!(task.body, "body");
}

#[test]
fn test_update_task() {
    let original_created = sample_datetime(2026, 1, 1, 12, 0, 0);
    let task = active_task("20260101_120000.md", "Old", original_created, vec![], "old body");
    let new_tags = vec!["updated".to_string()];
    let fm = task.updated_frontmatter("New Title", &new_tags);
    assert_eq!(fm.title, "New Title");
    assert_eq!(fm.tags, vec!["updated"]);
    assert_eq!(fm.created, original_created);
}

#[test]
fn test_read_project() {
    let path = read_project("/app", &slug("test-proj"), true).unwrap();
    assert_eq!(path, "/app/data/projects/test-proj/project.md");
    let summary = ProjectSummary::from_frontmatter(
        "test-proj".to_string(),
        ProjectFrontmatter { name: "Test".to_string(), created: sample_datetime(2026, 1, 1, 12, 0, 0), description: "Desc".to_string() },
        magical_merchant_core::listing::count_md_files(&[]),
    );
    assert_eq!(summary.slug, "test-proj");
    assert_eq!(summary.name, "Test");
    assert_eq!(summary.description, "Desc");
    assert_eq!(summary.active_task_count, 0);
}

#[test]
fn test_read_project_with_active_tasks() {
    let count = magical_merchant_core::listing::count_md_files(&["20260101_120000.md".to_string()]);
    let summary = project("proj", "Proj", count);
    assert_eq!(summary.active_task_count, 1);
}
