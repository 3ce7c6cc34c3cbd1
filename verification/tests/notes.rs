use magical_merchant_core::context::Context;
use magical_merchant_core::error::CoreError;
use magical_merchant_core::listing::{confine_note, count_md_files, list_md_files, locate_note};
use magical_merchant_core::moment::Moment;
use magical_merchant_core::note::{
    backlinks_in, mentions_in, note_frontmatter, render, resolve, NoteFrontmatter, NoteSummary,
    Notes,
};
use magical_merchant_core::note_search::{search, NoteText};
use magical_merchant_core::timeline::{self, TimelineDay};
use magical_merchant_core::validated::NoteFilename;

fn jan_first() -> Moment {
    // 2026-01-01T00:00:00+09:00
    Moment { secs: 1767193200, nanos: 0, offset_secs: 9 * 3600 }
}

fn fm(tags: Vec<String>) -> NoteFrontmatter {
    NoteFrontmatter { time: jan_first(), tags, context: None }
}

/// The notes as the notes directory lists them (newest first), with
/// their bodies.
fn listed(files: &[(&str, &str)]) -> (Vec<NoteSummary>, Vec<Option<String>>) {
    let names: Vec<String> = files.iter().map(|(n, _)| n.to_string()).collect();
    let order = list_md_files(names);
    let mut notes = Vec::new();
    let mut bodies = Vec::new();
    for name in order {
        let body = files.iter().find(|(n, _)| *n == name).unwrap().1;
        let content = format!("---\ntime: x\n---\n{body}");
        let summary = NoteSummary::from_file(
            format!("/base/data/notes/{name}"),
            name.clone(),
            &content,
            Some((fm(Vec::new()), body.to_string())),
        );
        notes.push(summary);
        bodies.push(Some(body.to_string()));
    }
    (notes, bodies)
}

fn target() -> NoteFilename {
    NoteFilename::parse("20260101_000001.md").unwrap()
}

#[test]
fn test_resolve_no_notes_returns_none() {
    let (notes, _) = listed(&[]);
    assert_eq!(resolve(&notes, "Anything"), None);
}

#[test]
fn test_resolve_finds_note_by_title() {
    let (notes, _) = listed(&[("20260101_000001.md", "# Design Memo\nbody")]);
    assert_eq!(resolve(&notes, "Design Memo"), Some("20260101_000001.md".to_string()));
}

#[test]
fn test_resolve_duplicate_titles_picks_oldest() {
    let (notes, _) = listed(&[
        ("20260102_000000.md", "# Same\nnewer"),
        ("20260101_000000.md", "# Same\nolder"),
    ]);
    assert_eq!(resolve(&notes, "Same"), Some("20260101_000000.md".to_string()));
}

#[test]
fn test_resolve_trims_title_argument() {
    let (notes, _) = listed(&[("20260101_000001.md", "# Padded\nbody")]);
    assert_eq!(resolve(&notes, "  Padded  "), Some("20260101_000001.md".to_string()));
}

#[test]
fn test_resolve_empty_title_returns_none() {
    let (notes, _) = listed(&[("20260101_000001.md", "")]);
    assert_eq!(resolve(&notes, ""), None);
    assert_eq!(resolve(&notes, "   "), None);
}

#[test]
fn test_backlinks_empty_when_no_links() {
    let (notes, bodies) = listed(&[
        ("20260101_000001.md", "# Target\nbody"),
        ("20260101_000002.md", "# Other\nno links"),
    ]);
    assert!(backlinks_in(&notes, &bodies, &target()).unwrap().is_empty());
}

#[test]
fn test_backlinks_finds_single_linker() {
    let (notes, bodies) = listed(&[
        ("20260101_000001.md", "# Target\nbody"),
        ("20260101_000002.md", "# Linker\nsee [[Target]]"),
    ]);
    let result = backlinks_in(&notes, &bodies, &target()).unwrap();
    assert_eq!(result.len(), 1);
    assert_eq!(result[0].filename, "20260101_000002.md");
    assert_eq!(result[0].title, "Linker");
}

#[test]
fn test_backlinks_multiple_linkers() {
    let (notes, bodies) = listed(&[
        ("20260101_000001.md", "# Target\nbody"),
        ("20260101_000002.md", "[[Target]]"),
        ("20260101_000003.md", "also [[Target]]"),
    ]);
    assert_eq!(backlinks_in(&notes, &bodies, &target()).unwrap().len(), 2);
}

#[test]
fn test_backlinks_excludes_self_link() {
    let (notes, bodies) = listed(&[("20260101_000001.md", "# Target\nself [[Target]]")]);
    assert!(backlinks_in(&notes, &bodies, &target()).unwrap().is_empty());
}

#[test]
fn test_backlinks_ignores_unresolved_links() {
    let (notes, bodies) = listed(&[
        ("20260101_000001.md", "# Target\nbody"),
        ("20260101_000002.md", "[[Nonexistent]]"),
    ]);
    assert!(backlinks_in(&notes, &bodies, &target()).unwrap().is_empty());
}

#[test]
fn backlinks_skip_unreadable_notes() {
    let (notes, mut bodies) = listed(&[
        ("20260101_000001.md", "# Target\nbody"),
        ("20260101_000002.md", "[[Target]]"),
    ]);
    bodies[0] = None;
    assert!(backlinks_in(&notes, &bodies, &target()).unwrap().is_empty());
}

#[test]
fn backlinks_refuse_a_listed_bad_filename() {
    let (mut notes, bodies) = listed(&[
        ("20260101_000001.md", "# Target\nbody"),
        ("20260101_000002.md", "[[Target]]"),
    ]);
    notes[0].filename = "../escape.md".to_string();
    match backlinks_in(&notes, &bodies, &target()) {
        Err(CoreError::PathTraversal(name)) => assert_eq!(name, "../escape.md"),
        _ => panic!("expected a path traversal error"),
    }
}

#[test]
fn test_mentions_empty_when_no_notes() {
    let (notes, bodies) = listed(&[]);
    assert!(mentions_in(&notes, &bodies, &target()).unwrap().is_empty());
}

#[test]
fn test_mentions_empty_when_nothing_mentions_title() {
    let (notes, bodies) = listed(&[
        ("20260101_000001.md", "# Rust Tips\nbody"),
        ("20260101_000002.md", "unrelated text"),
    ]);
    assert!(mentions_in(&notes, &bodies, &target()).unwrap().is_empty());
}

#[test]
fn test_mentions_finds_plain_text_mention() {
    let (notes, bodies) = listed(&[
        ("20260101_000001.md", "# Rust Tips\nbody"),
        ("20260101_000002.md", "I should reread Rust Tips soon"),
    ]);
    let result = mentions_in(&notes, &bodies, &target()).unwrap();
    assert_eq!(result.len(), 1);
    assert_eq!(result[0].filename, "20260101_000002.md");
}

#[test]
fn test_mentions_multiple_notes() {
    let (notes, bodies) = listed(&[
        ("20260101_000001.md", "# Rust Tips\nbody"),
        ("20260101_000002.md", "see rust tips"),
        ("20260101_000003.md", "more Rust Tips here"),
    ]);
    assert_eq!(mentions_in(&notes, &bodies, &target()).unwrap().len(), 2);
}

#[test]
fn test_mentions_case_insensitive() {
    let (notes, bodies) = listed(&[
        ("20260101_000001.md", "# Rust Tips\nbody"),
        ("20260101_000002.md", "RUST TIPS in caps"),
    ]);
    assert_eq!(mentions_in(&notes, &bodies, &target()).unwrap().len(), 1);
}

#[test]
fn test_mentions_excludes_notes_that_wikilink() {
    let (notes, bodies) = listed(&[
        ("20260101_000001.md", "# Rust Tips\nbody"),
        ("20260101_000002.md", "see [[Rust Tips]]"),
    ]);
    assert!(mentions_in(&notes, &bodies, &target()).unwrap().is_empty());
}

#[test]
fn test_mentions_excludes_target_itself() {
    let (notes, bodies) = listed(&[("20260101_000001.md", "# Rust Tips\nRust Tips inside itself")]);
    assert!(mentions_in(&notes, &bodies, &target()).unwrap().is_empty());
}

#[test]
fn test_mentions_empty_for_untitled_target() {
    let (notes, bodies) = listed(&[
        ("20260101_000001.md", ""),
        ("20260101_000002.md", "anything at all"),
    ]);
    assert!(mentions_in(&notes, &bodies, &target()).unwrap().is_empty());
}

#[test]
fn test_mentions_missing_target_returns_empty() {
    let (notes, bodies) = listed(&[("20260101_000002.md", "some text")]);
    assert!(mentions_in(&notes, &bodies, &target()).unwrap().is_empty());
}

#[test]
fn test_mentions_japanese_title() {
    let (notes, bodies) = listed(&[
        ("20260101_000001.md", "# 設計メモ\n本文"),
        ("20260101_000002.md", "昨日の設計メモを見直す"),
    ]);
    assert_eq!(mentions_in(&notes, &bodies, &target()).unwrap().len(), 1);
}

fn texts(files: &[(&str, &str)]) -> Vec<NoteText> {
    let names: Vec<String> = files.iter().map(|(n, _)| n.to_string()).collect();
    list_md_files(names)
        .into_iter()
        .map(|name| {
            let body = files.iter().find(|(n, _)| *n == name).unwrap().1;
            NoteText { filename: name, body: body.to_string() }
        })
        .collect()
}

#[test]
fn search_test_search_empty_dir_returns_empty() {
    assert!(search(&texts(&[]), "anything").is_empty());
    assert!(timeline::search(&[], "anything").is_empty());
}

#[test]
fn search_test_search_empty_query_returns_empty() {
    let notes = texts(&[("20260101_000001.md", "some body")]);
    assert!(search(&notes, "").is_empty());
    assert!(search(&notes, "   ").is_empty());
    let days = vec![TimelineDay {
        date: "2026-01-01".to_string(),
        entries: vec!["- [09:00:00] some entry".to_string()],
    }];
    assert!(timeline::search(&days, "").is_empty());
    assert!(timeline::search(&days, "  ").is_empty());
}

#[test]
fn test_search_single_match_returns_hit_with_title_and_snippet() {
    let notes = texts(&[("20260101_000001.md", "# Recipe\nadd fresh basil now")]);
    let hits = search(&notes, "basil");
    assert_eq!(hits.len(), 1);
    assert_eq!(hits[0].filename, "20260101_000001.md");
    assert_eq!(hits[0].title, "Recipe");
    assert!(hits[0].snippet.contains("basil"));
}

#[test]
fn search_test_search_case_insensitive() {
    let notes = texts(&[("20260101_000001.md", "Rust is GREAT")]);
    assert_eq!(search(&notes, "great").len(), 1);
    assert_eq!(search(&notes, "RUST").len(), 1);
    let days = vec![TimelineDay {
        date: "2026-01-01".to_string(),
        entries: vec!["- [09:00:00] Visited KYOTO".to_string()],
    }];
    assert_eq!(timeline::search(&days, "kyoto").len(), 1);
}

#[test]
fn test_search_multiple_notes_sorted_newest_first() {
    let notes = texts(&[
        ("20260101_000001.md", "match older"),
        ("20260102_000001.md", "match newer"),
    ]);
    let hits = search(&notes, "match");
    assert_eq!(hits.len(), 2);
    assert_eq!(hits[0].filename, "20260102_000001.md");
    assert_eq!(hits[1].filename, "20260101_000001.md");
}

#[test]
fn test_search_no_match_returns_empty() {
    let notes = texts(&[("20260101_000001.md", "nothing relevant")]);
    assert!(search(&notes, "zebra").is_empty());
}

#[test]
fn test_search_does_not_match_frontmatter() {
    let notes = texts(&[("20260101_000001.md", "plain body")]);
    assert!(search(&notes, "secret-tag").is_empty());
}

#[test]
fn search_test_search_japanese() {
    let notes = texts(&[("20260101_000001.md", "# 旅行計画\n京都へ行く予定")]);
    let hits = search(&notes, "京都");
    assert_eq!(hits.len(), 1);
    assert!(hits[0].snippet.contains("京都"));
    let days = vec![TimelineDay {
        date: "2026-01-01".to_string(),
        entries: vec!["- [09:00:00] 京都で打ち合わせ".to_string()],
    }];
    let hits = timeline::search(&days, "京都");
    assert_eq!(hits.len(), 1);
    assert!(hits[0].snippet.contains("京都"));
}

#[test]
fn test_search_snippet_ellipsis_for_long_body() {
    let body = format!("{}NEEDLE{}", "a".repeat(100), "b".repeat(100));
    let notes = texts(&[("20260101_000001.md", &body)]);
    let hits = search(&notes, "needle");
    assert_eq!(hits.len(), 1);
    assert!(hits[0].snippet.starts_with('…'));
    assert!(hits[0].snippet.ends_with('…'));
    assert!(hits[0].snippet.contains("NEEDLE"));
}

#[test]
fn test_search_matches_title_when_body_does_not() {
    let notes = texts(&[("20260101_000001.md", "# Unique Heading\nbody text")]);
    assert_eq!(search(&notes, "unique").len(), 1);
}

#[test]
fn test_search_snippet_collapses_newlines() {
    let notes = texts(&[("20260101_000001.md", "first\nNEEDLE\nlast")]);
    let hits = search(&notes, "needle");
    assert!(!hits[0].snippet.contains('\n'));
}

#[test]
fn search_hit_has_empty_title_for_untitled_body() {
    let notes = texts(&[("20260101_000001.md", "\n\n")]);
    assert!(search(&notes, "x").is_empty());
    let notes = texts(&[("20260101_000001.md", "  x  ")]);
    let hits = search(&notes, "x");
    assert_eq!(hits[0].title, "x");
}

#[test]
fn summary_test_from_file_with_valid_frontmatter() {
    let front = fm(vec!["a".to_string(), "b".to_string()]);
    let summary = NoteSummary::from_file(
        "/test/note.md".to_string(),
        "note.md".to_string(),
        "---\n...\n---\n# Title\nBody",
        Some((front, "# Title\nBody".to_string())),
    );
    assert!(summary.time.is_some());
    assert_eq!(summary.tags, vec!["a", "b"]);
    assert!(summary.preview.contains("# Title"));
    assert_eq!(summary.title, "Title");
}

#[test]
fn summary_test_from_file_with_invalid_content() {
    let summary = NoteSummary::from_file(
        "/test/note.md".to_string(),
        "note.md".to_string(),
        "no frontmatter here",
        None,
    );
    assert!(summary.time.is_none());
    assert!(summary.tags.is_empty());
    assert_eq!(summary.preview, "no frontmatter here");
    assert_eq!(summary.title, "no frontmatter here");
}

#[test]
fn test_from_file_title_empty_body_is_empty_string() {
    let summary = NoteSummary::from_file(
        "/test/note.md".to_string(),
        "note.md".to_string(),
        "---\ntime: x\n---\n",
        Some((fm(Vec::new()), String::new())),
    );
    assert_eq!(summary.title, "");
}

#[test]
fn preview_keeps_the_first_hundred_characters() {
    let body = "x".repeat(150);
    let summary = NoteSummary::from_file("/p".to_string(), "n.md".to_string(), &body, None);
    assert_eq!(summary.preview, "x".repeat(100));
}

#[test]
fn md_listing_filters_and_orders_newest_first() {
    let names = vec![
        "20260101_000001.md".to_string(),
        "README.txt".to_string(),
        "20260103_000001.md".to_string(),
        ".md".to_string(),
        "20260102_000001.md".to_string(),
    ];
    assert_eq!(count_md_files(&names), 3);
    assert_eq!(
        list_md_files(names),
        vec!["20260103_000001.md", "20260102_000001.md", "20260101_000001.md"]
    );
}

#[test]
fn notes_live_under_data_notes() {
    let notes = Notes::new("/base".to_string());
    assert_eq!(notes.notes_dir(), "/base/data/notes");
    let name = NoteFilename::parse("a.md").unwrap();
    assert_eq!(locate_note("/base", &name, true).unwrap(), "/base/data/notes/a.md");
    match locate_note("/base", &name, false) {
        Err(CoreError::NotFound(p)) => assert_eq!(p, "/base/data/notes/a.md"),
        _ => panic!("expected not found"),
    }
}

#[test]
fn confine_note_refuses_paths_outside_the_directory() {
    let name = NoteFilename::parse("a.md").unwrap();
    assert!(confine_note("/base/data/notes", "/base/data/notes/a.md", &name).is_ok());
    assert!(matches!(
        confine_note("/base/data/notes", "/base/data/notes-evil/a.md", &name),
        Err(CoreError::PathTraversal(_))
    ));
    assert!(matches!(
        confine_note("/base/data/notes", "/etc/passwd", &name),
        Err(CoreError::PathTraversal(_))
    ));
}

#[test]
fn render_frames_frontmatter() {
    assert_eq!(render("time: x\n", "body"), "---\ntime: x\n---\nbody");
    let ctx = Context { battery: 82, is_charging: false };
    let front = note_frontmatter(&vec!["rust".to_string()], jan_first(), &ctx);
    assert_eq!(front.tags, vec!["rust"]);
    assert_eq!(front.context, Some(ctx));
    assert_eq!(front.time, jan_first());
}

#[test]
fn model_test_from_file_with_valid_frontmatter() {
    let front = fm(vec!["a".to_string(), "b".to_string()]);
    let summary = NoteSummary::from_file(
        "/test/note.md".to_string(),
        "note.md".to_string(),
        "---\n...\n---\n# Title\nBody",
        Some((front, "# Title\nBody".to_string())),
    );
    assert!(summary.time.is_some());
    assert_eq!(summary.tags, vec!["a", "b"]);
    assert!(summary.preview.contains("# Title"));
}

#[test]
fn model_test_from_file_with_invalid_content() {
    let summary = NoteSummary::from_file(
        "/test/note.md".to_string(),
        "note.md".to_string(),
        "no frontmatter here",
        None,
    );
    assert!(summary.time.is_none());
    assert!(summary.tags.is_empty());
    assert_eq!(summary.preview, "no frontmatter here");
}

#[test]
fn test_delete_note_not_found() {
    let name = NoteFilename::parse("nonexistent.md").unwrap();
    assert!(matches!(locate_note("/tmp/x", &name, false), Err(CoreError::NotFound(_))));
}

#[test]
fn test_read_note_by_filename_not_found() {
    let name = NoteFilename::parse("nonexistent.md").unwrap();
    assert!(matches!(locate_note("/tmp/x", &name, false), Err(CoreError::NotFound(_))));
}

#[test]
fn note_test_list_notes_empty() {
    assert!(list_md_files(vec![]).is_empty());
}

#[test]
fn mod_test_list_notes_empty() {
    assert!(list_md_files(vec![]).is_empty());
}

fn listed_with_tags() -> Vec<NoteSummary> {
    let tags = vec!["rust".to_string(), "test".to_string()];
    let body = "# Hello\nBody text here";
    list_md_files(vec!["20260101_000001.md".to_string()])
        .into_iter()
        .map(|name| {
            NoteSummary::from_file(format!("/base/data/notes/{name}"), name, body, Some((fm(tags.clone()), body.to_string())))
        })
        .collect()
}

#[test]
fn note_test_list_notes_returns_summaries() {
    let notes = listed_with_tags();
    assert_eq!(notes.len(), 1);
    assert_eq!(notes[0].tags, vec!["rust", "test"]);
    assert!(notes[0].time.is_some());
    assert!(notes[0].preview.contains("Hello"));
}

#[test]
fn mod_test_list_notes_returns_summaries() {
    let notes = listed_with_tags();
    assert_eq!(notes.len(), 1);
    assert_eq!(notes[0].tags, vec!["rust", "test"]);
    assert!(notes[0].time.is_some());
    assert!(notes[0].preview.contains("Hello"));
}

#[test]
fn adding_a_newer_note_keeps_links_stable() {
    let (notes, _) = listed(&[("20260101_000001.md", "# Same\nfirst")]);
    let before = resolve(&notes, "Same");
    let (more, _) = listed(&[("20260101_000001.md", "# Same\nfirst"), ("20260105_000000.md", "# Same\nlater")]);
    assert_eq!(resolve(&more, "Same"), before);
}

#[test]
fn a_linking_note_is_a_backlink_and_not_a_mention() {
    let (notes, bodies) = listed(&[
        ("20260101_000001.md", "# Rust Tips\nbody"),
        ("20260101_000002.md", "Rust Tips, see [[Rust Tips]]"),
    ]);
    assert_eq!(backlinks_in(&notes, &bodies, &target()).unwrap().len(), 1);
    assert!(mentions_in(&notes, &bodies, &target()).unwrap().is_empty());
}

#[test]
fn mentions_and_backlinks_share_no_note() {
    let (notes, bodies) = listed(&[
        ("20260101_000001.md", "# Rust Tips\nRust Tips [[Rust Tips]]"),
        ("20260101_000002.md", "see [[Rust Tips]] and Rust Tips again"),
        ("20260101_000003.md", "plain Rust Tips mention"),
    ]);
    let back = backlinks_in(&notes, &bodies, &target()).unwrap();
    let ment = mentions_in(&notes, &bodies, &target()).unwrap();
    let back_names: Vec<&str> = back.iter().map(|n| n.filename.as_str()).collect();
    let ment_names: Vec<&str> = ment.iter().map(|n| n.filename.as_str()).collect();
    assert_eq!(back_names, vec!["20260101_000002.md"]);
    assert_eq!(ment_names, vec!["20260101_000003.md"]);
}
