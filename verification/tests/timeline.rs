use chrono::NaiveDate;
use magical_merchant_core::context::Context;
use magical_merchant_core::moment::Moment;
use magical_merchant_core::timeline::{
    format_timeline_line, list_dates, note_file_path, read_entries, save_timeline_entry, search,
    search_timeline, split_entry, timeline_file_path, Timeline, TimelineDay,
};

/// 2026-03-20 14:30:45, seen in UTC.
fn fixed_timestamp() -> Moment {
    Moment { secs: 1774017045, nanos: 0, offset_secs: 0 }
}

fn test_context() -> Context {
    Context { battery: 82, is_charging: false }
}

fn day(y: i32, m: u32, d: u32) -> i32 {
    NaiveDate::from_ymd_opt(y, m, d).unwrap().to_epoch_days()
}

fn names(v: &[&str]) -> Vec<String> {
    v.iter().map(|s| s.to_string()).collect()
}

#[test]
fn format_test_format_timeline_line() {
    let result = format_timeline_line("hello world", fixed_timestamp(), &test_context()).unwrap();
    assert_eq!(result, "- [14:30:45] hello world { \"battery\": 82, \"is_charging\": false }");
}

#[test]
fn format_test_format_timeline_line_multiline() {
    let result = format_timeline_line("line1\nline2", fixed_timestamp(), &test_context()).unwrap();
    assert!(result.contains("line1\nline2"));
}

#[test]
fn markdown_test_format_timeline_line_multiline() {
    let result = format_timeline_line("line1\nline2", fixed_timestamp(), &test_context()).unwrap();
    assert!(result.contains("line1\nline2"));
}

#[test]
fn timeline_line_shows_charging_and_full_battery() {
    let ctx = Context { battery: 100, is_charging: true };
    let result = format_timeline_line("x", fixed_timestamp(), &ctx).unwrap();
    assert_eq!(result, "- [14:30:45] x { \"battery\": 100, \"is_charging\": true }");
    let ctx = Context { battery: 7, is_charging: false };
    let result = format_timeline_line("x", fixed_timestamp(), &ctx).unwrap();
    assert!(result.ends_with("{ \"battery\": 7, \"is_charging\": false }"));
}

#[test]
fn timeline_line_uses_the_moment_offset() {
    let ts = Moment { secs: 1774017045, nanos: 0, offset_secs: 9 * 3600 };
    let result = format_timeline_line("x", ts, &test_context()).unwrap();
    assert!(result.starts_with("- [23:30:45] x "));
}

#[test]
fn test_timeline_file_path() {
    let path = timeline_file_path("/app", day(2026, 3, 20)).unwrap();
    assert_eq!(path, "/app/data/timeline/2026-03-20.md");
    let t = Timeline::new("/app".to_string());
    assert_eq!(t.file_path(day(2026, 3, 20)).unwrap(), "/app/data/timeline/2026-03-20.md");
}

#[test]
fn test_note_file_path() {
    let ts = Moment { secs: 1774017045, nanos: 0, offset_secs: 0 };
    let path = note_file_path("/app", ts).unwrap();
    assert_eq!(path, "/app/data/notes/20260320_143045.md");
}

#[test]
fn timeline_test_save_timeline_entry_creates_file() {
    let content = save_timeline_entry("", "hello", fixed_timestamp(), &Context::mock()).unwrap();
    assert!(content.contains("hello"));
    assert!(content.contains("battery"));
}

#[test]
fn save_test_save_timeline_entry_creates_file() {
    let content = save_timeline_entry("", "hello", fixed_timestamp(), &Context::mock()).unwrap();
    assert!(content.contains("hello"));
    assert!(content.contains("battery"));
}

fn saved_twice(a: &str, b: &str) -> String {
    let first = save_timeline_entry("", a, fixed_timestamp(), &Context::mock()).unwrap();
    save_timeline_entry(&first, b, fixed_timestamp(), &Context::mock()).unwrap()
}

#[test]
fn timeline_test_save_timeline_entry_appends() {
    let content = saved_twice("first", "second");
    let lines: Vec<&str> = content.lines().collect();
    assert_eq!(lines.len(), 2);
    assert!(lines[0].contains("first"));
    assert!(lines[1].contains("second"));
}

#[test]
fn save_test_save_timeline_entry_appends() {
    let content = saved_twice("first", "second");
    let lines: Vec<&str> = content.lines().collect();
    assert_eq!(lines.len(), 2);
    assert!(lines[0].contains("first"));
    assert!(lines[1].contains("second"));
}

#[test]
fn saving_after_content_without_final_newline_starts_a_new_line() {
    let content = save_timeline_entry("old", "new", fixed_timestamp(), &Context::mock()).unwrap();
    assert!(content.starts_with("old\n- [14:30:45] new "));
    assert!(content.ends_with("}\n"));
}

#[test]
fn timeline_test_read_timeline_empty() {
    assert!(read_entries("").is_empty());
}

#[test]
fn save_test_read_timeline_empty() {
    assert!(read_entries("").is_empty());
}

#[test]
fn timeline_test_read_timeline_returns_entries() {
    let lines = read_entries(&saved_twice("first", "second"));
    assert_eq!(lines.len(), 2);
    assert!(lines[0].contains("first"));
    assert!(lines[1].contains("second"));
}

#[test]
fn save_test_read_timeline_returns_entries() {
    let lines = read_entries(&saved_twice("first", "second"));
    assert_eq!(lines.len(), 2);
    assert!(lines[0].contains("first"));
    assert!(lines[1].contains("second"));
}

#[test]
fn test_read_timeline_groups_multiline_entries() {
    let entries = read_entries(&saved_twice("line1\nline2", "second"));
    assert_eq!(entries.len(), 2);
    assert!(entries[0].contains("line1\nline2"));
    assert!(entries[1].contains("second"));
}

#[test]
fn read_entries_gives_back_the_saved_lines() {
    let first = format_timeline_line("a\nb", fixed_timestamp(), &Context::mock()).unwrap();
    let second = format_timeline_line("c", fixed_timestamp(), &Context::mock()).unwrap();
    let entries = read_entries(&saved_twice("a\nb", "c"));
    assert_eq!(entries, vec![first, second]);
}

#[test]
fn timeline_test_list_timeline_dates_empty() {
    assert!(list_dates(&[]).is_empty());
}

#[test]
fn save_test_list_timeline_dates_empty() {
    assert!(list_dates(&[]).is_empty());
}

#[test]
fn timeline_test_list_timeline_dates_returns_sorted_desc() {
    let dates = list_dates(&names(&["2026-01-15.md", "2026-03-01.md", "2026-02-10.md"]));
    assert_eq!(dates.len(), 3);
    assert_eq!(dates[0], day(2026, 3, 1));
    assert_eq!(dates[1], day(2026, 2, 10));
    assert_eq!(dates[2], day(2026, 1, 15));
}

#[test]
fn save_test_list_timeline_dates_returns_sorted_desc() {
    let dates = list_dates(&names(&["2026-01-15.md", "2026-03-01.md", "2026-02-10.md"]));
    assert_eq!(dates, vec![day(2026, 3, 1), day(2026, 2, 10), day(2026, 1, 15)]);
}

#[test]
fn timeline_test_list_timeline_dates_skips_invalid_filenames() {
    let dates = list_dates(&names(&["2026-01-15.md", "README.md", "not-a-date.md"]));
    assert_eq!(dates.len(), 1);
    assert_eq!(dates[0], day(2026, 1, 15));
}

#[test]
fn save_test_list_timeline_dates_skips_invalid_filenames() {
    let dates = list_dates(&names(&["2026-01-15.md", "README.md", "not-a-date.md", "2026-01-16.txt"]));
    assert_eq!(dates, vec![day(2026, 1, 15)]);
}

#[test]
fn test_split_entry_without_context() {
    let (time, text) = split_entry("- [12:00:00] no context here");
    assert_eq!(time, "12:00:00");
    assert_eq!(text, "no context here");
}

#[test]
fn test_split_entry_without_time_prefix() {
    let (time, text) = split_entry("bare text line");
    assert_eq!(time, "");
    assert_eq!(text, "bare text line");
}

#[test]
fn test_split_entry_keeps_braces_that_are_not_json() {
    let (_, text) = split_entry("- [12:00:00] set {a, b} notation");
    assert_eq!(text, "set {a, b} notation");
}

#[test]
fn split_entry_drops_the_device_context() {
    let (time, text) = split_entry("- [09:00:00] plain entry { \"battery\": 80, \"is_charging\": false }");
    assert_eq!(time, "09:00:00");
    assert_eq!(text, "plain entry");
}

#[test]
fn split_entry_needs_an_eight_byte_time() {
    let (time, text) = split_entry("- [9:00] short");
    assert_eq!(time, "");
    assert_eq!(text, "- [9:00] short");
}

fn one_day(date: &str, entries: &[&str]) -> TimelineDay {
    TimelineDay { date: date.to_string(), entries: entries.iter().map(|e| e.to_string()).collect() }
}

#[test]
fn test_search_single_match_returns_date_time_snippet() {
    let days = vec![one_day("2026-01-01", &["- [09:15:30] bought fresh basil"])];
    let hits = search(&days, "basil");
    assert_eq!(hits.len(), 1);
    assert_eq!(hits[0].date, "2026-01-01");
    assert_eq!(hits[0].time, "09:15:30");
    assert!(hits[0].snippet.contains("basil"));
}

#[test]
fn test_search_excludes_context_json() {
    let days = vec![one_day(
        "2026-01-01",
        &[r#"- [09:00:00] plain entry {"battery":80,"hostname":"my-laptop"}"#],
    )];
    assert!(search(&days, "my-laptop").is_empty());
    assert!(search(&days, "battery").is_empty());
    assert_eq!(search(&days, "plain entry").len(), 1);
}

#[test]
fn test_search_multiple_dates_newest_first() {
    let days = vec![
        one_day("2026-01-02", &["- [09:00:00] match newer"]),
        one_day("2026-01-01", &["- [09:00:00] match older"]),
    ];
    let hits = search_timeline(&days, "match");
    assert_eq!(hits.len(), 2);
    assert_eq!(hits[0].date, "2026-01-02");
    assert_eq!(hits[1].date, "2026-01-01");
}
