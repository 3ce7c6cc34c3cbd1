use magical_merchant_core::text::{find_match, lowercase_chars, make_snippet};
use magical_merchant_core::title::{extract_title, parse_heading};
use magical_merchant_core::wikilink::extract_wikilinks;

fn chars(s: &str) -> Vec<char> {
    s.chars().collect()
}

#[test]
fn test_find_match_empty_query_returns_none() {
    assert_eq!(find_match(&chars("abc"), &[]), None);
}

#[test]
fn test_find_match_finds_case_insensitive() {
    assert_eq!(find_match(&chars("Hello World"), &chars("world")), Some(6));
}

#[test]
fn test_find_match_no_match() {
    assert_eq!(find_match(&chars("abc"), &chars("zzz")), None);
}

#[test]
fn test_make_snippet_short_text_no_ellipsis() {
    let c = chars("short text");
    assert_eq!(make_snippet(&c, 0, 5), "short text");
}

#[test]
fn test_make_snippet_adds_ellipses_both_sides() {
    let text = format!("{}NEEDLE{}", "a".repeat(100), "b".repeat(100));
    let c = chars(&text);
    let snippet = make_snippet(&c, 100, 6);
    assert!(snippet.starts_with('…'));
    assert!(snippet.ends_with('…'));
    assert!(snippet.contains("NEEDLE"));
}

#[test]
fn make_snippet_keeps_thirty_before_and_fifty_after() {
    let text = format!("{}NEEDLE{}", "a".repeat(100), "b".repeat(100));
    let c = chars(&text);
    let snippet = make_snippet(&c, 100, 6);
    let expected = format!("…{}NEEDLE{}…", "a".repeat(30), "b".repeat(50));
    assert_eq!(snippet, expected);
}

#[test]
fn make_snippet_collapses_newlines() {
    let c = chars("one\ntwo");
    assert_eq!(make_snippet(&c, 0, 3), "one two");
}

#[test]
fn lowercase_chars_maps_unicode() {
    assert_eq!(lowercase_chars("ÄBc"), chars("äbc"));
    assert_eq!(lowercase_chars("京都"), chars("京都"));
}

#[test]
fn find_match_returns_first_occurrence() {
    assert_eq!(find_match(&chars("abcABC"), &chars("abc")), Some(0));
    assert_eq!(find_match(&chars("xxABCabc"), &chars("abc")), Some(2));
}

#[test]
fn test_extract_title_empty_body_returns_none() {
    assert_eq!(extract_title(""), None);
    assert_eq!(extract_title("\n\n  \n"), None);
}

#[test]
fn test_extract_title_from_heading() {
    assert_eq!(extract_title("# Hello\nbody"), Some("Hello".to_string()));
}

#[test]
fn test_extract_title_from_first_nonempty_line() {
    assert_eq!(extract_title("\n\nplain text\nmore"), Some("plain text".to_string()));
}

#[test]
fn test_extract_title_heading_wins_over_earlier_text() {
    assert_eq!(extract_title("intro\n# Title\nbody"), Some("Title".to_string()));
}

#[test]
fn test_extract_title_strips_hash_levels() {
    assert_eq!(extract_title("### Deep"), Some("Deep".to_string()));
    assert_eq!(extract_title("###### Six"), Some("Six".to_string()));
}

#[test]
fn test_extract_title_ignores_heading_in_code_fence() {
    let body = "```sh\n# comment in code\n```\nactual first line";
    assert_eq!(extract_title(body), Some("actual first line".to_string()));
}

#[test]
fn test_extract_title_skips_dashes_line() {
    assert_eq!(extract_title("---\nreal title"), Some("real title".to_string()));
}

#[test]
fn test_extract_title_japanese() {
    assert_eq!(extract_title("# 設計メモ\n本文"), Some("設計メモ".to_string()));
    assert_eq!(extract_title("買い物リスト"), Some("買い物リスト".to_string()));
}

#[test]
fn test_extract_title_hash_without_space_is_not_heading() {
    assert_eq!(extract_title("#hashtag text"), Some("#hashtag text".to_string()));
}

#[test]
fn seven_hashes_are_not_a_heading() {
    assert_eq!(parse_heading("####### Seven"), None);
    assert_eq!(parse_heading("## Two"), Some("Two".to_string()));
}

#[test]
fn test_extract_wikilinks_none() {
    assert!(extract_wikilinks("no links here").is_empty());
    assert!(extract_wikilinks("").is_empty());
}

#[test]
fn test_extract_wikilinks_single() {
    assert_eq!(extract_wikilinks("see [[Other Note]]"), vec!["Other Note"]);
}

#[test]
fn test_extract_wikilinks_multiple_in_order() {
    assert_eq!(extract_wikilinks("[[B]] then [[A]]\nand [[C]]"), vec!["B", "A", "C"]);
}

#[test]
fn test_extract_wikilinks_dedupes() {
    assert_eq!(extract_wikilinks("[[X]] and [[X]] again"), vec!["X"]);
}

#[test]
fn test_extract_wikilinks_ignores_code_fence() {
    let body = "```\n[[Not A Link]]\n```\n[[Real]]";
    assert_eq!(extract_wikilinks(body), vec!["Real"]);
}

#[test]
fn test_extract_wikilinks_ignores_inline_code() {
    assert_eq!(extract_wikilinks("`[[code]]` but [[Real]]"), vec!["Real"]);
}

#[test]
fn test_extract_wikilinks_ignores_empty_and_whitespace() {
    assert!(extract_wikilinks("[[]] [[  ]]").is_empty());
}

#[test]
fn test_extract_wikilinks_ignores_unclosed() {
    assert!(extract_wikilinks("[[unclosed").is_empty());
}

#[test]
fn test_extract_wikilinks_trims_title() {
    assert_eq!(extract_wikilinks("[[ Padded Title ]]"), vec!["Padded Title"]);
}

#[test]
fn test_extract_wikilinks_japanese() {
    assert_eq!(extract_wikilinks("詳細は[[設計メモ]]を参照"), vec!["設計メモ"]);
}

#[test]
fn wikilinks_skip_titles_with_brackets() {
    assert_eq!(extract_wikilinks("[[a[b]] [[ok]]"), vec!["ok"]);
}

#[test]
fn lowercase_chars_keeps_ascii_length() {
    let input = "Hello, World! AZ@[`az{";
    let low = lowercase_chars(input);
    assert_eq!(low.len(), input.len());
    assert_eq!(low, chars("hello, world! az@[`az{"));
}
