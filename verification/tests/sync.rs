use jsonwebtoken::{encode, EncodingKey, Header};
use magical_merchant_core::auth::{
    build_auth_url, callback_address, callback_outcome, callback_page, callback_path, is_token_valid,
    token_of, token_param, without_trailing_slashes, CallbackOutcome, SyncConfig,
};
use magical_merchant_core::error::CoreError;
use magical_merchant_core::moment::Moment;
use magical_merchant_core::sync::conflict::{conflict_filename, resolve, ConflictResolution};
use magical_merchant_core::sync::diff::{compute, LocalFile, RemoteFile, SyncAction};
use magical_merchant_core::sync::engine::{apply_run, plan_steps, StepKind, StepReport, SyncResult};
use magical_merchant_core::sync::remote::{remote_files, ListEntry};
use magical_merchant_core::sync::scan::{compute_hash, is_excluded, local_files, ScannedFile};
use magical_merchant_core::sync::state::{FileRecords, FileSyncRecord, SyncState};
use magical_merchant_core::sync::status::{
    check_status, check_sync_ready, classify_core_error, SyncErrorInfo, SyncStatusInfo,
};

fn utc(secs: i64) -> Moment {
    Moment { secs, nanos: 0, offset_secs: 0 }
}

/// 2026-04-22T12:00:00Z
const NOON: i64 = 1776859200;
/// 2026-04-22T10:00:00Z
const TEN: i64 = 1776852000;
/// 2026-04-22T14:00:00Z
const TWO_PM: i64 = 1776866400;

fn local(key: &str, hash: &str) -> LocalFile {
    LocalFile { key: key.to_string(), last_modified: utc(NOON), content_hash: hash.to_string() }
}

fn remote(key: &str, modified: i64) -> RemoteFile {
    RemoteFile { key: key.to_string(), last_modified: utc(modified), size: 100 }
}

fn record(hash: &str, modified: i64) -> FileSyncRecord {
    FileSyncRecord { last_synced_modified: utc(modified), content_hash: hash.to_string() }
}

fn state_with(key: &str, r: FileSyncRecord) -> SyncState {
    let mut state = SyncState::new();
    state.files.insert(key.to_string(), r);
    state
}

#[test]
fn empty_local_and_remote() {
    let actions = compute(&[], &[], &SyncState::new());
    assert!(actions.is_empty());
}

#[test]
fn local_only_no_state_uploads() {
    let local_files = vec![local("notes/a.md", "hash_a")];
    let actions = compute(&local_files, &[], &SyncState::new());
    assert_eq!(actions, vec![SyncAction::UploadNew { key: "notes/a.md".into() }]);
}

#[test]
fn remote_only_no_state_downloads() {
    let remote_files = vec![remote("notes/b.md", TEN)];
    let actions = compute(&[], &remote_files, &SyncState::new());
    assert_eq!(actions, vec![SyncAction::DownloadNew { key: "notes/b.md".into() }]);
}

#[test]
fn both_exist_no_state_conflict() {
    let local_files = vec![local("notes/c.md", "hash_c")];
    let remote_files = vec![remote("notes/c.md", TEN)];
    let actions = compute(&local_files, &remote_files, &SyncState::new());
    assert_eq!(actions, vec![SyncAction::Conflict { key: "notes/c.md".into() }]);
}

#[test]
fn both_unchanged_no_action() {
    let local_files = vec![local("notes/d.md", "hash_d")];
    let remote_files = vec![remote("notes/d.md", TEN)];
    let state = state_with("notes/d.md", record("hash_d", TEN));
    assert!(compute(&local_files, &remote_files, &state).is_empty());
}

#[test]
fn local_modified_uploads() {
    let local_files = vec![local("notes/e.md", "new_hash")];
    let remote_files = vec![remote("notes/e.md", TEN)];
    let state = state_with("notes/e.md", record("old_hash", TEN));
    let actions = compute(&local_files, &remote_files, &state);
    assert_eq!(actions, vec![SyncAction::UploadModified { key: "notes/e.md".into() }]);
}

#[test]
fn remote_modified_downloads() {
    let local_files = vec![local("notes/f.md", "hash_f")];
    let remote_files = vec![remote("notes/f.md", TWO_PM)];
    let state = state_with("notes/f.md", record("hash_f", TEN));
    let actions = compute(&local_files, &remote_files, &state);
    assert_eq!(actions, vec![SyncAction::DownloadModified { key: "notes/f.md".into() }]);
}

#[test]
fn both_modified_conflict() {
    let local_files = vec![local("notes/g.md", "new_hash")];
    let remote_files = vec![remote("notes/g.md", TWO_PM)];
    let state = state_with("notes/g.md", record("old_hash", TEN));
    let actions = compute(&local_files, &remote_files, &state);
    assert_eq!(actions, vec![SyncAction::Conflict { key: "notes/g.md".into() }]);
}

#[test]
fn local_deleted_deletes_remote() {
    let remote_files = vec![remote("notes/h.md", TEN)];
    let state = state_with("notes/h.md", record("hash_h", TEN));
    let actions = compute(&[], &remote_files, &state);
    assert_eq!(actions, vec![SyncAction::DeleteRemote { key: "notes/h.md".into() }]);
}

#[test]
fn remote_deleted_deletes_local() {
    let local_files = vec![local("notes/i.md", "hash_i")];
    let state = state_with("notes/i.md", record("hash_i", TEN));
    let actions = compute(&local_files, &[], &state);
    assert_eq!(actions, vec![SyncAction::DeleteLocal { key: "notes/i.md".into() }]);
}

#[test]
fn remote_deleted_but_local_modified_uploads_instead_of_deleting() {
    let local_files = vec![local("notes/j.md", "new_hash")];
    let state = state_with("notes/j.md", record("old_hash", TEN));
    let actions = compute(&local_files, &[], &state);
    assert_eq!(actions, vec![SyncAction::UploadModified { key: "notes/j.md".into() }]);
}

#[test]
fn local_deleted_but_remote_modified_downloads_instead_of_deleting() {
    let remote_files = vec![remote("notes/k.md", TWO_PM)];
    let state = state_with("notes/k.md", record("hash_k", TEN));
    let actions = compute(&[], &remote_files, &state);
    assert_eq!(actions, vec![SyncAction::DownloadModified { key: "notes/k.md".into() }]);
}

#[test]
fn multiple_actions_sorted_by_key() {
    let local_files = vec![local("notes/z.md", "hash_z"), local("notes/a.md", "hash_a")];
    let actions = compute(&local_files, &[], &SyncState::new());
    assert_eq!(actions.len(), 2);
    assert_eq!(actions[0], SyncAction::UploadNew { key: "notes/a.md".into() });
    assert_eq!(actions[1], SyncAction::UploadNew { key: "notes/z.md".into() });
}

#[test]
fn a_key_on_both_sides_gives_one_action() {
    let local_files = vec![local("notes/a.md", "h")];
    let remote_files = vec![remote("notes/a.md", TEN), remote("notes/b.md", TEN)];
    let actions = compute(&local_files, &remote_files, &SyncState::new());
    assert_eq!(
        actions,
        vec![
            SyncAction::Conflict { key: "notes/a.md".into() },
            SyncAction::DownloadNew { key: "notes/b.md".into() },
        ]
    );
}

#[test]
fn local_newer_keeps_local() {
    assert_eq!(resolve(utc(TWO_PM), utc(TEN)), ConflictResolution::KeepLocal);
}

#[test]
fn remote_newer_keeps_remote() {
    assert_eq!(resolve(utc(TEN), utc(TWO_PM)), ConflictResolution::KeepRemote);
}

#[test]
fn same_timestamp_keeps_local() {
    assert_eq!(resolve(utc(NOON), utc(NOON)), ConflictResolution::KeepLocal);
}

#[test]
fn conflict_filename_with_parent() {
    assert_eq!(
        conflict_filename("notes/test.md", utc(NOON)).unwrap(),
        "notes/test.sync-conflict-20260422-120000.md"
    );
}

#[test]
fn conflict_filename_without_parent() {
    assert_eq!(conflict_filename("test.md", utc(NOON)).unwrap(), "test.sync-conflict-20260422-120000.md");
}

#[test]
fn conflict_filename_nested_path() {
    assert_eq!(
        conflict_filename("projects/my-proj/active/task.md", utc(NOON)).unwrap(),
        "projects/my-proj/active/task.sync-conflict-20260422-120000.md"
    );
}

#[test]
fn conflict_filename_defaults_missing_extension() {
    assert_eq!(conflict_filename("notes/README", utc(NOON)).unwrap(), "notes/README.sync-conflict-20260422-120000.md");
}

fn scanned(key: &str, content: &[u8]) -> ScannedFile {
    let file_name = key.rsplit('/').next().unwrap().to_string();
    ScannedFile { key: key.to_string(), file_name, modified: utc(NOON), content: content.to_vec() }
}

#[test]
fn scan_empty_directory() {
    assert!(local_files(&[]).is_empty());
}

#[test]
fn scan_finds_md_files() {
    let files = local_files(&[scanned("notes/test.md", b"hello")]);
    assert_eq!(files.len(), 1);
    assert_eq!(files[0].key, "notes/test.md");
}

#[test]
fn scan_excludes_conflict_files() {
    let files = local_files(&[
        scanned("notes/test.md", b"hello"),
        scanned("notes/test.sync-conflict-20260422-120000.md", b"conflict"),
    ]);
    assert_eq!(files.len(), 1);
    assert_eq!(files[0].key, "notes/test.md");
}

#[test]
fn scan_walks_nested_directories() {
    let files = local_files(&[scanned("projects/my-proj/active/task.md", b"task content")]);
    assert_eq!(files.len(), 1);
    assert_eq!(files[0].key, "projects/my-proj/active/task.md");
}

#[test]
fn scan_excludes_the_state_file() {
    assert!(is_excluded(".sync-state.json"));
    assert!(is_excluded("a.sync-conflict-1.md"));
    assert!(!is_excluded("sync-state.json"));
    assert!(local_files(&[scanned(".sync-state.json", b"{}")]).is_empty());
}

#[test]
fn compute_hash_is_deterministic() {
    let h1 = compute_hash(b"hello world");
    let h2 = compute_hash(b"hello world");
    assert_eq!(h1, h2);
    assert_ne!(h1, compute_hash(b"different"));
}

#[test]
fn compute_hash_is_sha256_hex() {
    assert_eq!(
        compute_hash(b"hello world"),
        "b94d27b9934d3e08a52e52d7da7dabfac484efe37a5380ee9088f7ace2efcde9"
    );
    assert_eq!(compute_hash(b"").len(), 64);
    let files = local_files(&[scanned("notes/a.md", b"hello world")]);
    assert_eq!(files[0].content_hash, compute_hash(b"hello world"));
}

#[test]
fn plan_pulls_before_conflicts_before_pushes() {
    let local_files = vec![local("a.md", "h1"), local("c.md", "h3")];
    let remote_files = vec![remote("b.md", TEN), remote("c.md", TEN)];
    let actions = vec![
        SyncAction::UploadNew { key: "a.md".into() },
        SyncAction::DownloadNew { key: "b.md".into() },
        SyncAction::Conflict { key: "c.md".into() },
        SyncAction::DeleteRemote { key: "d.md".into() },
        SyncAction::UploadModified { key: "gone.md".into() },
        SyncAction::Conflict { key: "half.md".into() },
    ];
    let steps = plan_steps(&actions, &local_files, &remote_files);
    let kinds: Vec<(StepKind, String)> = steps.iter().map(|s| (s.kind, s.key.clone())).collect();
    assert_eq!(
        kinds,
        vec![
            (StepKind::Download, "b.md".to_string()),
            (StepKind::Resolve, "c.md".to_string()),
            (StepKind::Upload, "a.md".to_string()),
            (StepKind::DeleteRemote, "d.md".to_string()),
        ]
    );
    assert_eq!(steps[1].local, Some(1));
    assert_eq!(steps[1].remote, Some(1));
    assert_eq!(steps[2].local, Some(0));
}

#[test]
fn result_tallies_successes_and_failures() {
    let mut result = SyncResult::new();
    result.record(StepKind::Upload, "a.md", &Ok(()));
    result.record(StepKind::Download, "b.md", &Ok(()));
    result.record(StepKind::DeleteRemote, "c.md", &Err(CoreError::Network("timeout".into())));
    result.record(StepKind::Resolve, "d.md", &Ok(()));
    assert_eq!(result.uploaded, 1);
    assert_eq!(result.downloaded, 1);
    assert_eq!(result.deleted_remote, 0);
    assert_eq!(result.conflicts, 1);
    assert_eq!(result.errors, vec!["delete-remote c.md: Network error: timeout".to_string()]);
}

#[test]
fn state_records_follow_the_steps() {
    let mut state = SyncState::new();
    state.record_upload(&local("a.md", "h1"));
    assert_eq!(state.files.get("a.md").unwrap().content_hash, "h1");
    state.record_download("b.md", utc(TEN), b"hello world");
    assert_eq!(state.files.get("b.md").unwrap().content_hash, compute_hash(b"hello world"));
    state.record_resolution("a.md", ConflictResolution::KeepRemote, &local("a.md", "h1"), &remote("a.md", TWO_PM), b"x");
    let r = state.files.get("a.md").unwrap();
    assert_eq!(r.last_synced_modified, utc(TWO_PM));
    assert_eq!(r.content_hash, compute_hash(b"x"));
    state.record_deletion("b.md");
    assert!(state.files.get("b.md").is_none());
    assert_eq!(state.files.len(), 1);
    state.finish(utc(NOON));
    assert_eq!(state.last_sync, Some(utc(NOON)));
}

#[test]
fn records_replace_on_insert_and_vanish_on_remove() {
    let mut records = FileRecords::new();
    records.insert("k".to_string(), record("h1", TEN));
    records.insert("k".to_string(), record("h2", TEN));
    assert_eq!(records.len(), 1);
    assert_eq!(records.get("k").unwrap().content_hash, "h2");
    assert!(records.contains_key("k"));
    records.remove("k");
    assert!(!records.contains_key("k"));
    assert!(records.keys().is_empty());
}

#[test]
fn classify_not_authenticated_for_settings_guidance() {
    let info = classify_core_error(&CoreError::NotAuthenticated);
    assert_eq!(info.kind, "notAuthenticated");
}

#[test]
fn classify_network_errors() {
    let info = classify_core_error(&CoreError::Network("timeout".into()));
    assert_eq!(info.kind, "network");
    assert!(info.message.contains("timeout"));
}

#[test]
fn classify_other_errors_keep_message() {
    let info = classify_core_error(&CoreError::Sync("boom".into()));
    assert_eq!(info.kind, "other");
    assert!(info.message.contains("boom"));
    assert_eq!(info.message, "Sync error: boom");
}

#[test]
fn status_codes_map_to_errors() {
    assert_eq!(check_status(401, "401 Unauthorized", "list"), Err(CoreError::NotAuthenticated));
    assert_eq!(check_status(204, "204 No Content", "delete"), Ok(()));
    assert_eq!(
        check_status(500, "500 Internal Server Error", "upload"),
        Err(CoreError::Sync("upload: HTTP 500 Internal Server Error".to_string()))
    );
}

fn make_jwt(exp: i64) -> String {
    let mut claims = serde_json::Map::new();
    claims.insert("exp".to_string(), serde_json::Value::from(exp));
    encode(&Header::default(), &claims, &EncodingKey::from_secret(b"test-secret")).unwrap()
}

#[test]
fn valid_token_not_expired() {
    let now = 1_800_000_000;
    assert!(is_token_valid(&make_jwt(now + 3600), now));
}

#[test]
fn expired_token() {
    let now = 1_800_000_000;
    assert!(!is_token_valid(&make_jwt(now - 100), now));
}

#[test]
fn token_expiring_within_buffer() {
    let now = 1_800_000_000;
    assert!(!is_token_valid(&make_jwt(now + 60), now));
    assert!(!is_token_valid(&make_jwt(now + 300), now));
    assert!(is_token_valid(&make_jwt(now + 301), now));
}

#[test]
fn invalid_token_format() {
    let now = 1_800_000_000;
    assert!(!is_token_valid("not-a-jwt", now));
    assert!(!is_token_valid("a.b", now));
    assert!(!is_token_valid("", now));
}

#[test]
fn sync_config_not_configured_when_empty() {
    let config = SyncConfig::default();
    assert!(!config.is_configured());
}

#[test]
fn sync_config_is_configured() {
    let config = SyncConfig { workers_url: "https://sync.example.com".to_string() };
    assert!(config.is_configured());
}

#[test]
fn sync_config_editable_when_missing() {
    assert!(SyncConfig::is_editable(false, None));
}

#[test]
fn sync_config_editable_when_writable() {
    assert!(SyncConfig::is_editable(true, Some(false)));
}

#[test]
fn sync_config_not_editable_when_readonly() {
    assert!(!SyncConfig::is_editable(true, Some(true)));
}

#[test]
fn auth_url_trims_slashes_and_encodes_redirect() {
    assert_eq!(
        build_auth_url("https://w.example.com//", "http://127.0.0.1:8080/callback"),
        "https://w.example.com/auth/google?app_redirect=http%3A%2F%2F127.0.0.1%3A8080%2Fcallback"
    );
    assert_eq!(without_trailing_slashes("a/b/"), "a/b");
    assert_eq!(build_auth_url("x", "é"), "x/auth/google?app_redirect=%C3%A9");
}

fn info_of(r: Result<String, SyncErrorInfo>) -> (String, String) {
    match r {
        Ok(_) => panic!("expected a failure"),
        Err(e) => (e.kind, e.message),
    }
}

#[test]
fn sync_readiness_checks_settings_then_token() {
    let now = 1_800_000_000;
    let unset = SyncConfig::default();
    let (kind, _) = info_of(check_sync_ready(&unset, Ok(Some(make_jwt(now + 3600))), now));
    assert_eq!(kind, "notConfigured");
    let set = SyncConfig { workers_url: "https://w".to_string() };
    let (kind, msg) = info_of(check_sync_ready(&set, Ok(None), now));
    assert_eq!(kind, "notAuthenticated");
    assert_eq!(msg, "Not logged in. Log in from Settings.");
    let (kind, msg) = info_of(check_sync_ready(&set, Ok(Some(make_jwt(now - 1))), now));
    assert_eq!(kind, "notAuthenticated");
    assert_eq!(msg, "Login expired. Log in again from Settings.");
    let (kind, msg) = info_of(check_sync_ready(&set, Err("keychain locked".to_string()), now));
    assert_eq!(kind, "other");
    assert_eq!(msg, "keychain locked");
    let token = make_jwt(now + 3600);
    assert_eq!(check_sync_ready(&set, Ok(Some(token.clone())), now).ok(), Some(token));
}


#[test]
fn callback_reads_the_token_from_the_request_line() {
    let request = "GET /callback?token=abc%20def HTTP/1.1\r\nHost: 127.0.0.1\r\n\r\n";
    assert_eq!(callback_path(request), "/callback?token=abc%20def");
    assert_eq!(callback_address(8080, "/cb"), "http://127.0.0.1:8080/cb");
    match callback_outcome(request, 8080) {
        CallbackOutcome::Token(t) => assert_eq!(t, "abc def"),
        _ => panic!("expected a token"),
    }
}

#[test]
fn callback_without_token_or_address() {
    let outcome = callback_outcome("GET /callback?x=1 HTTP/1.1\r\n", 8080);
    assert!(matches!(outcome, CallbackOutcome::NoToken));
    assert_eq!(callback_page(&outcome), "<html><body><p>Login failed: no token received.</p></body></html>");
    assert_eq!(callback_path(""), "");
    let outcome = callback_outcome("GET [x HTTP/1.1", 8080);
    assert!(matches!(outcome, CallbackOutcome::Invalid));
    assert_eq!(callback_page(&outcome), "<html><body><p>Login failed: invalid callback.</p></body></html>");
}

#[test]
fn the_first_token_pair_wins() {
    let pairs = vec![
        ("x".to_string(), "1".to_string()),
        ("token".to_string(), "first".to_string()),
        ("token".to_string(), "second".to_string()),
    ];
    assert_eq!(token_of(&pairs), Some("first".to_string()));
    assert_eq!(token_of(&pairs[..1].to_vec()), None);
    assert_eq!(token_of(&Vec::new()), None);
}

#[test]
fn token_param_decodes_the_query() {
    assert_eq!(token_param("http://127.0.0.1:1/cb?a=b&token=x%2By&token=z"), Some(Some("x+y".to_string())));
    assert_eq!(token_param("http://127.0.0.1:1/cb?tokens=1"), Some(None));
    assert_eq!(token_param("not a url"), None);
}

#[test]
fn a_recorded_upload_leaves_nothing_to_do() {
    let l = local("notes/a.md", "h1");
    let mut state = SyncState::new();
    state.record_upload(&l);
    let r = remote("notes/a.md", NOON);
    assert!(compute(&[l], &[r], &state).is_empty());
}

#[test]
fn a_recorded_download_is_compared_with_the_written_file_time() {
    // The record keeps the time the local copy was written, so a remote
    // file reporting another time reads as changed again.
    let mut state = SyncState::new();
    state.record_download("notes/b.md", utc(NOON), b"hello world");
    let l = LocalFile { key: "notes/b.md".into(), last_modified: utc(NOON), content_hash: compute_hash(b"hello world") };
    let r = remote("notes/b.md", TEN);
    assert_eq!(compute(&[l], &[r], &state), vec![SyncAction::DownloadModified { key: "notes/b.md".into() }]);
}

#[test]
fn a_conflict_settled_for_the_remote_side_leaves_nothing_to_do() {
    let mut state = SyncState::new();
    let l = local("notes/c.md", "old");
    let r = remote("notes/c.md", TWO_PM);
    state.record_resolution("notes/c.md", ConflictResolution::KeepRemote, &l, &r, b"remote bytes");
    let now_local = LocalFile { key: "notes/c.md".into(), last_modified: utc(NOON), content_hash: compute_hash(b"remote bytes") };
    assert!(compute(&[now_local], &[r], &state).is_empty());
}

#[test]
fn conflict_copies_are_left_out_of_scans() {
    let copy = conflict_filename("projects/p/active/task.md", utc(NOON)).unwrap();
    let file_name = copy.rsplit('/').next().unwrap();
    assert!(is_excluded(file_name));
    assert!(local_files(&[scanned(&copy, b"x")]).is_empty());
}

#[test]
fn remote_listing_reads_times_and_fails_on_the_first_bad_one() {
    let files = remote_files(vec![
        ListEntry { key: "notes/a.md".into(), last_modified: "2026-04-22T12:00:00Z".into(), size: 5 },
        ListEntry { key: "notes/b.md".into(), last_modified: "2026-04-22T21:00:00+09:00".into(), size: 7 },
    ])
    .unwrap();
    assert_eq!(files.len(), 2);
    assert_eq!(files[0].key, "notes/a.md");
    assert_eq!(files[0].last_modified, utc(NOON));
    assert_eq!(files[1].last_modified, utc(NOON));
    assert_eq!(files[1].size, 7);
    let bad = remote_files(vec![
        ListEntry { key: "a".into(), last_modified: "2026-04-22T12:00:00Z".into(), size: 1 },
        ListEntry { key: "b".into(), last_modified: "yesterday".into(), size: 1 },
    ]);
    assert!(matches!(bad, Err(CoreError::Sync(_))));
}

#[test]
fn a_running_sync_refuses_another() {
    let mut status = SyncStatusInfo::new();
    assert!(status.begin().is_ok());
    match status.begin() {
        Err(e) => {
            assert_eq!(e.kind, "busy");
            assert_eq!(e.message, "Sync already in progress");
        }
        Ok(()) => panic!("expected busy"),
    }
    status.end(&Ok(SyncResult::new()), utc(NOON));
    assert!(!status.is_syncing);
    assert_eq!(status.last_synced_at, Some(utc(NOON)));
    assert!(status.begin().is_ok());
    status.end(&Err(SyncErrorInfo::new("network", "Network error: down".to_string())), utc(TWO_PM));
    assert_eq!(status.last_error, Some("Network error: down".to_string()));
    assert_eq!(status.last_synced_at, Some(utc(NOON)));
}

#[test]
fn the_plan_ignores_listing_order() {
    let l1 = vec![local("notes/b.md", "hb"), local("notes/a.md", "ha"), local("notes/c.md", "new")];
    let l2 = vec![local("notes/c.md", "new"), local("notes/a.md", "ha"), local("notes/b.md", "hb")];
    let r1 = vec![remote("notes/d.md", TEN), remote("notes/c.md", TEN), remote("notes/a.md", TWO_PM)];
    let r2 = vec![remote("notes/a.md", TWO_PM), remote("notes/d.md", TEN), remote("notes/c.md", TEN)];
    let state = state_with("notes/c.md", record("old", TEN));
    let p1 = compute(&l1, &r1, &state);
    let p2 = compute(&l2, &r2, &state);
    assert_eq!(p1, p2);
    assert_eq!(
        p1,
        vec![
            SyncAction::Conflict { key: "notes/a.md".into() },
            SyncAction::UploadNew { key: "notes/b.md".into() },
            SyncAction::UploadModified { key: "notes/c.md".into() },
            SyncAction::DownloadNew { key: "notes/d.md".into() },
        ]
    );
}

fn report(modified: i64, content: &[u8], resolution: ConflictResolution) -> StepReport {
    StepReport { modified: utc(modified), content: content.to_vec(), resolution }
}

#[test]
fn a_run_tallies_every_step_and_records_the_successes() {
    let local_files = vec![local("notes/a.md", "ha")];
    let remote_files = vec![remote("notes/b.md", TEN), remote("notes/c.md", TEN)];
    let mut state = state_with("notes/c.md", record("hc", TEN));
    state.files.insert("notes/z.md".to_string(), record("hz", TEN));
    let actions = compute(&local_files, &remote_files, &state);
    let steps = plan_steps(&actions, &local_files, &remote_files);
    let kinds: Vec<StepKind> = steps.iter().map(|s| s.kind).collect();
    assert_eq!(kinds, vec![StepKind::Download, StepKind::Upload, StepKind::DeleteRemote]);
    let outcomes = vec![
        Ok(report(TWO_PM, b"hi", ConflictResolution::KeepLocal)),
        Err(CoreError::Network("down".to_string())),
        Ok(report(0, b"", ConflictResolution::KeepLocal)),
    ];
    let result = apply_run(&steps, &outcomes, &local_files, &remote_files, &mut state, utc(NOON));
    assert_eq!(result.downloaded, 1);
    assert_eq!(result.uploaded, 0);
    assert_eq!(result.deleted_remote, 1);
    assert_eq!(result.deleted_local + result.conflicts, 0);
    assert_eq!(result.errors, vec!["upload notes/a.md: Network error: down".to_string()]);
    let b = state.files.get("notes/b.md").unwrap();
    assert_eq!(b.content_hash, compute_hash(b"hi"));
    assert_eq!(b.last_synced_modified, utc(TWO_PM));
    assert!(!state.files.contains_key("notes/a.md"));
    assert!(!state.files.contains_key("notes/c.md"));
    assert_eq!(state.files.get("notes/z.md").unwrap().content_hash, "hz");
    assert_eq!(state.last_sync, Some(utc(NOON)));
}

#[test]
fn a_run_records_uploads_and_settled_conflicts() {
    let local_files = vec![local("notes/a.md", "ha"), local("notes/k.md", "hk")];
    let remote_files = vec![remote("notes/k.md", TWO_PM)];
    let mut state = SyncState::new();
    let actions = compute(&local_files, &remote_files, &state);
    let steps = plan_steps(&actions, &local_files, &remote_files);
    let kinds: Vec<StepKind> = steps.iter().map(|s| s.kind).collect();
    assert_eq!(kinds, vec![StepKind::Resolve, StepKind::Upload]);
    let outcomes = vec![
        Ok(report(0, b"remote bytes", ConflictResolution::KeepRemote)),
        Ok(report(0, b"", ConflictResolution::KeepLocal)),
    ];
    let result = apply_run(&steps, &outcomes, &local_files, &remote_files, &mut state, utc(TEN));
    assert_eq!((result.conflicts, result.uploaded), (1, 1));
    assert!(result.errors.is_empty());
    let k = state.files.get("notes/k.md").unwrap();
    assert_eq!(k.last_synced_modified, utc(TWO_PM));
    assert_eq!(k.content_hash, compute_hash(b"remote bytes"));
    assert_eq!(state.files.get("notes/a.md").unwrap().content_hash, "ha");
}
