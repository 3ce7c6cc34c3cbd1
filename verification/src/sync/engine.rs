//! Carrying out a synchronisation plan: the order of the steps, what each
//! finished step leaves in the state, and the tally of the outcome. The
//! transfers themselves are made by the caller, step by step.
use vstd::prelude::*;

use crate::error::{error_text, CoreError};
use crate::moment::Moment;
use crate::sync::conflict::ConflictResolution;
use crate::sync::diff::{
    action_key, find_local, find_remote, key_of, local_for, planned, remote_for, LocalFile,
    RemoteFile, SyncAction,
};
use crate::moment::same_instant;
use crate::sync::scan::{compute_hash, hex_lower, sha256_of};
use crate::sync::state::{FileSyncRecord, RecordView, SyncState};

verus! {

/// What one step of a synchronisation does.
#[derive(Debug, Clone, Copy, PartialEq, Eq, Structural)]
pub enum StepKind {
    /// Fetch the remote file and write it locally.
    Download,
    /// Delete the local file.
    DeleteLocal,
    /// Settle a file changed on both sides.
    Resolve,
    /// Send the local file to the remote store.
    Upload,
    /// Delete the remote file.
    DeleteRemote,
}

/// One step: its kind, the key of its file and, where the step needs
/// them, the positions of the file in the local and remote listings.
pub struct SyncStep {
    pub kind: StepKind,
    pub key: String,
    pub local: Option<usize>,
    pub remote: Option<usize>,
}

/// Pulls come first (0), then conflicts (1), then pushes (2).
pub open spec fn phase_of(k: StepKind) -> int {
    match k {
        StepKind::Download => 0,
        StepKind::DeleteLocal => 0,
        StepKind::Resolve => 1,
        StepKind::Upload => 2,
        StepKind::DeleteRemote => 2,
    }
}

/// The step an action gives in a phase, if any. A conflict needs the file
/// on both sides and an upload needs the local file; without them the
/// action is passed over.
pub open spec fn phase_step(phase: int, a: SyncAction, local: Seq<LocalFile>, remote: Seq<RemoteFile>) -> Option<StepKind> {
    match a {
        SyncAction::DownloadNew { .. } => if phase == 0 { Some(StepKind::Download) } else { None },
        SyncAction::DownloadModified { .. } => if phase == 0 { Some(StepKind::Download) } else { None },
        SyncAction::DeleteLocal { .. } => if phase == 0 { Some(StepKind::DeleteLocal) } else { None },
        SyncAction::Conflict { key } => if phase == 1 && local_for(local, key@) is Some && remote_for(
            remote,
            key@,
        ) is Some {
            Some(StepKind::Resolve)
        } else {
            None
        },
        SyncAction::UploadNew { key } => if phase == 2 && local_for(local, key@) is Some {
            Some(StepKind::Upload)
        } else {
            None
        },
        SyncAction::UploadModified { key } => if phase == 2 && local_for(local, key@) is Some {
            Some(StepKind::Upload)
        } else {
            None
        },
        SyncAction::DeleteRemote { .. } => if phase == 2 { Some(StepKind::DeleteRemote) } else { None },
    }
}

/// The steps of one phase for the first `n` actions, in action order.
pub open spec fn phase_steps(phase: int, actions: Seq<SyncAction>, local: Seq<LocalFile>, remote: Seq<RemoteFile>, n: int) -> Seq<(StepKind, Seq<char>)>
    decreases n,
{
    if n <= 0 {
        Seq::empty()
    } else {
        let prev = phase_steps(phase, actions, local, remote, n - 1);
        match phase_step(phase, actions[n - 1], local, remote) {
            Some(k) => prev.push((k, key_of(actions[n - 1]))),
            None => prev,
        }
    }
}

/// All steps for the actions: the pulls, then the conflicts, then the
/// pushes, each phase in action order.
pub open spec fn all_steps(actions: Seq<SyncAction>, local: Seq<LocalFile>, remote: Seq<RemoteFile>) -> Seq<(StepKind, Seq<char>)> {
    phase_steps(0, actions, local, remote, actions.len() as int) + phase_steps(
        1,
        actions,
        local,
        remote,
        actions.len() as int,
    ) + phase_steps(2, actions, local, remote, actions.len() as int)
}

/// The kind and key of each step.
pub open spec fn step_views(steps: Seq<SyncStep>) -> Seq<(StepKind, Seq<char>)> {
    steps.map_values(|s: SyncStep| (s.kind, s.key@))
}

/// Whether a step points at the listings as its kind needs: a conflict at
/// the file on both sides, an upload at the local file, the others at
/// neither; each position is that of the file the step is about.
pub open spec fn step_points_right(s: SyncStep, local: Seq<LocalFile>, remote: Seq<RemoteFile>) -> bool {
    &&& (s.local is Some <==> (s.kind == StepKind::Resolve || s.kind == StepKind::Upload))
    &&& (s.remote is Some <==> s.kind == StepKind::Resolve)
    &&& (s.local matches Some(i) ==> i < local.len() && local_for(local, s.key@) == Some(local[i as int]))
    &&& (s.remote matches Some(i) ==> i < remote.len() && remote_for(remote, s.key@) == Some(
        remote[i as int],
    ))
}

proof fn lemma_phase_steps(phase: int, actions: Seq<SyncAction>, local: Seq<LocalFile>, remote: Seq<RemoteFile>, n: int)
    ensures
        forall|i: int|
            0 <= i < phase_steps(phase, actions, local, remote, n).len() ==> phase_of(
                #[trigger] phase_steps(phase, actions, local, remote, n)[i].0,
            ) == phase,
    decreases n,
{
    if n > 0 {
        lemma_phase_steps(phase, actions, local, remote, n - 1);
        let prev = phase_steps(phase, actions, local, remote, n - 1);
        let cur = phase_steps(phase, actions, local, remote, n);
        match phase_step(phase, actions[n - 1], local, remote) {
            Some(k) => {
                assert(phase_of(k) == phase);
                assert forall|i: int| 0 <= i < cur.len() implies phase_of(#[trigger] cur[i].0) == phase by {
                    if i < prev.len() {
                        assert(cur[i] == prev[i]);
                    }
                }
            },
            None => {},
        }
    }
}

fn copy_string(s: &str) -> (res: String)
    ensures
        res@ == s@,
{
    String::from_str(s)
}

fn add_phase(
    phase: u8,
    actions: &[SyncAction],
    local: &[LocalFile],
    remote: &[RemoteFile],
    out: &mut Vec<SyncStep>,
)
    requires
        phase <= 2,
        forall|i: int| 0 <= i < old(out)@.len() ==> step_points_right(#[trigger] old(out)@[i], local@, remote@),
    ensures
        step_views(final(out)@) == step_views(old(out)@) + phase_steps(phase as int, actions@, local@, remote@, actions@.len() as int),
        forall|i: int| 0 <= i < final(out)@.len() ==> step_points_right(#[trigger] final(out)@[i], local@, remote@),
{
    let ghost start = step_views(out@);
    let mut n: usize = 0;
    assert(step_views(out@) =~= start + phase_steps(phase as int, actions@, local@, remote@, 0));
    while n < actions.len()
        invariant
            phase <= 2,
            n <= actions.len(),
            step_views(out@) == start + phase_steps(phase as int, actions@, local@, remote@, n as int),
            forall|i: int| 0 <= i < out@.len() ==> step_points_right(#[trigger] out@[i], local@, remote@),
        decreases actions.len() - n,
    {
        let ghost before = out@;
        let a = &actions[n];
        let key = copy_string(action_key(a));
        let step: Option<SyncStep> = match a {
            SyncAction::DownloadNew { .. } | SyncAction::DownloadModified { .. } => if phase == 0 {
                Some(SyncStep { kind: StepKind::Download, key, local: None, remote: None })
            } else {
                None
            },
            SyncAction::DeleteLocal { .. } => if phase == 0 {
                Some(SyncStep { kind: StepKind::DeleteLocal, key, local: None, remote: None })
            } else {
                None
            },
            SyncAction::Conflict { .. } => if phase == 1 {
                match (find_local(local, &key), find_remote(remote, &key)) {
                    (Some(l), Some(r)) => Some(
                        SyncStep { kind: StepKind::Resolve, key, local: Some(l), remote: Some(r) },
                    ),
                    _ => None,
                }
            } else {
                None
            },
            SyncAction::UploadNew { .. } | SyncAction::UploadModified { .. } => if phase == 2 {
                match find_local(local, &key) {
                    Some(l) => Some(
                        SyncStep { kind: StepKind::Upload, key, local: Some(l), remote: None },
                    ),
                    None => None,
                }
            } else {
                None
            },
            SyncAction::DeleteRemote { .. } => if phase == 2 {
                Some(SyncStep { kind: StepKind::DeleteRemote, key, local: None, remote: None })
            } else {
                None
            },
        };
        match step {
            Some(s) => {
                out.push(s);
                assert(step_views(out@) =~= step_views(before).push(
                    (out@.last().kind, out@.last().key@),
                ));
            },
            None => {},
        }
        n += 1;
    }
}

/// The steps that carry out `actions`: first every pull (downloads and
/// local deletions), then every conflict that has the file on both sides,
/// then every push (uploads of files still listed locally, and remote
/// deletions), each phase in the order of the actions.
pub fn plan_steps(actions: &[SyncAction], local: &[LocalFile], remote: &[RemoteFile]) -> (res: Vec<SyncStep>)
    ensures
        step_views(res@) == all_steps(actions@, local@, remote@),
        forall|i: int| 0 <= i < res@.len() ==> step_points_right(#[trigger] res@[i], local@, remote@),
        forall|i: int, j: int|
            0 <= i < j < res@.len() ==> phase_of(#[trigger] res@[i].kind) <= phase_of(
                #[trigger] res@[j].kind,
            ),
{
    let mut out: Vec<SyncStep> = Vec::new();
    add_phase(0, actions, local, remote, &mut out);
    add_phase(1, actions, local, remote, &mut out);
    add_phase(2, actions, local, remote, &mut out);
    proof {
        let n = actions@.len() as int;
        let p0 = phase_steps(0, actions@, local@, remote@, n);
        let p1 = phase_steps(1, actions@, local@, remote@, n);
        let p2 = phase_steps(2, actions@, local@, remote@, n);
        lemma_phase_steps(0, actions@, local@, remote@, n);
        lemma_phase_steps(1, actions@, local@, remote@, n);
        lemma_phase_steps(2, actions@, local@, remote@, n);
        assert(step_views(out@) =~= p0 + p1 + p2);
        assert forall|i: int| 0 <= i < out@.len() implies phase_of(#[trigger] out@[i].kind) == (if i
            < p0.len() {
            0int
        } else if i < p0.len() + p1.len() {
            1int
        } else {
            2int
        }) by {
            assert(step_views(out@)[i].0 == out@[i].kind);
            if i < p0.len() {
                assert((p0 + p1 + p2)[i] == p0[i]);
            } else if i < p0.len() + p1.len() {
                assert((p0 + p1 + p2)[i] == p1[i - p0.len()]);
            } else {
                assert((p0 + p1 + p2)[i] == p2[i - p0.len() - p1.len()]);
            }
        }
    }
    out
}

/// What a synchronisation did: how many files went each way, and a line
/// for each step that failed.
pub struct SyncResult {
    pub uploaded: usize,
    pub downloaded: usize,
    pub deleted_remote: usize,
    pub deleted_local: usize,
    pub conflicts: usize,
    pub errors: Vec<String>,
}

/// The word a failed step is reported with.
pub open spec fn step_label(k: StepKind) -> Seq<char> {
    match k {
        StepKind::Download => "download"@,
        StepKind::DeleteLocal => "delete-local"@,
        StepKind::Resolve => "conflict"@,
        StepKind::Upload => "upload"@,
        StepKind::DeleteRemote => "delete-remote"@,
    }
}

/// The line a failed step is reported with: `<label> <key>: <error>`.
pub open spec fn failure_line(k: StepKind, key: Seq<char>, e: CoreError) -> Seq<char> {
    step_label(k) + " "@ + key + ": "@ + error_text(e)
}

/// The texts of the strings.
pub open spec fn texts(v: Seq<String>) -> Seq<Seq<char>> {
    v.map_values(|s: String| s@)
}

/// The counter a successful step of this kind adds to.
pub open spec fn counter(r: SyncResult, k: StepKind) -> int {
    match k {
        StepKind::Download => r.downloaded as int,
        StepKind::DeleteLocal => r.deleted_local as int,
        StepKind::Resolve => r.conflicts as int,
        StepKind::Upload => r.uploaded as int,
        StepKind::DeleteRemote => r.deleted_remote as int,
    }
}

fn label_of(k: StepKind) -> (res: &'static str)
    ensures
        res@ == step_label(k),
{
    proof {
        reveal_strlit("download");
        reveal_strlit("delete-local");
        reveal_strlit("conflict");
        reveal_strlit("upload");
        reveal_strlit("delete-remote");
    }
    match k {
        StepKind::Download => "download",
        StepKind::DeleteLocal => "delete-local",
        StepKind::Resolve => "conflict",
        StepKind::Upload => "upload",
        StepKind::DeleteRemote => "delete-remote",
    }
}

impl SyncResult {
    /// Nothing done yet.
    pub fn new() -> (res: SyncResult)
        ensures
            res.uploaded == 0,
            res.downloaded == 0,
            res.deleted_remote == 0,
            res.deleted_local == 0,
            res.conflicts == 0,
            res.errors@.len() == 0,
    {
        SyncResult {
            uploaded: 0,
            downloaded: 0,
            deleted_remote: 0,
            deleted_local: 0,
            conflicts: 0,
            errors: Vec::new(),
        }
    }

    /// Adds one successful step of `kind` to its counter.
    fn tally_success(&mut self, kind: StepKind)
        requires
            counter(*old(self), kind) < usize::MAX,
        ensures
            forall|k: StepKind| #[trigger] counter(*final(self), k) == counter(*old(self), k) + (if k == kind {
                1int
            } else {
                0int
            }),
            texts(final(self).errors@) == texts(old(self).errors@),
    {
        match kind {
            StepKind::Download => { self.downloaded = self.downloaded + 1; },
            StepKind::DeleteLocal => { self.deleted_local = self.deleted_local + 1; },
            StepKind::Resolve => { self.conflicts = self.conflicts + 1; },
            StepKind::Upload => { self.uploaded = self.uploaded + 1; },
            StepKind::DeleteRemote => { self.deleted_remote = self.deleted_remote + 1; },
        }
    }

    /// Adds the line of a failed step to the errors.
    fn tally_failure(&mut self, kind: StepKind, key: &str, e: &CoreError)
        ensures
            forall|k: StepKind| #[trigger] counter(*final(self), k) == counter(*old(self), k),
            texts(final(self).errors@) == texts(old(self).errors@).push(failure_line(kind, key@, *e)),
    {
        let mut line = String::from_str(label_of(kind));
        proof {
            reveal_strlit(" ");
            reveal_strlit(": ");
        }
        line.append(" ");
        line.append(key);
        line.append(": ");
        let msg = e.describe();
        line.append(msg.as_str());
        let ghost before = self.errors@;
        self.errors.push(line);
        assert(texts(self.errors@) =~= texts(before).push(failure_line(kind, key@, *e)));
    }

    /// Tallies the outcome of one step: a success adds one to the counter
    /// of its kind; a failure adds its line to the errors and no count.
    pub fn record(&mut self, kind: StepKind, key: &str, outcome: &Result<(), CoreError>)
        requires
            counter(*old(self), kind) < usize::MAX,
        ensures
            forall|k: StepKind| #[trigger] counter(*final(self), k) == counter(*old(self), k) + (if k == kind
                && outcome is Ok {
                1int
            } else {
                0int
            }),
            match outcome {
                Ok(_) => final(self).errors@.len() == old(self).errors@.len() && forall|i: int|
                    0 <= i < old(self).errors@.len() ==> #[trigger] final(self).errors@[i]@ == old(self).errors@[i]@,
                Err(e) => final(self).errors@.len() == old(self).errors@.len() + 1 && (forall|i: int|
                    0 <= i < old(self).errors@.len() ==> #[trigger] final(self).errors@[i]@ == old(self).errors@[i]@)
                    && final(self).errors@.last()@ == failure_line(kind, key@, *e),
            },
    {
        match outcome {
            Ok(_) => match kind {
                StepKind::Download => { self.downloaded = self.downloaded + 1; },
                StepKind::DeleteLocal => { self.deleted_local = self.deleted_local + 1; },
                StepKind::Resolve => { self.conflicts = self.conflicts + 1; },
                StepKind::Upload => { self.uploaded = self.uploaded + 1; },
                StepKind::DeleteRemote => { self.deleted_remote = self.deleted_remote + 1; },
            },
            Err(e) => {
                let mut line = String::from_str(label_of(kind));
                proof {
                    reveal_strlit(" ");
                    reveal_strlit(": ");
                }
                line.append(" ");
                line.append(key);
                line.append(": ");
                let msg = e.describe();
                line.append(msg.as_str());
                self.errors.push(line);
            },
        }
    }
}

impl SyncState {
    /// Records a file just downloaded: the time the written file was last
    /// modified, and the hash of the bytes written.
    pub fn record_download(&mut self, key: &str, modified: Moment, content: &[u8])
        ensures
            final(self).files@ == old(self).files@.insert(
                key@,
                RecordView { last_synced_modified: modified, content_hash: hex_lower(sha256_of(content@)) },
            ),
            final(self).last_sync == old(self).last_sync,
    {
        let record = FileSyncRecord { last_synced_modified: modified, content_hash: compute_hash(content) };
        self.files.insert(copy_string(key), record);
    }

    /// Records a file just uploaded: its local modification time and hash.
    pub fn record_upload(&mut self, local: &LocalFile)
        ensures
            final(self).files@ == old(self).files@.insert(
                local.key@,
                RecordView { last_synced_modified: local.last_modified, content_hash: local.content_hash@ },
            ),
            final(self).last_sync == old(self).last_sync,
    {
        let record = FileSyncRecord {
            last_synced_modified: local.last_modified,
            content_hash: copy_string(local.content_hash.as_str()),
        };
        self.files.insert(copy_string(local.key.as_str()), record);
    }

    /// Forgets a file deleted on one side.
    pub fn record_deletion(&mut self, key: &str)
        ensures
            final(self).files@ == old(self).files@.remove(key@),
            final(self).last_sync == old(self).last_sync,
    {
        self.files.remove(key);
    }

    /// Records a settled conflict. Keeping the local side records the local
    /// file as uploaded; keeping the remote side records the remote
    /// modification time and the hash of the remote bytes written locally.
    pub fn record_resolution(
        &mut self,
        key: &str,
        resolution: ConflictResolution,
        local: &LocalFile,
        remote: &RemoteFile,
        remote_content: &[u8],
    )
        ensures
            final(self).files@ == old(self).files@.insert(
                key@,
                match resolution {
                    ConflictResolution::KeepLocal => RecordView {
                        last_synced_modified: local.last_modified,
                        content_hash: local.content_hash@,
                    },
                    ConflictResolution::KeepRemote => RecordView {
                        last_synced_modified: remote.last_modified,
                        content_hash: hex_lower(sha256_of(remote_content@)),
                    },
                },
            ),
            final(self).last_sync == old(self).last_sync,
    {
        let record = match resolution {
            ConflictResolution::KeepLocal => FileSyncRecord {
                last_synced_modified: local.last_modified,
                content_hash: copy_string(local.content_hash.as_str()),
            },
            ConflictResolution::KeepRemote => FileSyncRecord {
                last_synced_modified: remote.last_modified,
                content_hash: compute_hash(remote_content),
            },
        };
        self.files.insert(copy_string(key), record);
    }

    /// Marks the end of a synchronisation.
    pub fn finish(&mut self, now: Moment)
        ensures
            final(self).files@ == old(self).files@,
            final(self).last_sync == Some(now),
    {
        self.last_sync = Some(now);
    }
}

/// What a step that succeeded brings back for the record: for a download,
/// the modification time of the written file and the bytes written; for a
/// conflict, the side that was kept and, when the remote side was kept,
/// the remote bytes written locally. A step reads only what its kind
/// needs; uploads and deletions need nothing.
pub struct StepReport {
    pub modified: Moment,
    pub content: Vec<u8>,
    pub resolution: ConflictResolution,
}

/// The records after one successful step, as the `record_*` call for its
/// kind leaves them: a download or a settled conflict records the file, an
/// upload records the local file, a deletion forgets the file.
pub open spec fn step_record(
    files: Map<Seq<char>, RecordView>,
    s: SyncStep,
    r: StepReport,
    local: Seq<LocalFile>,
    remote: Seq<RemoteFile>,
) -> Map<Seq<char>, RecordView> {
    match s.kind {
        StepKind::Download => files.insert(
            s.key@,
            RecordView { last_synced_modified: r.modified, content_hash: hex_lower(sha256_of(r.content@)) },
        ),
        StepKind::DeleteLocal => files.remove(s.key@),
        StepKind::DeleteRemote => files.remove(s.key@),
        StepKind::Upload => match s.local {
            Some(li) => {
                let l = local[li as int];
                files.insert(l.key@, RecordView { last_synced_modified: l.last_modified, content_hash: l.content_hash@ })
            },
            None => files,
        },
        StepKind::Resolve => match (s.local, s.remote) {
            (Some(li), Some(ri)) => {
                let l = local[li as int];
                let rm = remote[ri as int];
                files.insert(
                    s.key@,
                    match r.resolution {
                        ConflictResolution::KeepLocal => RecordView {
                            last_synced_modified: l.last_modified,
                            content_hash: l.content_hash@,
                        },
                        ConflictResolution::KeepRemote => RecordView {
                            last_synced_modified: rm.last_modified,
                            content_hash: hex_lower(sha256_of(r.content@)),
                        },
                    },
                )
            },
            _ => files,
        },
    }
}

/// The records after the first `n` steps: each successful step applied in
/// turn, the failed ones leaving the records as they were.
pub open spec fn run_records(
    files: Map<Seq<char>, RecordView>,
    steps: Seq<SyncStep>,
    outcomes: Seq<Result<StepReport, CoreError>>,
    local: Seq<LocalFile>,
    remote: Seq<RemoteFile>,
    n: int,
) -> Map<Seq<char>, RecordView>
    decreases n,
{
    if n <= 0 {
        files
    } else {
        let prev = run_records(files, steps, outcomes, local, remote, n - 1);
        match outcomes[n - 1] {
            Ok(r) => step_record(prev, steps[n - 1], r, local, remote),
            Err(_) => prev,
        }
    }
}

/// How many of the first `n` steps are of kind `k` and succeeded.
pub open spec fn successes(steps: Seq<SyncStep>, outcomes: Seq<Result<StepReport, CoreError>>, k: StepKind, n: int) -> int
    decreases n,
{
    if n <= 0 {
        0
    } else {
        successes(steps, outcomes, k, n - 1) + if steps[n - 1].kind == k && outcomes[n - 1] is Ok {
            1int
        } else {
            0int
        }
    }
}

/// The lines of the failed steps among the first `n`, in step order.
pub open spec fn failure_lines(steps: Seq<SyncStep>, outcomes: Seq<Result<StepReport, CoreError>>, n: int) -> Seq<Seq<char>>
    decreases n,
{
    if n <= 0 {
        Seq::empty()
    } else {
        let prev = failure_lines(steps, outcomes, n - 1);
        match outcomes[n - 1] {
            Ok(_) => prev,
            Err(e) => prev.push(failure_line(steps[n - 1].kind, steps[n - 1].key@, e)),
        }
    }
}

/// Every step is accounted for once: the successes of each kind and the
/// failures together make up all the steps.
pub proof fn law_every_step_tallied(steps: Seq<SyncStep>, outcomes: Seq<Result<StepReport, CoreError>>, n: int)
    requires
        0 <= n <= steps.len(),
        outcomes.len() == steps.len(),
    ensures
        successes(steps, outcomes, StepKind::Download, n) + successes(steps, outcomes, StepKind::DeleteLocal, n)
            + successes(steps, outcomes, StepKind::Resolve, n) + successes(steps, outcomes, StepKind::Upload, n)
            + successes(steps, outcomes, StepKind::DeleteRemote, n) + failure_lines(steps, outcomes, n).len() == n,
        forall|k: StepKind| 0 <= #[trigger] successes(steps, outcomes, k, n) <= n,
    decreases n,
{
    if n > 0 {
        law_every_step_tallied(steps, outcomes, n - 1);
        assert forall|k: StepKind| 0 <= #[trigger] successes(steps, outcomes, k, n) <= n by {
            assert(0 <= successes(steps, outcomes, k, n - 1) <= n - 1);
        }
    }
}

proof fn lemma_local_for_key(files: Seq<LocalFile>, key: Seq<char>)
    ensures
        local_for(files, key) matches Some(f) ==> f.key@ == key,
    decreases files.len(),
{
    if files.len() > 0 {
        lemma_local_for_key(files.drop_last(), key);
    }
}

/// A file that no successful step is about keeps its record through the
/// run: it is recorded after the run exactly when it was before, and
/// with the same record.
pub proof fn law_untouched_files_keep_record(
    files: Map<Seq<char>, RecordView>,
    steps: Seq<SyncStep>,
    outcomes: Seq<Result<StepReport, CoreError>>,
    local: Seq<LocalFile>,
    remote: Seq<RemoteFile>,
    key: Seq<char>,
    n: int,
)
    requires
        0 <= n <= steps.len(),
        outcomes.len() == steps.len(),
        forall|i: int| 0 <= i < steps.len() ==> step_points_right(#[trigger] steps[i], local, remote),
        forall|i: int| 0 <= i < n ==> #[trigger] outcomes[i] is Err || steps[i].key@ != key,
    ensures
        run_records(files, steps, outcomes, local, remote, n).contains_key(key) == files.contains_key(key),
        files.contains_key(key) ==> run_records(files, steps, outcomes, local, remote, n)[key] == files[key],
    decreases n,
{
    if n > 0 {
        law_untouched_files_keep_record(files, steps, outcomes, local, remote, key, n - 1);
        let s = steps[n - 1];
        assert(outcomes[n - 1] is Err || s.key@ != key);
        assert(step_points_right(s, local, remote));
        lemma_local_for_key(local, s.key@);
    }
}

/// Carries the finished steps of a synchronisation into its tally and its
/// state, in step order: each step that succeeded adds one to the counter
/// of its kind and is recorded as its `record_*` call records it; each
/// that failed adds its line to the errors and leaves the records as they
/// were. The state is then marked synchronised at `now`. `outcomes` holds
/// the outcome of each step of `steps` (see `plan_steps`).
pub fn apply_run(
    steps: &[SyncStep],
    outcomes: &[Result<StepReport, CoreError>],
    local: &[LocalFile],
    remote: &[RemoteFile],
    state: &mut SyncState,
    now: Moment,
) -> (res: SyncResult)
    requires
        outcomes.len() == steps.len(),
        forall|i: int| 0 <= i < steps.len() ==> step_points_right(#[trigger] steps@[i], local@, remote@),
    ensures
        res.uploaded + res.downloaded + res.deleted_local + res.deleted_remote + res.conflicts
            + res.errors@.len() == steps.len(),
        forall|k: StepKind| #[trigger] counter(res, k) == successes(steps@, outcomes@, k, steps.len() as int),
        texts(res.errors@) == failure_lines(steps@, outcomes@, steps.len() as int),
        final(state).files@ == run_records(
            old(state).files@,
            steps@,
            outcomes@,
            local@,
            remote@,
            steps.len() as int,
        ),
        final(state).last_sync == Some(now),
{
    let ghost files0 = state.files@;
    let mut result = SyncResult::new();
    assert(texts(result.errors@) =~= Seq::<Seq<char>>::empty());
    let mut i: usize = 0;
    while i < steps.len()
        invariant
            i <= steps.len(),
            outcomes.len() == steps.len(),
            forall|j: int| 0 <= j < steps.len() ==> step_points_right(#[trigger] steps@[j], local@, remote@),
            state.files@ == run_records(files0, steps@, outcomes@, local@, remote@, i as int),
            forall|k: StepKind| #[trigger] counter(result, k) == successes(steps@, outcomes@, k, i as int),
            texts(result.errors@) == failure_lines(steps@, outcomes@, i as int),
        decreases steps.len() - i,
    {
        proof {
            law_every_step_tallied(steps@, outcomes@, i as int);
        }
        let s = &steps[i];
        assert(step_points_right(steps@[i as int], local@, remote@));
        match &outcomes[i] {
            Ok(r) => {
                match s.kind {
                    StepKind::Download => state.record_download(s.key.as_str(), r.modified, r.content.as_slice()),
                    StepKind::DeleteLocal => state.record_deletion(s.key.as_str()),
                    StepKind::DeleteRemote => state.record_deletion(s.key.as_str()),
                    StepKind::Upload => match s.local {
                        Some(l) => state.record_upload(&local[l]),
                        None => {},
                    },
                    StepKind::Resolve => match (s.local, s.remote) {
                        (Some(l), Some(m)) => state.record_resolution(
                            s.key.as_str(),
                            r.resolution,
                            &local[l],
                            &remote[m],
                            r.content.as_slice(),
                        ),
                        _ => {},
                    },
                }
                result.tally_success(s.kind);
            },
            Err(e) => {
                result.tally_failure(s.kind, s.key.as_str(), e);
            },
        }
        i += 1;
    }
    proof {
        law_every_step_tallied(steps@, outcomes@, steps.len() as int);
        assert(counter(result, StepKind::Download) == result.downloaded);
        assert(counter(result, StepKind::DeleteLocal) == result.deleted_local);
        assert(counter(result, StepKind::Resolve) == result.conflicts);
        assert(counter(result, StepKind::Upload) == result.uploaded);
        assert(counter(result, StepKind::DeleteRemote) == result.deleted_remote);
        assert(texts(result.errors@).len() == result.errors@.len());
    }
    state.finish(now);
    result
}

/// An uploaded file is in sync: once its upload is recorded, the next
/// plan has nothing to do for it as long as the local file is unchanged
/// and the remote store reports the modification time it was sent.
pub proof fn law_upload_settles(
    local: Seq<LocalFile>,
    remote: Seq<RemoteFile>,
    records: Map<Seq<char>, RecordView>,
    l: LocalFile,
    r: RemoteFile,
)
    requires
        local_for(local, l.key@) == Some(l),
        remote_for(remote, l.key@) == Some(r),
        same_instant(r.last_modified, l.last_modified),
    ensures
        planned(
            local,
            remote,
            records.insert(
                l.key@,
                RecordView { last_synced_modified: l.last_modified, content_hash: l.content_hash@ },
            ),
            l.key@,
        ) is None,
{
}

/// A conflict settled for the remote side is in sync: once recorded, the
/// next plan has nothing to do for the file while the local file holds
/// the remote bytes written to it and the remote file is unchanged.
pub proof fn law_remote_resolution_settles(
    local: Seq<LocalFile>,
    remote: Seq<RemoteFile>,
    records: Map<Seq<char>, RecordView>,
    key: Seq<char>,
    r: RemoteFile,
    remote_content: Seq<u8>,
    l: LocalFile,
)
    requires
        local_for(local, key) == Some(l),
        l.content_hash@ == hex_lower(sha256_of(remote_content)),
        remote_for(remote, key) == Some(r),
    ensures
        planned(
            local,
            remote,
            records.insert(
                key,
                RecordView {
                    last_synced_modified: r.last_modified,
                    content_hash: hex_lower(sha256_of(remote_content)),
                },
            ),
            key,
        ) is None,
{
}

} // verus!
