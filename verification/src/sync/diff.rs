//! Deciding, file by file, what a synchronisation has to do.
use vstd::prelude::*;

use crate::moment::{same_instant, Moment};
use crate::order::{lex_less, lex_lt, lemma_lex_asymmetric, lemma_lex_irreflexive, lemma_lex_total, lemma_lex_transitive};
use crate::sync::state::{RecordView, SyncState};

verus! {

/// A file found in the local data directory.
pub struct LocalFile {
    pub key: String,
    pub last_modified: Moment,
    pub content_hash: String,
}

/// A file listed by the remote store.
pub struct RemoteFile {
    pub key: String,
    pub last_modified: Moment,
    pub size: u64,
}

/// What to do about one file.
#[derive(Debug, Clone, PartialEq, Eq)]
pub enum SyncAction {
    UploadNew { key: String },
    UploadModified { key: String },
    DownloadNew { key: String },
    DownloadModified { key: String },
    DeleteRemote { key: String },
    DeleteLocal { key: String },
    Conflict { key: String },
}

/// The kind of a `SyncAction`, without its key.
#[derive(Debug, Clone, Copy, PartialEq, Eq, Structural)]
pub enum ActionKind {
    UploadNew,
    UploadModified,
    DownloadNew,
    DownloadModified,
    DeleteRemote,
    DeleteLocal,
    Conflict,
}

/// The kind of an action.
pub open spec fn kind_of(a: SyncAction) -> ActionKind {
    match a {
        SyncAction::UploadNew { .. } => ActionKind::UploadNew,
        SyncAction::UploadModified { .. } => ActionKind::UploadModified,
        SyncAction::DownloadNew { .. } => ActionKind::DownloadNew,
        SyncAction::DownloadModified { .. } => ActionKind::DownloadModified,
        SyncAction::DeleteRemote { .. } => ActionKind::DeleteRemote,
        SyncAction::DeleteLocal { .. } => ActionKind::DeleteLocal,
        SyncAction::Conflict { .. } => ActionKind::Conflict,
    }
}

/// The key of the file an action is about.
pub open spec fn key_of(a: SyncAction) -> Seq<char> {
    match a {
        SyncAction::UploadNew { key } => key@,
        SyncAction::UploadModified { key } => key@,
        SyncAction::DownloadNew { key } => key@,
        SyncAction::DownloadModified { key } => key@,
        SyncAction::DeleteRemote { key } => key@,
        SyncAction::DeleteLocal { key } => key@,
        SyncAction::Conflict { key } => key@,
    }
}

/// The key of the file an action is about.
pub fn action_key(action: &SyncAction) -> (res: &str)
    ensures
        res@ == key_of(*action),
{
    match action {
        SyncAction::UploadNew { key } => key.as_str(),
        SyncAction::UploadModified { key } => key.as_str(),
        SyncAction::DownloadNew { key } => key.as_str(),
        SyncAction::DownloadModified { key } => key.as_str(),
        SyncAction::DeleteRemote { key } => key.as_str(),
        SyncAction::DeleteLocal { key } => key.as_str(),
        SyncAction::Conflict { key } => key.as_str(),
    }
}

/// The action of a kind for a key.
pub fn make_action(kind: ActionKind, key: String) -> (res: SyncAction)
    ensures
        kind_of(res) == kind,
        key_of(res) == key@,
{
    match kind {
        ActionKind::UploadNew => SyncAction::UploadNew { key },
        ActionKind::UploadModified => SyncAction::UploadModified { key },
        ActionKind::DownloadNew => SyncAction::DownloadNew { key },
        ActionKind::DownloadModified => SyncAction::DownloadModified { key },
        ActionKind::DeleteRemote => SyncAction::DeleteRemote { key },
        ActionKind::DeleteLocal => SyncAction::DeleteLocal { key },
        ActionKind::Conflict => SyncAction::Conflict { key },
    }
}

/// The last local file with the key (a later listing replaces an earlier).
pub open spec fn local_for(files: Seq<LocalFile>, key: Seq<char>) -> Option<LocalFile>
    decreases files.len(),
{
    if files.len() == 0 {
        None
    } else if files.last().key@ == key {
        Some(files.last())
    } else {
        local_for(files.drop_last(), key)
    }
}

/// The last remote file with the key (a later listing replaces an earlier).
pub open spec fn remote_for(files: Seq<RemoteFile>, key: Seq<char>) -> Option<RemoteFile>
    decreases files.len(),
{
    if files.len() == 0 {
        None
    } else if files.last().key@ == key {
        Some(files.last())
    } else {
        remote_for(files.drop_last(), key)
    }
}

/// The record of a key, if there is one.
pub open spec fn record_for(records: Map<Seq<char>, RecordView>, key: Seq<char>) -> Option<RecordView> {
    if records.contains_key(key) { Some(records[key]) } else { None }
}

/// What to do about one file, from what is local, what is remote and
/// what the last synchronisation recorded:
/// - on both sides and recorded: upload what changed locally, download
///   what changed remotely, a conflict when both changed;
/// - on both sides, never recorded: a conflict;
/// - on one side only, never recorded: upload or download it as new;
/// - gone on one side after being recorded: delete it on the other side,
///   unless the other side changed since, which then wins and is copied.
pub open spec fn decide(l: Option<LocalFile>, r: Option<RemoteFile>, rec: Option<RecordView>) -> Option<ActionKind> {
    match (l, r, rec) {
        (Some(l), Some(r), Some(rec)) => {
            let local_changed = l.content_hash@ != rec.content_hash;
            let remote_changed = !same_instant(r.last_modified, rec.last_synced_modified);
            if local_changed && remote_changed {
                Some(ActionKind::Conflict)
            } else if local_changed {
                Some(ActionKind::UploadModified)
            } else if remote_changed {
                Some(ActionKind::DownloadModified)
            } else {
                None
            }
        },
        (Some(_), Some(_), None) => Some(ActionKind::Conflict),
        (Some(_), None, None) => Some(ActionKind::UploadNew),
        (None, Some(_), None) => Some(ActionKind::DownloadNew),
        (Some(l), None, Some(rec)) => if l.content_hash@ != rec.content_hash {
            Some(ActionKind::UploadModified)
        } else {
            Some(ActionKind::DeleteLocal)
        },
        (None, Some(r), Some(rec)) => if !same_instant(r.last_modified, rec.last_synced_modified) {
            Some(ActionKind::DownloadModified)
        } else {
            Some(ActionKind::DeleteRemote)
        },
        (None, None, _) => None,
    }
}

/// What to do about the file with this key.
pub open spec fn planned(local: Seq<LocalFile>, remote: Seq<RemoteFile>, records: Map<Seq<char>, RecordView>, key: Seq<char>) -> Option<ActionKind> {
    decide(local_for(local, key), remote_for(remote, key), record_for(records, key))
}

/// Whether some local or remote file has this key.
pub open spec fn is_listed(local: Seq<LocalFile>, remote: Seq<RemoteFile>, key: Seq<char>) -> bool {
    (exists|i: int| #![trigger local[i]] 0 <= i < local.len() && local[i].key@ == key)
        || (exists|i: int| #![trigger remote[i]] 0 <= i < remote.len() && remote[i].key@ == key)
}

/// Whether the actions come in strictly increasing key order.
pub open spec fn sorted_by_key(actions: Seq<SyncAction>) -> bool {
    forall|i: int, j: int| 0 <= i < j < actions.len() ==> lex_lt(key_of(actions[i]), key_of(actions[j]))
}

/// Whether `actions` is the plan for these listings: one action for each
/// listed key that needs one, and nothing else, in increasing key order.
pub open spec fn is_plan(local: Seq<LocalFile>, remote: Seq<RemoteFile>, records: Map<Seq<char>, RecordView>, actions: Seq<SyncAction>) -> bool {
    &&& sorted_by_key(actions)
    &&& forall|i: int|
        #![trigger actions[i]]
        0 <= i < actions.len() ==> is_listed(local, remote, key_of(actions[i])) && planned(
            local,
            remote,
            records,
            key_of(actions[i]),
        ) == Some(kind_of(actions[i]))
    &&& forall|k: Seq<char>|
        #![trigger planned(local, remote, records, k)]
        is_listed(local, remote, k) && planned(local, remote, records, k) is Some ==> exists|i: int|
            #![trigger actions[i]]
            0 <= i < actions.len() && key_of(actions[i]) == k
}

/// Whether one of the strings holds exactly `x`.
pub open spec fn has_key(keys: Seq<String>, x: Seq<char>) -> bool {
    exists|i: int| #![trigger keys[i]] 0 <= i < keys.len() && keys[i]@ == x
}

/// Whether the keys are in strictly increasing order.
pub open spec fn strictly_sorted(keys: Seq<String>) -> bool {
    forall|i: int, j: int| 0 <= i < j < keys.len() ==> lex_lt(keys[i]@, keys[j]@)
}

/// Inserts `k` into strictly sorted `keys` unless it is already there.
fn insert_sorted(keys: &mut Vec<String>, k: String)
    requires
        strictly_sorted(old(keys)@),
    ensures
        strictly_sorted(final(keys)@),
        forall|x: Seq<char>|
            #[trigger] has_key(final(keys)@, x) <==> (has_key(old(keys)@, x) || x == k@),
{
    let ghost old_keys = keys@;
    let mut i: usize = 0;
    while i < keys.len() && lex_less(keys[i].as_str(), k.as_str())
        invariant
            i <= keys@.len(),
            keys@ == old_keys,
            forall|j: int| 0 <= j < i ==> lex_lt(keys@[j]@, k@),
        decreases keys@.len() - i,
    {
        i += 1;
    }
    if i < keys.len() && keys[i] == k {
        assert forall|x: Seq<char>| has_key(keys@, x) <==> (has_key(old_keys, x) || x == k@) by {
            if x == k@ {
                assert(keys@[i as int]@ == x);
            }
        }
        return;
    }
    let ghost kv = k@;
    proof {
        if i < old_keys.len() {
            lemma_lex_total(old_keys[i as int]@, kv);
        }
    }
    keys.insert(i, k);
    proof {
        let nk = keys@;
        assert(nk == old_keys.insert(i as int, nk[i as int]));
        assert forall|a: int, b: int| 0 <= a < b < nk.len() implies lex_lt(nk[a]@, nk[b]@) by {
            if b < i {
                assert(nk[a] == old_keys[a] && nk[b] == old_keys[b]);
            } else if b == i {
                assert(nk[a] == old_keys[a]);
            } else if a == i {
                assert(nk[b] == old_keys[b - 1]);
                if b - 1 > i {
                    lemma_lex_transitive(kv, old_keys[i as int]@, old_keys[b - 1]@);
                }
            } else if a < i {
                assert(nk[a] == old_keys[a] && nk[b] == old_keys[b - 1]);
                if a < b - 1 {
                } else {
                    lemma_lex_irreflexive(nk[a]@);
                }
            } else {
                assert(nk[a] == old_keys[a - 1] && nk[b] == old_keys[b - 1]);
            }
        }
        assert forall|x: Seq<char>| has_key(nk, x) implies (has_key(old_keys, x) || x == kv) by {
            let j = choose|j: int| #![trigger nk[j]] 0 <= j < nk.len() && nk[j]@ == x;
            if j < i {
                assert(old_keys[j] == nk[j]);
            } else if j > i {
                assert(old_keys[j - 1] == nk[j]);
            }
        }
        assert forall|x: Seq<char>| (has_key(old_keys, x) || x == kv) implies has_key(nk, x) by {
            if x == kv {
                assert(nk[i as int]@ == x);
            } else {
                let j = choose|j: int| #![trigger old_keys[j]] 0 <= j < old_keys.len() && old_keys[j]@ == x;
                if j < i {
                    assert(nk[j] == old_keys[j]);
                } else {
                    assert(nk[j + 1] == old_keys[j]);
                }
            }
        }
    }
}

pub(crate) fn find_local(files: &[LocalFile], key: &String) -> (res: Option<usize>)
    ensures
        match res {
            Some(i) => i < files.len() && local_for(files@, key@) == Some(files@[i as int]),
            None => local_for(files@, key@) is None,
        },
{
    let mut n = files.len();
    assert(files@.take(files.len() as int) =~= files@);
    while n > 0
        invariant
            n <= files.len(),
            local_for(files@, key@) == local_for(files@.take(n as int), key@),
        decreases n,
    {
        proof {
            assert(files@.take(n as int).drop_last() =~= files@.take(n - 1));
            assert(files@.take(n as int).last() == files@[n - 1]);
        }
        if files[n - 1].key == *key {
            return Some(n - 1);
        }
        n -= 1;
    }
    None
}

pub(crate) fn find_remote(files: &[RemoteFile], key: &String) -> (res: Option<usize>)
    ensures
        match res {
            Some(i) => i < files.len() && remote_for(files@, key@) == Some(files@[i as int]),
            None => remote_for(files@, key@) is None,
        },
{
    let mut n = files.len();
    assert(files@.take(files.len() as int) =~= files@);
    while n > 0
        invariant
            n <= files.len(),
            remote_for(files@, key@) == remote_for(files@.take(n as int), key@),
        decreases n,
    {
        proof {
            assert(files@.take(n as int).drop_last() =~= files@.take(n - 1));
            assert(files@.take(n as int).last() == files@[n - 1]);
        }
        if files[n - 1].key == *key {
            return Some(n - 1);
        }
        n -= 1;
    }
    None
}

fn decide_exec(
    l: Option<&LocalFile>,
    r: Option<&RemoteFile>,
    rec: Option<&crate::sync::state::FileSyncRecord>,
) -> (res: Option<ActionKind>)
    ensures
        res == decide(
            match l {
                Some(x) => Some(*x),
                None => None,
            },
            match r {
                Some(x) => Some(*x),
                None => None,
            },
            match rec {
                Some(x) => Some(x@),
                None => None,
            },
        ),
{
    match (l, r, rec) {
        (Some(l), Some(r), Some(rec)) => {
            let local_changed = !(l.content_hash == rec.content_hash);
            let remote_changed = !r.last_modified.same_instant_as(&rec.last_synced_modified);
            if local_changed && remote_changed {
                Some(ActionKind::Conflict)
            } else if local_changed {
                Some(ActionKind::UploadModified)
            } else if remote_changed {
                Some(ActionKind::DownloadModified)
            } else {
                None
            }
        },
        (Some(_), Some(_), None) => Some(ActionKind::Conflict),
        (Some(_), None, None) => Some(ActionKind::UploadNew),
        (None, Some(_), None) => Some(ActionKind::DownloadNew),
        (Some(l), None, Some(rec)) => {
            if !(l.content_hash == rec.content_hash) {
                Some(ActionKind::UploadModified)
            } else {
                Some(ActionKind::DeleteLocal)
            }
        },
        (None, Some(r), Some(rec)) => {
            if !r.last_modified.same_instant_as(&rec.last_synced_modified) {
                Some(ActionKind::DownloadModified)
            } else {
                Some(ActionKind::DeleteRemote)
            }
        },
        (None, None, _) => None,
    }
}

/// The keys of all listed files, each once, in increasing order.
fn listed_keys(local: &[LocalFile], remote: &[RemoteFile]) -> (res: Vec<String>)
    ensures
        strictly_sorted(res@),
        forall|x: Seq<char>| #[trigger] has_key(res@, x) <==> is_listed(local@, remote@, x),
{
    let mut keys: Vec<String> = Vec::new();
    let mut i: usize = 0;
    while i < local.len()
        invariant
            i <= local.len(),
            strictly_sorted(keys@),
            forall|x: Seq<char>| #[trigger] has_key(keys@, x) <==> exists|j: int|
                #![trigger local@[j]]
                0 <= j < i && local@[j].key@ == x,
        decreases local.len() - i,
    {
        let ghost before = keys@;
        insert_sorted(&mut keys, local[i].key.clone());
        proof {
            assert forall|x: Seq<char>| #[trigger] has_key(keys@, x) <==> exists|j: int|
                #![trigger local@[j]]
                0 <= j < i + 1 && local@[j].key@ == x by {
                if x == local@[i as int].key@ {
                    assert(local@[i as int].key@ == x);
                }
                if has_key(before, x) {
                }
            }
        }
        i += 1;
    }
    let mut r: usize = 0;
    while r < remote.len()
        invariant
            r <= remote.len(),
            i == local.len(),
            strictly_sorted(keys@),
            forall|x: Seq<char>| #[trigger] has_key(keys@, x) <==> ((exists|j: int|
                #![trigger local@[j]]
                0 <= j < local.len() && local@[j].key@ == x) || (exists|j: int|
                #![trigger remote@[j]]
                0 <= j < r && remote@[j].key@ == x)),
        decreases remote.len() - r,
    {
        let ghost before = keys@;
        insert_sorted(&mut keys, remote[r].key.clone());
        proof {
            assert forall|x: Seq<char>| #[trigger] has_key(keys@, x) <==> ((exists|j: int|
                #![trigger local@[j]]
                0 <= j < local.len() && local@[j].key@ == x) || (exists|j: int|
                #![trigger remote@[j]]
                0 <= j < r + 1 && remote@[j].key@ == x)) by {
                if x == remote@[r as int].key@ {
                    assert(remote@[r as int].key@ == x);
                }
                if has_key(before, x) {
                }
            }
        }
        r += 1;
    }
    keys
}

/// Plans a synchronisation: for every file listed locally or remotely, the
/// action `decide` gives for it from the local file, the remote file and
/// the record of the last synchronisation, in increasing key order.
pub fn compute(local: &[LocalFile], remote: &[RemoteFile], state: &SyncState) -> (res: Vec<SyncAction>)
    ensures
        is_plan(local@, remote@, state.files@, res@),
{
    let keys = listed_keys(local, remote);
    let mut actions: Vec<SyncAction> = Vec::new();
    let mut m: usize = 0;
    while m < keys.len()
        invariant
            m <= keys@.len(),
            strictly_sorted(keys@),
            forall|x: Seq<char>| #[trigger] has_key(keys@, x) <==> is_listed(local@, remote@, x),
            sorted_by_key(actions@),
            forall|a: int|
                #![trigger actions@[a]]
                0 <= a < actions@.len() ==> exists|p: int|
                    #![trigger keys@[p]]
                    0 <= p < m && key_of(actions@[a]) == keys@[p]@,
            forall|a: int|
                #![trigger actions@[a]]
                0 <= a < actions@.len() ==> is_listed(local@, remote@, key_of(actions@[a])) && planned(
                    local@,
                    remote@,
                    state.files@,
                    key_of(actions@[a]),
                ) == Some(kind_of(actions@[a])),
            forall|p: int|
                #![trigger keys@[p]]
                0 <= p < m && planned(local@, remote@, state.files@, keys@[p]@) is Some ==> exists|a: int|
                    #![trigger actions@[a]]
                    0 <= a < actions@.len() && key_of(actions@[a]) == keys@[p]@,
        decreases keys@.len() - m,
    {
        let key = &keys[m];
        let l = match find_local(local, key) {
            Some(i) => Some(&local[i]),
            None => None,
        };
        let r = match find_remote(remote, key) {
            Some(i) => Some(&remote[i]),
            None => None,
        };
        let rec = state.files.get(key.as_str());
        let kind = decide_exec(l, r, rec);
        proof {
            assert(has_key(keys@, keys@[m as int]@));
            assert(kind == planned(local@, remote@, state.files@, key@));
        }
        let ghost before = actions@;
        if let Some(k) = kind {
            actions.push(make_action(k, key.clone()));
            proof {
                let n = actions@.len() - 1;
                assert forall|a: int, b: int| 0 <= a < b < actions@.len() implies lex_lt(
                    key_of(actions@[a]),
                    key_of(actions@[b]),
                ) by {
                    if b == n {
                        assert(actions@[a] == before[a]);
                        let p = choose|p: int| #![trigger keys@[p]] 0 <= p < m && key_of(before[a]) == keys@[p]@;
                        assert(lex_lt(keys@[p]@, keys@[m as int]@));
                    } else {
                        assert(actions@[a] == before[a] && actions@[b] == before[b]);
                    }
                }
                assert forall|a: int|
                    #![trigger actions@[a]]
                    0 <= a < actions@.len() implies exists|p: int|
                        #![trigger keys@[p]]
                        0 <= p < m + 1 && key_of(actions@[a]) == keys@[p]@ by {
                    if a == n {
                        assert(key_of(actions@[a]) == keys@[m as int]@);
                    } else {
                        assert(actions@[a] == before[a]);
                    }
                }
                assert forall|p: int|
                    #![trigger keys@[p]]
                    0 <= p < m + 1 && planned(local@, remote@, state.files@, keys@[p]@) is Some implies exists|a: int|
                        #![trigger actions@[a]]
                        0 <= a < actions@.len() && key_of(actions@[a]) == keys@[p]@ by {
                    if p == m {
                        assert(key_of(actions@[n]) == keys@[p]@);
                    } else {
                        let a = choose|a: int| #![trigger before[a]] 0 <= a < before.len() && key_of(before[a]) == keys@[p]@;
                        assert(actions@[a] == before[a]);
                    }
                }
            }
        }
        m += 1;
    }
    proof {
        assert forall|k: Seq<char>|
            #![trigger planned(local@, remote@, state.files@, k)]
            is_listed(local@, remote@, k) && planned(local@, remote@, state.files@, k) is Some implies exists|i: int|
                #![trigger actions@[i]]
                0 <= i < actions@.len() && key_of(actions@[i]) == k by {
            assert(has_key(keys@, k));
            let p = choose|p: int| #![trigger keys@[p]] 0 <= p < keys@.len() && keys@[p]@ == k;
            assert(0 <= p < m);
        }
    }
    actions
}

/// A file is deleted on one side only when it is gone from the other
/// side and is, on this side, just as the last synchronisation left it.
pub proof fn law_deletes_only_unchanged(
    local: Seq<LocalFile>,
    remote: Seq<RemoteFile>,
    records: Map<Seq<char>, RecordView>,
    key: Seq<char>,
)
    ensures
        planned(local, remote, records, key) == Some(ActionKind::DeleteLocal) ==> {
            &&& remote_for(remote, key) is None
            &&& records.contains_key(key)
            &&& local_for(local, key) matches Some(l) && l.content_hash@ == records[key].content_hash
        },
        planned(local, remote, records, key) == Some(ActionKind::DeleteRemote) ==> {
            &&& local_for(local, key) is None
            &&& records.contains_key(key)
            &&& remote_for(remote, key) matches Some(r) && same_instant(
                r.last_modified,
                records[key].last_synced_modified,
            )
        },
{
}

/// A local file that changed since the last synchronisation (or was never
/// synchronised) is uploaded, or settled as a conflict: it is never
/// deleted nor overwritten by a download.
pub proof fn law_local_changes_kept(
    local: Seq<LocalFile>,
    remote: Seq<RemoteFile>,
    records: Map<Seq<char>, RecordView>,
    key: Seq<char>,
)
    requires
        local_for(local, key) matches Some(l) && (!records.contains_key(key) || l.content_hash@
            != records[key].content_hash),
    ensures
        planned(local, remote, records, key) == Some(ActionKind::UploadNew) || planned(
            local,
            remote,
            records,
            key,
        ) == Some(ActionKind::UploadModified) || planned(local, remote, records, key) == Some(
            ActionKind::Conflict,
        ),
{
}

/// A remote file that changed since the last synchronisation (or was never
/// synchronised) is downloaded, or settled as a conflict: it is never
/// deleted nor overwritten by an upload.
pub proof fn law_remote_changes_kept(
    local: Seq<LocalFile>,
    remote: Seq<RemoteFile>,
    records: Map<Seq<char>, RecordView>,
    key: Seq<char>,
)
    requires
        remote_for(remote, key) matches Some(r) && (!records.contains_key(key) || !same_instant(
            r.last_modified,
            records[key].last_synced_modified,
        )),
    ensures
        planned(local, remote, records, key) == Some(ActionKind::DownloadNew) || planned(
            local,
            remote,
            records,
            key,
        ) == Some(ActionKind::DownloadModified) || planned(local, remote, records, key) == Some(
            ActionKind::Conflict,
        ),
{
}

/// A file present on both sides and unchanged on both since the last
/// synchronisation needs nothing.
pub proof fn law_in_sync_needs_nothing(
    local: Seq<LocalFile>,
    remote: Seq<RemoteFile>,
    records: Map<Seq<char>, RecordView>,
    key: Seq<char>,
)
    requires
        records.contains_key(key),
        local_for(local, key) matches Some(l) && l.content_hash@ == records[key].content_hash,
        remote_for(remote, key) matches Some(r) && same_instant(r.last_modified, records[key].last_synced_modified),
    ensures
        planned(local, remote, records, key) is None,
{
}

/// Whether no two local files share a key.
pub open spec fn local_keys_unique(files: Seq<LocalFile>) -> bool {
    forall|i: int, j: int| 0 <= i < j < files.len() ==> files[i].key@ != files[j].key@
}

/// Whether no two remote files share a key.
pub open spec fn remote_keys_unique(files: Seq<RemoteFile>) -> bool {
    forall|i: int, j: int| 0 <= i < j < files.len() ==> files[i].key@ != files[j].key@
}

proof fn lemma_local_for_unique(files: Seq<LocalFile>, key: Seq<char>)
    requires
        local_keys_unique(files),
    ensures
        forall|i: int| #![trigger files[i]] 0 <= i < files.len() && files[i].key@ == key ==> local_for(files, key) == Some(files[i]),
        (forall|i: int| #![trigger files[i]] 0 <= i < files.len() ==> files[i].key@ != key) ==> local_for(files, key) is None,
    decreases files.len(),
{
    if files.len() > 0 {
        let t = files.drop_last();
        assert forall|i: int, j: int| 0 <= i < j < t.len() implies t[i].key@ != t[j].key@ by {
            assert(t[i] == files[i] && t[j] == files[j]);
        }
        lemma_local_for_unique(t, key);
        assert forall|i: int| #![trigger files[i]] 0 <= i < files.len() && files[i].key@ == key implies local_for(files, key) == Some(files[i]) by {
            if i < files.len() - 1 {
                assert(t[i] == files[i]);
            }
        }
        if forall|i: int| #![trigger files[i]] 0 <= i < files.len() ==> files[i].key@ != key {
            assert forall|i: int| #![trigger t[i]] 0 <= i < t.len() implies t[i].key@ != key by {
                assert(t[i] == files[i]);
            }
            assert(files[files.len() - 1].key@ != key);
        }
    }
}

proof fn lemma_remote_for_unique(files: Seq<RemoteFile>, key: Seq<char>)
    requires
        remote_keys_unique(files),
    ensures
        forall|i: int| #![trigger files[i]] 0 <= i < files.len() && files[i].key@ == key ==> remote_for(files, key) == Some(files[i]),
        (forall|i: int| #![trigger files[i]] 0 <= i < files.len() ==> files[i].key@ != key) ==> remote_for(files, key) is None,
    decreases files.len(),
{
    if files.len() > 0 {
        let t = files.drop_last();
        assert forall|i: int, j: int| 0 <= i < j < t.len() implies t[i].key@ != t[j].key@ by {
            assert(t[i] == files[i] && t[j] == files[j]);
        }
        lemma_remote_for_unique(t, key);
        assert forall|i: int| #![trigger files[i]] 0 <= i < files.len() && files[i].key@ == key implies remote_for(files, key) == Some(files[i]) by {
            if i < files.len() - 1 {
                assert(t[i] == files[i]);
            }
        }
        if forall|i: int| #![trigger files[i]] 0 <= i < files.len() ==> files[i].key@ != key {
            assert forall|i: int| #![trigger t[i]] 0 <= i < t.len() implies t[i].key@ != key by {
                assert(t[i] == files[i]);
            }
            assert(files[files.len() - 1].key@ != key);
        }
    }
}

/// With unique keys, the local file of a key, and whether one is listed,
/// do not depend on the order of the listing.
proof fn lemma_local_permuted(a: Seq<LocalFile>, b: Seq<LocalFile>, key: Seq<char>)
    requires
        local_keys_unique(a),
        local_keys_unique(b),
        a.to_multiset() == b.to_multiset(),
    ensures
        local_for(a, key) == local_for(b, key),
        (exists|i: int| #![trigger a[i]] 0 <= i < a.len() && a[i].key@ == key)
            == (exists|i: int| #![trigger b[i]] 0 <= i < b.len() && b[i].key@ == key),
{
    a.to_multiset_ensures();
    b.to_multiset_ensures();
    lemma_local_for_unique(a, key);
    lemma_local_for_unique(b, key);
    if exists|i: int| #![trigger a[i]] 0 <= i < a.len() && a[i].key@ == key {
        let i = choose|i: int| #![trigger a[i]] 0 <= i < a.len() && a[i].key@ == key;
        assert(a.contains(a[i]));
        assert(a.to_multiset().count(a[i]) > 0);
        assert(b.to_multiset().count(a[i]) > 0);
        assert(b.contains(a[i]));
        let j = choose|j: int| 0 <= j < b.len() && b[j] == a[i];
        assert(b[j].key@ == key);
    } else if exists|j: int| #![trigger b[j]] 0 <= j < b.len() && b[j].key@ == key {
        let j = choose|j: int| #![trigger b[j]] 0 <= j < b.len() && b[j].key@ == key;
        assert(b.contains(b[j]));
        assert(b.to_multiset().count(b[j]) > 0);
        assert(a.to_multiset().count(b[j]) > 0);
        assert(a.contains(b[j]));
        let i = choose|i: int| 0 <= i < a.len() && a[i] == b[j];
        assert(a[i].key@ == key);
    }
}

/// With unique keys, the remote file of a key, and whether one is listed,
/// do not depend on the order of the listing.
proof fn lemma_remote_permuted(a: Seq<RemoteFile>, b: Seq<RemoteFile>, key: Seq<char>)
    requires
        remote_keys_unique(a),
        remote_keys_unique(b),
        a.to_multiset() == b.to_multiset(),
    ensures
        remote_for(a, key) == remote_for(b, key),
        (exists|i: int| #![trigger a[i]] 0 <= i < a.len() && a[i].key@ == key)
            == (exists|i: int| #![trigger b[i]] 0 <= i < b.len() && b[i].key@ == key),
{
    a.to_multiset_ensures();
    b.to_multiset_ensures();
    lemma_remote_for_unique(a, key);
    lemma_remote_for_unique(b, key);
    if exists|i: int| #![trigger a[i]] 0 <= i < a.len() && a[i].key@ == key {
        let i = choose|i: int| #![trigger a[i]] 0 <= i < a.len() && a[i].key@ == key;
        assert(a.contains(a[i]));
        assert(a.to_multiset().count(a[i]) > 0);
        assert(b.to_multiset().count(a[i]) > 0);
        assert(b.contains(a[i]));
        let j = choose|j: int| 0 <= j < b.len() && b[j] == a[i];
        assert(b[j].key@ == key);
    } else if exists|j: int| #![trigger b[j]] 0 <= j < b.len() && b[j].key@ == key {
        let j = choose|j: int| #![trigger b[j]] 0 <= j < b.len() && b[j].key@ == key;
        assert(b.contains(b[j]));
        assert(b.to_multiset().count(b[j]) > 0);
        assert(a.to_multiset().count(b[j]) > 0);
        assert(a.contains(b[j]));
        let i = choose|i: int| 0 <= i < a.len() && a[i] == b[j];
        assert(a[i].key@ == key);
    }
}

/// Whether some action is about the key `k`.
pub open spec fn has_action_key(a: Seq<SyncAction>, k: Seq<char>) -> bool {
    exists|j: int| #![trigger a[j]] 0 <= j < a.len() && key_of(a[j]) == k
}

/// Whether every action of `a1` has its key among the actions of `a2`.
pub open spec fn keys_covered(a1: Seq<SyncAction>, a2: Seq<SyncAction>) -> bool {
    forall|i: int| #![trigger a1[i]] 0 <= i < a1.len() ==> has_action_key(a2, key_of(a1[i]))
}

/// The first actions of two sorted lists with the same keys share a key.
proof fn lemma_sorted_same_first(a1: Seq<SyncAction>, a2: Seq<SyncAction>)
    requires
        sorted_by_key(a1),
        sorted_by_key(a2),
        keys_covered(a1, a2),
        keys_covered(a2, a1),
        a1.len() > 0,
        a2.len() > 0,
    ensures
        key_of(a1[0]) == key_of(a2[0]),
{
    let k1 = key_of(a1[0]);
    let k2 = key_of(a2[0]);
    assert(has_action_key(a2, k1));
    assert(has_action_key(a1, k2));
    let j = choose|j: int| #![trigger a2[j]] 0 <= j < a2.len() && key_of(a2[j]) == k1;
    let i = choose|i: int| #![trigger a1[i]] 0 <= i < a1.len() && key_of(a1[i]) == k2;
    if j > 0 {
        assert(lex_lt(k2, k1));
        if i == 0 {
            lemma_lex_irreflexive(k1);
        } else {
            assert(lex_lt(k1, k2));
            lemma_lex_asymmetric(k1, k2);
        }
    }
}

/// Dropping a shared first key keeps the rest sorted and with the same
/// keys.
proof fn lemma_sorted_rest(a1: Seq<SyncAction>, a2: Seq<SyncAction>)
    requires
        sorted_by_key(a1),
        sorted_by_key(a2),
        keys_covered(a1, a2),
        a1.len() > 0,
        a2.len() > 0,
        key_of(a1[0]) == key_of(a2[0]),
    ensures
        sorted_by_key(a1.drop_first()),
        keys_covered(a1.drop_first(), a2.drop_first()),
{
    let k = key_of(a1[0]);
    let t1 = a1.drop_first();
    let t2 = a2.drop_first();
    assert forall|x: int, y: int| 0 <= x < y < t1.len() implies lex_lt(key_of(t1[x]), key_of(t1[y])) by {
        assert(t1[x] == a1[x + 1] && t1[y] == a1[y + 1]);
    }
    assert forall|x: int| #![trigger t1[x]] 0 <= x < t1.len() implies has_action_key(t2, key_of(t1[x])) by {
        assert(t1[x] == a1[x + 1]);
        assert(lex_lt(k, key_of(a1[x + 1])));
        assert(has_action_key(a2, key_of(a1[x + 1])));
        let y = choose|y: int| #![trigger a2[y]] 0 <= y < a2.len() && key_of(a2[y]) == key_of(a1[x + 1]);
        if y == 0 {
            lemma_lex_irreflexive(k);
        }
        assert(t2[y - 1] == a2[y]);
    }
}

/// Two action lists sorted by key that have the same keys have them at
/// the same places.
proof fn lemma_sorted_same_keys(a1: Seq<SyncAction>, a2: Seq<SyncAction>)
    requires
        sorted_by_key(a1),
        sorted_by_key(a2),
        keys_covered(a1, a2),
        keys_covered(a2, a1),
    ensures
        a1.len() == a2.len(),
        forall|i: int| 0 <= i < a1.len() ==> key_of(#[trigger] a1[i]) == key_of(a2[i]),
    decreases a1.len(),
{
    if a1.len() == 0 || a2.len() == 0 {
        if a2.len() > 0 {
            assert(has_action_key(a1, key_of(a2[0])));
        }
        if a1.len() > 0 {
            assert(has_action_key(a2, key_of(a1[0])));
        }
        return;
    }
    lemma_sorted_same_first(a1, a2);
    lemma_sorted_rest(a1, a2);
    lemma_sorted_rest(a2, a1);
    let t1 = a1.drop_first();
    let t2 = a2.drop_first();
    lemma_sorted_same_keys(t1, t2);
    assert forall|x: int| 0 <= x < a1.len() implies key_of(#[trigger] a1[x]) == key_of(a2[x]) by {
        if x > 0 {
            assert(t1[x - 1] == a1[x] && t2[x - 1] == a2[x]);
        }
    }
}

/// The plan does not depend on the order in which the files are listed:
/// when no key is listed twice on one side, listings that hold the same
/// files in another order give a plan with the same actions, key for key
/// and kind for kind, in the same order.
pub proof fn law_plan_ignores_listing_order(
    local1: Seq<LocalFile>,
    remote1: Seq<RemoteFile>,
    local2: Seq<LocalFile>,
    remote2: Seq<RemoteFile>,
    records: Map<Seq<char>, RecordView>,
    actions1: Seq<SyncAction>,
    actions2: Seq<SyncAction>,
)
    requires
        local_keys_unique(local1),
        local_keys_unique(local2),
        remote_keys_unique(remote1),
        remote_keys_unique(remote2),
        local1.to_multiset() == local2.to_multiset(),
        remote1.to_multiset() == remote2.to_multiset(),
        is_plan(local1, remote1, records, actions1),
        is_plan(local2, remote2, records, actions2),
    ensures
        actions1.len() == actions2.len(),
        forall|i: int|
            0 <= i < actions1.len() ==> key_of(#[trigger] actions1[i]) == key_of(actions2[i]) && kind_of(
                actions1[i],
            ) == kind_of(actions2[i]),
{
    assert forall|k: Seq<char>| #[trigger] planned(local1, remote1, records, k) == planned(local2, remote2, records, k)
        && is_listed(local1, remote1, k) == is_listed(local2, remote2, k) by {
        lemma_local_permuted(local1, local2, k);
        lemma_remote_permuted(remote1, remote2, k);
    }
    assert forall|i: int| #![trigger actions1[i]] 0 <= i < actions1.len() implies has_action_key(
        actions2,
        key_of(actions1[i]),
    ) by {
        assert(is_listed(local1, remote1, key_of(actions1[i])));
        let k = key_of(actions1[i]);
        assert(planned(local1, remote1, records, k) == planned(local2, remote2, records, k));
        assert(planned(local2, remote2, records, k) is Some);
    }
    assert(keys_covered(actions1, actions2));
    assert forall|j: int| #![trigger actions2[j]] 0 <= j < actions2.len() implies has_action_key(
        actions1,
        key_of(actions2[j]),
    ) by {
        assert(is_listed(local2, remote2, key_of(actions2[j])));
        let k = key_of(actions2[j]);
        assert(planned(local1, remote1, records, k) == planned(local2, remote2, records, k));
        assert(planned(local1, remote1, records, k) is Some);
    }
    assert(keys_covered(actions2, actions1));
    lemma_sorted_same_keys(actions1, actions2);
    assert forall|i: int| 0 <= i < actions1.len() implies key_of(#[trigger] actions1[i]) == key_of(actions2[i]) && kind_of(
        actions1[i],
    ) == kind_of(actions2[i]) by {
        let k = key_of(actions1[i]);
        assert(planned(local1, remote1, records, k) == planned(local2, remote2, records, k));
        assert(actions2[i] == actions2[i]);
    }
}

} // verus!
