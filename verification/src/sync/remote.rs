//! Reading the remote store's file listing.
use vstd::prelude::*;

use crate::error::CoreError;
use crate::moment::Moment;
use crate::sync::diff::RemoteFile;

verus! {

/// One file as the remote store lists it: its key, its modification time
/// as text (RFC 3339) and its size in bytes.
pub struct ListEntry {
    pub key: String,
    pub last_modified: String,
    pub size: u64,
}

/// What chrono reads from `s` as a UTC time: seconds and nanoseconds since
/// the epoch, or the message of the parse error.
pub uninterp spec fn parsed_utc(s: Seq<char>) -> Result<(i64, u32), Seq<char>>;

/// Reads a UTC time (chrono `str::parse` into `DateTime<Utc>`, then its
/// timestamp and nanoseconds; an error gives its message). The contract
/// names the result.
#[verifier::external_body]
fn parse_utc(s: &str) -> (res: Result<Moment, String>)
    ensures
        match res {
            Ok(m) => m.offset_secs == 0 && parsed_utc(s@) == Ok::<(i64, u32), Seq<char>>((m.secs, m.nanos)),
            Err(e) => parsed_utc(s@) == Err::<(i64, u32), Seq<char>>(e@),
        },
{
    match s.parse::<chrono::DateTime<chrono::Utc>>() {
        Ok(t) => Ok(Moment { secs: t.timestamp(), nanos: t.timestamp_subsec_nanos(), offset_secs: 0 }),
        Err(e) => Err(e.to_string()),
    }
}

/// Whether the first `n` entries read as times.
pub open spec fn entries_parse(entries: Seq<ListEntry>, n: int) -> bool {
    forall|i: int| 0 <= i < n ==> (#[trigger] parsed_utc(entries[i].last_modified@)) is Ok
}

/// The remote files of a listing, in order; the first entry whose time
/// does not read fails the listing with the parse error's message.
pub fn remote_files(entries: Vec<ListEntry>) -> (res: Result<Vec<RemoteFile>, CoreError>)
    ensures
        match res {
            Ok(files) => entries_parse(entries@, entries@.len() as int) && files@.len() == entries@.len()
                && forall|i: int|
                #![trigger files@[i]]
                0 <= i < files@.len() ==> {
                    &&& files@[i].key == entries@[i].key
                    &&& files@[i].size == entries@[i].size
                    &&& files@[i].last_modified.offset_secs == 0
                    &&& parsed_utc(entries@[i].last_modified@) == Ok::<(i64, u32), Seq<char>>(
                        (files@[i].last_modified.secs, files@[i].last_modified.nanos),
                    )
                },
            Err(e) => exists|i: int|
                #![trigger entries@[i]]
                0 <= i < entries@.len() && entries_parse(entries@, i) && (parsed_utc(entries@[i].last_modified@) matches Err(m)
                    && e == CoreError::Sync(e->Sync_0) && e->Sync_0@ == m),
        },
{
    let mut out: Vec<RemoteFile> = Vec::new();
    let mut i: usize = 0;
    while i < entries.len()
        invariant
            i <= entries.len(),
            out@.len() == i,
            entries_parse(entries@, i as int),
            forall|j: int|
                #![trigger out@[j]]
                0 <= j < i ==> {
                    &&& out@[j].key == entries@[j].key
                    &&& out@[j].size == entries@[j].size
                    &&& out@[j].last_modified.offset_secs == 0
                    &&& parsed_utc(entries@[j].last_modified@) == Ok::<(i64, u32), Seq<char>>(
                        (out@[j].last_modified.secs, out@[j].last_modified.nanos),
                    )
                },
        decreases entries.len() - i,
    {
        let entry = &entries[i];
        match parse_utc(entry.last_modified.as_str()) {
            Ok(m) => {
                out.push(RemoteFile { key: entry.key.clone(), last_modified: m, size: entry.size });
            },
            Err(msg) => {
                assert(parsed_utc(entries@[i as int].last_modified@) == Err::<(i64, u32), Seq<char>>(msg@));
                return Err(CoreError::Sync(msg));
            },
        }
        i += 1;
    }
    Ok(out)
}

} // verus!
