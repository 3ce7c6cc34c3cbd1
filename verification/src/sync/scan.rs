//! What a scan of the local data directory keeps, and the content hash
//! that tells a changed file from an unchanged one.
use vstd::prelude::*;

use sha2::{Digest, Sha256};

use crate::moment::Moment;
use crate::sync::diff::LocalFile;
use crate::text::{occurs_at, occurs_at_exec, push_char};

verus! {

/// The SHA-256 digest of `content`, as computed by the sha2 crate.
pub uninterp spec fn sha256_of(content: Seq<u8>) -> Seq<u8>;

/// SHA-256 of the bytes (sha2 `Sha256::digest`). The contract names the
/// digest and states its length, 32 bytes, which the digest's type fixes.
#[verifier::external_body]
fn sha256_digest(content: &[u8]) -> (res: Vec<u8>)
    ensures
        res@ == sha256_of(content@),
        res@.len() == 32,
{
    Sha256::digest(content).to_vec()
}

/// The lowercase hexadecimal digit of `n` (below 16).
pub open spec fn hex_digit(n: int) -> char {
    if n < 10 {
        (48 + n) as char
    } else {
        (87 + n) as char
    }
}

/// Two lowercase hexadecimal digits per byte, high nibble first.
pub open spec fn hex_lower(bytes: Seq<u8>) -> Seq<char>
    decreases bytes.len(),
{
    if bytes.len() == 0 {
        Seq::<char>::empty()
    } else {
        hex_lower(bytes.drop_last()).push(hex_digit(bytes.last() as int / 16)).push(
            hex_digit(bytes.last() as int % 16),
        )
    }
}

fn hex_char(n: u8) -> (c: char)
    requires
        n < 16,
    ensures
        c == hex_digit(n as int),
{
    if n < 10 {
        (48u8 + n) as char
    } else {
        (87u8 + n) as char
    }
}

/// The content hash of a file: its SHA-256 digest in lowercase hex.
pub fn compute_hash(content: &[u8]) -> (res: String)
    ensures
        res@ == hex_lower(sha256_of(content@)),
        res@.len() == 64,
{
    let digest = sha256_digest(content);
    let mut out = String::new();
    let mut i: usize = 0;
    while i < digest.len()
        invariant
            i <= digest.len(),
            out@ == hex_lower(digest@.take(i as int)),
            out@.len() == 2 * i,
        decreases digest.len() - i,
    {
        let b = digest[i];
        push_char(&mut out, hex_char(b / 16));
        push_char(&mut out, hex_char(b % 16));
        assert(digest@.take(i + 1).drop_last() == digest@.take(i as int));
        i += 1;
    }
    assert(digest@.take(digest.len() as int) == digest@);
    out
}

/// File names a scan leaves out: conflict copies and the state file.
pub open spec fn excluded_name(name: Seq<char>) -> bool {
    (exists|j: int| 0 <= j && j + 15 <= name.len() && #[trigger] name.subrange(j, j + 15) == ".sync-conflict-"@)
        || name == ".sync-state.json"@
}

/// Whether a scan leaves out the file with this name: a conflict copy
/// (its name holds `.sync-conflict-`) or the synchronisation state file.
pub fn is_excluded(file_name: &str) -> (res: bool)
    ensures
        res == excluded_name(file_name@),
{
    let name = crate::text::chars_of(file_name);
    let pat = crate::text::chars_of(".sync-conflict-");
    let state = crate::text::chars_of(".sync-state.json");
    proof {
        reveal_strlit(".sync-conflict-");
        reveal_strlit(".sync-state.json");
    }
    let mut j: usize = 0;
    if name.len() >= 15 {
        while j <= name.len() - 15
            invariant
                name@ == file_name@,
                pat@ == ".sync-conflict-"@,
                pat@.len() == 15,
                name.len() >= 15,
                j <= name.len() - 14,
                forall|m: int| 0 <= m < j ==> !occurs_at(name@, pat@, m),
            decreases name.len() - 15 - j + 1,
        {
            if occurs_at_exec(&name, &pat, j) {
                return true;
            }
            j += 1;
        }
    }
    proof {
        assert forall|m: int| 0 <= m && m + 15 <= name@.len() implies !(#[trigger] name@.subrange(m, m + 15) == ".sync-conflict-"@) by {
            assert(!occurs_at(name@, pat@, m));
        }
    }
    crate::text::chars_equal(&name, &state)
}

/// A file handed to a scan: its key (its path under the data directory,
/// `/`-separated), its file name, when it was last modified and its bytes.
pub struct ScannedFile {
    pub key: String,
    pub file_name: String,
    pub modified: Moment,
    pub content: Vec<u8>,
}

/// What the scan keeps of one file: none when it is left out.
pub open spec fn kept(f: ScannedFile) -> Option<(Seq<char>, Moment, Seq<char>)> {
    if excluded_name(f.file_name@) {
        None
    } else {
        Some((f.key@, f.modified, hex_lower(sha256_of(f.content@))))
    }
}

/// What a scan keeps of the first `n` files, in order.
pub open spec fn kept_upto(files: Seq<ScannedFile>, n: int) -> Seq<(Seq<char>, Moment, Seq<char>)>
    decreases n,
{
    if n <= 0 {
        Seq::empty()
    } else {
        match kept(files[n - 1]) {
            Some(t) => kept_upto(files, n - 1).push(t),
            None => kept_upto(files, n - 1),
        }
    }
}

/// The key, modification time and hash of each local file, in order.
pub open spec fn local_views(files: Seq<LocalFile>) -> Seq<(Seq<char>, Moment, Seq<char>)> {
    files.map_values(|f: LocalFile| (f.key@, f.last_modified, f.content_hash@))
}

fn copy_string(s: &String) -> (res: String)
    ensures
        res@ == s@,
{
    String::from_str(s.as_str())
}

/// The local files of a scan: every file but the excluded ones, in the
/// order given, each with the hash of its content.
pub fn local_files(files: &[ScannedFile]) -> (res: Vec<LocalFile>)
    ensures
        local_views(res@) == kept_upto(files@, files.len() as int),
{
    let mut out: Vec<LocalFile> = Vec::new();
    let mut i: usize = 0;
    assert(local_views(out@) =~= kept_upto(files@, 0));
    while i < files.len()
        invariant
            i <= files.len(),
            local_views(out@) == kept_upto(files@, i as int),
        decreases files.len() - i,
    {
        let ghost before = out@;
        let f = &files[i];
        if !is_excluded(f.file_name.as_str()) {
            out.push(
                LocalFile {
                    key: copy_string(&f.key),
                    last_modified: f.modified,
                    content_hash: compute_hash(f.content.as_slice()),
                },
            );
            assert(local_views(out@) =~= local_views(before).push(kept(files@[i as int])->0));
        }
        i += 1;
    }
    out
}

} // verus!
