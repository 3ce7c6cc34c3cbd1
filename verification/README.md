# magical_merchant_core

The core of a small note-taking application, written in Verus. The
functions in `src/` carry contracts that Verus proves, except for a few
small trusted wrappers (marked `#[verifier::external_body]`) around calls
into std and the outside crates: chrono (rendering and reading times),
sha2 (hashing), serde_json (checking JSON), jsonwebtoken (reading a
token's expiry), url and urlencoding (reading and encoding addresses), and
std's path splitting, string pushing and Unicode lowercasing. Their
contracts are believed, not proved; each one's doc comment says what it
claims of the call it makes.

- `src/` — the verified library: validated names (`validated`), text and
  line handling (`text`, `lines`, `order`), note titles, wikilinks, backlinks,
  mentions and search (`title`, `wikilink`, `note`, `note_search`), the
  timeline journal (`timeline`), projects and tasks (`project`), file
  listings and paths (`listing`, `paths`), times (`moment`), sign-in for
  synchronisation (`auth`) and the synchronisation planner (`sync`: the plan,
  its steps, the recorded state, conflicts, scans and error reports).
- `tests/` — tests run against the compiled library.
- `app/` — the file-system, clock and network side: it reads what the
  library's decisions need, calls the library, and writes what it decided
  (frontmatter as YAML, the synchronisation state as JSON, the transfers
  of a sync run, whose outcomes the library then tallies and records).

Operations that touch files are split in two: the library decides (paths,
errors, new file contents, entries read back), and `app/` performs the I/O.
