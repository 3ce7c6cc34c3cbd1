//! Core logic of a small note-taking application: validated names, text
//! search helpers, note titles and wikilinks, note search, project and
//! task bookkeeping, the timeline journal, sign-in for synchronisation
//! and the file synchronisation planner.
pub mod auth;
pub mod context;
pub mod error;
pub mod lines;
pub mod listing;
pub mod moment;
pub mod note;
pub mod note_search;
pub mod order;
pub mod paths;
pub mod project;
pub mod sync;
pub mod text;
pub mod timeline;
pub mod title;
pub mod validated;
pub mod wikilink;
