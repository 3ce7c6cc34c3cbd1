use vstd::prelude::*;

verus! {

/// Errors reported by the library.
#[derive(Debug, Clone, PartialEq, Eq)]
pub enum CoreError {
    Io(String),
    InvalidSlug(String),
    NotFound(String),
    AlreadyExists(String),
    PathTraversal(String),
    Parse(String),
    Sync(String),
    NotAuthenticated,
    Network(String),
}

/// The message an error is shown with.
pub open spec fn error_text(e: CoreError) -> Seq<char> {
    match e {
        CoreError::Io(m) => "IO error: "@ + m@,
        CoreError::InvalidSlug(m) => "Invalid slug: "@ + m@,
        CoreError::NotFound(m) => "Not found: "@ + m@,
        CoreError::AlreadyExists(m) => "Already exists: "@ + m@,
        CoreError::PathTraversal(m) => "Invalid path: "@ + m@,
        CoreError::Parse(m) => "Parse error: "@ + m@,
        CoreError::Sync(m) => "Sync error: "@ + m@,
        CoreError::NotAuthenticated => "Not authenticated"@,
        CoreError::Network(m) => "Network error: "@ + m@,
    }
}

fn prefixed(prefix: &str, m: &String) -> (res: String)
    ensures
        res@ == prefix@ + m@,
{
    let mut out = String::from_str(prefix);
    out.append(m.as_str());
    out
}

impl CoreError {
    /// The message this error is shown with.
    pub fn describe(&self) -> (res: String)
        ensures
            res@ == error_text(*self),
    {
        match self {
            CoreError::Io(m) => prefixed("IO error: ", m),
            CoreError::InvalidSlug(m) => prefixed("Invalid slug: ", m),
            CoreError::NotFound(m) => prefixed("Not found: ", m),
            CoreError::AlreadyExists(m) => prefixed("Already exists: ", m),
            CoreError::PathTraversal(m) => prefixed("Invalid path: ", m),
            CoreError::Parse(m) => prefixed("Parse error: ", m),
            CoreError::Sync(m) => prefixed("Sync error: ", m),
            CoreError::NotAuthenticated => String::from_str("Not authenticated"),
            CoreError::Network(m) => prefixed("Network error: ", m),
        }
    }
}

} // verus!
