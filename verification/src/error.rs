use vstd::prelude::*;

verus! {

/// What a library operation can fail with. Storage faults carry the engine's
/// error verbatim and are fatal to the invocation; everything else is a
/// user-facing message. Logical no-ops (an ordinal out of range, nothing
/// added) are not errors: they are reported through the affected-row counts.
#[derive(Debug)]
pub enum StoreError {
    SQLite(rusqlite::Error),
    Other(String),
}

impl StoreError {
    /// The user-facing text of this error, for the caller to print.
    pub fn message(&self) -> (r: String)
        ensures
            self matches StoreError::Other(m) ==> r@ == m@,
    {
        match self {
            StoreError::SQLite(e) => sqlite_error_text(e),
            StoreError::Other(m) => m.clone(),
        }
    }
}

/// Relies on the `Display` impl of `rusqlite::Error` for the engine's own
/// wording of a storage fault; nothing is assumed about the text.
#[verifier::external_body]
fn sqlite_error_text(e: &rusqlite::Error) -> String {
    format!("{}", e)
}

} // verus!
