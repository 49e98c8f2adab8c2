//! Error kinds surfaced by the edit commands and by session bootstrap.

use vstd::prelude::*;

verus! {

/// A command-level failure. Commands that fail leave the tree store,
/// the parent map and the history untouched.
#[derive(Clone, Copy, Debug, PartialEq, Eq, Structural)]
pub enum EditError {
    /// The addressed node id does not resolve in the tree store.
    TargetNotFound,
    /// The requested node type name is not registered in the schema.
    UnknownType,
    /// The requested mark name is not registered in the schema.
    UnknownMark,
    /// The document root cannot be deleted.
    CannotDeleteRoot,
    /// Schema-validated construction failed (for instance, an explicit
    /// id that is already taken, or an exhausted id counter).
    SchemaValidationFailed,
}

impl EditError {
    /// A stable, human-readable message for each error kind.
    pub fn message(&self) -> (r: String)
        ensures
            r@.len() > 0,
    {
        let m = match self {
            EditError::TargetNotFound => "target node does not exist",
            EditError::UnknownType => "node type does not exist",
            EditError::UnknownMark => "mark type does not exist",
            EditError::CannotDeleteRoot => "the project root cannot be deleted",
            EditError::SchemaValidationFailed => "schema validation failed",
        };
        proof {
            reveal_strlit("target node does not exist");
            reveal_strlit("node type does not exist");
            reveal_strlit("mark type does not exist");
            reveal_strlit("the project root cannot be deleted");
            reveal_strlit("schema validation failed");
        }
        String::from_str(m)
    }
}

/// Whether an edit result failed with precisely the given error kind.
pub open spec fn failed_with(r: Result<(), EditError>, e: EditError) -> bool {
    r matches Err(a) && a == e
}

/// A fatal failure of session bootstrap: no session is returned in an
/// indeterminate sync state.
#[derive(Clone, Copy, Debug, PartialEq, Eq, Structural)]
pub enum SyncError {
    /// The bounded wait for the initial sync event elapsed with no event.
    SyncTimeout,
    /// Pushing the local seed state to the remote failed.
    SyncPushFailed,
}

impl SyncError {
    /// A stable, human-readable message for each error kind.
    pub fn message(&self) -> (r: String)
        ensures
            r@.len() > 0,
    {
        let m = match self {
            SyncError::SyncTimeout => "server did not answer within the sync timeout",
            SyncError::SyncPushFailed => "failed to push local state to the server",
        };
        proof {
            reveal_strlit("server did not answer within the sync timeout");
            reveal_strlit("failed to push local state to the server");
        }
        String::from_str(m)
    }
}

} // verus!
