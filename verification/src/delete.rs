//! Deleting a session.

use vstd::prelude::*;

use crate::text;

verus! {

/// What is to be done.
#[derive(Debug, PartialEq)]
pub enum Delete {
    /// There is no session: tell so. This is no failure.
    Missing(String),
    /// Remove the file, and tell `done`, or fail with `failed`.
    Remove { done: String, failed: String },
}

/// Decides how the session at `path` is deleted.
pub fn run(exists: bool, path: &str) -> (r: Delete)
    ensures
        match r {
            Delete::Missing(t) => !exists && t@ == "no session file at "@ + path@,
            Delete::Remove { done, failed } => exists && done@ == "deleted "@ + path@ && failed@
                == "failed to delete "@ + path@,
        },
{
    if !exists {
        return Delete::Missing(text::join2("no session file at ", path));
    }
    Delete::Remove {
        done: text::join2("deleted ", path),
        failed: text::join2("failed to delete ", path),
    }
}

/// A session that is there is removed, and one that is not is only told of; what is
/// told names the file.
pub proof fn law_only_what_is_there_is_removed(exists: bool, path: &str, r: Delete)
    requires
        call_ensures(run, (exists, path), r),
    ensures
        r is Remove <==> exists,
        r matches Delete::Missing(t) ==> t@ == "no session file at "@ + path@,
        r matches Delete::Remove { done, failed } ==> text::ends(done@, path@) && text::ends(
            failed@,
            path@,
        ) && text::begins(done@, "deleted "@) && text::begins(failed@, "failed to delete "@),
{
}

} // verus!
