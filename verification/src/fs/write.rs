//! Decisions around writes, moves and directory creation.

use vstd::prelude::*;
use crate::fs::path::{file_name, file_name_spec, parent, parent_spec};

verus! {

/// Why a destination path cannot be written to.
pub enum PathError {
    NoFileName,
    NoParent,
}

/// The directory and file name of a destination path: its parent (to be
/// resolved inside the sandbox) and its last component.
pub fn destination_parts(path: &str) -> (r: Result<(String, String), PathError>)
    ensures
        match r {
            Ok((dir, name)) => file_name_spec(path@) == Some(name@) && parent_spec(path@) == Some(dir@),
            Err(PathError::NoFileName) => file_name_spec(path@) is None,
            Err(PathError::NoParent) => file_name_spec(path@) is Some && parent_spec(path@) is None,
        },
{
    let name = match file_name(path) {
        Some(n) => n,
        None => {
            return Err(PathError::NoFileName);
        },
    };
    let dir = match parent(path) {
        Some(d) => d,
        None => {
            return Err(PathError::NoParent);
        },
    };
    Ok((dir, name))
}

/// What a directory-creation request leads to.
pub enum DirectoryPlan {
    /// Create the directory and its missing parents.
    Create,
    /// Create nothing, and answer with this message.
    Report(String),
}

/// The directory is created only when the path does not exist yet and its
/// nearest existing ancestor lies in the sandbox; otherwise the request is
/// answered with "Path '<path>' already exists".
pub fn plan_create_directory(path: &str, exists: bool, inside_sandbox: bool) -> (r: DirectoryPlan)
    ensures
        !exists && inside_sandbox ==> r is Create,
        !(!exists && inside_sandbox) ==> (r matches DirectoryPlan::Report(m) && m@ == "Path '"@
            + path@ + "' already exists"@),
{
    if !exists && inside_sandbox {
        DirectoryPlan::Create
    } else {
        let mut m = "Path '".to_owned();
        m.append(path);
        m.append("' already exists");
        DirectoryPlan::Report(m)
    }
}

} // verus!
