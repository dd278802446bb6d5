//! The command surface: one variant per operation the tool offers. The
//! command-line front end parses into this and dispatches on it.

use vstd::prelude::*;

verus! {

/// One invocation's worth of work, as the caller requests it.
pub enum Commands {
    /// Create a new password for the given label.
    Create {
        /// The label for this password.
        label: String,
        /// The password to save.
        password: String,
        /// Overwrite the password if it already exists.
        force: bool,
    },
    /// Retrieve the password for a given label.
    Get {
        /// The label to retrieve.
        label: String,
        /// Copy the password to the clipboard instead of printing it.
        copy: bool,
    },
    /// List all saved password labels.
    List,
    /// Delete the password for a given label.
    Delete {
        /// The label to delete.
        label: String,
    },
    /// Search saved labels using a keyword.
    Search {
        /// The keyword to search for.
        query: String,
    },
}

} // verus!
