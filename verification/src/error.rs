//! What can go wrong around the editor.

use vstd::prelude::*;
use vstd::string::StringExecFns;

verus! {

/// The two ways a file operation fails.
#[derive(Clone, Copy, Debug, PartialEq, Eq)]
pub enum EditorError {
    /// The file could be neither read nor created: the editor does not start.
    FatalStartup,
    /// The buffer could not be written out: the editor goes on, and says so.
    RecoverableSave,
}

impl EditorError {
    /// Whether the editor must stop on this error.
    pub open spec fn fatal(self) -> bool {
        self is FatalStartup
    }

    /// What the user is told.
    pub open spec fn text(self) -> Seq<char> {
        match self {
            EditorError::FatalStartup => "Error Reading File. Please verify it exists."@,
            EditorError::RecoverableSave => "Error saving file"@,
        }
    }

    /// Whether the editor must stop on this error.
    pub fn is_fatal(&self) -> (fatal: bool)
        ensures
            fatal == self.fatal(),
    {
        match self {
            EditorError::FatalStartup => true,
            EditorError::RecoverableSave => false,
        }
    }

    /// What the user is told.
    pub fn message(&self) -> (message: String)
        ensures
            message@ == self.text(),
    {
        match self {
            EditorError::FatalStartup => String::from_str(
                "Error Reading File. Please verify it exists.",
            ),
            EditorError::RecoverableSave => String::from_str("Error saving file"),
        }
    }
}

} // verus!
