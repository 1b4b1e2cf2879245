//! The failures the media store surfaces to its callers.

use vstd::prelude::*;
use vstd::string::StringExecFns;

verus! {

/// Everything a store operation can fail with. Each variant carries
/// exactly what its message needs; no variant is ever retried inside
/// the store itself.
#[derive(Debug, Clone)]
pub enum StoreError {
    /// The host environment supplied no application data directory.
    Environment,
    /// The category is outside the closed set that import accepts.
    InvalidCategory,
    /// The source path names no existing filesystem entry.
    SourceNotFound { path: String },
    /// The source path has no extractable final component.
    InvalidFilename,
    /// No managed file stands at the given category and filename.
    FileNotFound { category: String, name: String },
    /// An underlying storage operation failed; the detail holds the cause.
    StorageIo { detail: String },
}

impl StoreError {
    /// The descriptive text each failure carries to the UI.
    pub open spec fn spec_message(self) -> Seq<char> {
        match self {
            StoreError::Environment => "Failed to get app data dir"@,
            StoreError::InvalidCategory => "Invalid subfolder. Must be: Image, Audio, or Video"@,
            StoreError::SourceNotFound { path } => "Source file does not exist: "@ + path@,
            StoreError::InvalidFilename => "Invalid filename"@,
            StoreError::FileNotFound { category, name } => "File does not exist: "@ + category@
                + "/"@ + name@,
            StoreError::StorageIo { detail } => detail@,
        }
    }

    /// Renders the failure as the text the UI shows.
    pub fn message(&self) -> (r: String)
        ensures
            r@ == self.spec_message(),
    {
        match self {
            StoreError::Environment => "Failed to get app data dir".to_owned(),
            StoreError::InvalidCategory => "Invalid subfolder. Must be: Image, Audio, or Video".to_owned(),
            StoreError::SourceNotFound { path } => {
                let mut r = "Source file does not exist: ".to_owned();
                r.append(path.as_str());
                r
            },
            StoreError::InvalidFilename => "Invalid filename".to_owned(),
            StoreError::FileNotFound { category, name } => {
                let mut r = "File does not exist: ".to_owned();
                r.append(category.as_str());
                r.append("/");
                r.append(name.as_str());
                r
            },
            StoreError::StorageIo { detail } => detail.clone(),
        }
    }
}

} // verus!
