//! Where the configuration comes from.

use vstd::prelude::*;
use vstd::string::*;

use crate::extensions::ExtensionsError;
use crate::text::cat3;

verus! {

/// Single-file configuration source.
#[derive(Debug, Clone, PartialEq, Eq)]
pub struct FileConfigSource {
    path: String,
}

impl View for FileConfigSource {
    type V = Seq<char>;

    closed spec fn view(&self) -> Seq<char> {
        self.path@
    }
}

impl FileConfigSource {
    /// A source that reads the file at a path.
    pub fn new(path: String) -> (s: Self)
        ensures
            s@ == path@,
    {
        FileConfigSource { path }
    }

    /// The path of the file.
    pub fn path(&self) -> (s: &str)
        ensures
            s@ == self@,
    {
        self.path.as_str()
    }

    /// The text of the file; an error names the file.
    pub fn read_text(&self, read: Result<String, String>) -> (r: Result<String, ExtensionsError>)
        ensures
            match (read, r) {
                (Ok(t), Ok(s)) => s@ == t@,
                (Err(e), Err(ExtensionsError::Io(m))) => m@ == self@ + ": "@ + e@,
                _ => false,
            },
    {
        match read {
            Ok(t) => Ok(t),
            Err(e) => Err(ExtensionsError::Io(cat3(self.path.as_str(), ": ", e.as_str()))),
        }
    }

    /// The error of a malformed configuration.
    pub fn malformed(&self, message: String) -> (e: ExtensionsError)
        ensures
            e matches ExtensionsError::Invalid(m) && m@ == message@,
    {
        ExtensionsError::Invalid(message)
    }
}

} // verus!
