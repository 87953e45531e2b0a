use vstd::prelude::*;

verus! {

/// Every failure of file resolution or ingestion, one variant per cause.
#[derive(Debug, PartialEq)]
pub enum ConfigError {
    /// No exact or extension-probed file exists; carries the logical name as given.
    NotFound(String),
    /// An exact-match file exists but its extension matches no registered format
    /// and no hint was supplied; carries the full path of that file.
    UnregisteredFormat(String),
    /// Working-directory resolution, file open, or read failed; carries the
    /// reported cause.
    Io(String),
    /// The chosen format backend could not parse the text; carries the
    /// parser's diagnostic.
    Parse(String),
}

impl ConfigError {
    /// The diagnostic text carried by the error.
    pub fn message(&self) -> (r: &String)
        ensures
            r@ == self.spec_message(),
    {
        match self {
            ConfigError::NotFound(s) => s,
            ConfigError::UnregisteredFormat(s) => s,
            ConfigError::Io(s) => s,
            ConfigError::Parse(s) => s,
        }
    }

    pub open spec fn spec_message(self) -> Seq<char> {
        match self {
            ConfigError::NotFound(s) => s@,
            ConfigError::UnregisteredFormat(s) => s@,
            ConfigError::Io(s) => s@,
            ConfigError::Parse(s) => s@,
        }
    }
}

} // verus!
