//! The pipeline's fatal failures and their user-visible messages.

use vstd::prelude::*;
use vstd::string::*;

verus! {

/// A fatal failure of the conversion pipeline. Every failure aborts the whole
/// run; nothing is retried and no partial output is produced.
#[derive(Debug)]
pub enum EnvError {
    /// Some manifest entry does not carry the required `.yaml` extension.
    PathValidation,
    /// The named source file holds a line without a colon separator.
    ContentValidation(String),
}

/// Message for a source file that could not be read at all.
pub fn create_yaml_file_read_err(path: &str) -> (r: String)
    ensures
        r@ == "Could not read yaml file with path: "@ + path@,
{
    let mut s = String::from_str("Could not read yaml file with path: ");
    s.append(path);
    s
}

/// Message for a source file whose content is not line-oriented `key:value`
/// text.
pub fn create_yaml_content_validation_err(path: &str) -> (r: String)
    ensures
        r@ == "Unsupported yaml structure in file with path: "@ + path@,
{
    let mut s = String::from_str("Unsupported yaml structure in file with path: ");
    s.append(path);
    s
}

impl EnvError {
    /// The human-readable description of the failure, as the driver reports
    /// it.
    pub fn message(&self) -> (r: String)
        ensures
            *self is PathValidation ==> r@ == "All paths in config file must have .yaml extension"@,
            (*self) matches EnvError::ContentValidation(p) ==> r@
                == "Unsupported yaml structure in file with path: "@ + p@,
    {
        match self {
            EnvError::PathValidation => String::from_str(
                "All paths in config file must have .yaml extension",
            ),
            EnvError::ContentValidation(p) => create_yaml_content_validation_err(p.as_str()),
        }
    }
}

} // verus!
