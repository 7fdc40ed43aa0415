//! The ways building an index or generating a file can fail.

use vstd::prelude::*;

verus! {

pub enum TemplateError {
    /// The template store is missing.
    DirectoryNotFound,
    /// Two templates share a title; carries the name of the later one.
    DuplicateTemplate(String),
    /// A requested title is not in the index; carries the title of the
    /// suggested template, if any lies close enough.
    TemplateNotFound { name: String, suggestion: Option<String> },
    /// The body of a requested template is not available.
    ReadFailure(String),
}

/// The text shown for an error.
pub open spec fn message_of(e: TemplateError) -> Seq<char> {
    match e {
        TemplateError::DirectoryNotFound => "Templates path does not exist"@,
        TemplateError::DuplicateTemplate(name) => "Duplicate template name: "@ + name@,
        TemplateError::TemplateNotFound { name, suggestion } => match suggestion {
            Some(title) => "Template '"@ + name@ + "' not found, did you mean '"@ + title@ + "'?"@,
            None => "Template '"@ + name@ + "' not found"@,
        },
        TemplateError::ReadFailure(name) => "Could not read template '"@ + name@ + "'"@,
    }
}

impl TemplateError {
    /// The text shown for this error.
    pub fn message(&self) -> (r: String)
        ensures
            r@ == message_of(*self),
    {
        match self {
            TemplateError::DirectoryNotFound => String::from_str("Templates path does not exist"),
            TemplateError::DuplicateTemplate(name) => {
                String::from_str("Duplicate template name: ").concat(name.as_str())
            },
            TemplateError::TemplateNotFound { name, suggestion } => {
                let head = String::from_str("Template '").concat(name.as_str());
                match suggestion {
                    Some(title) => head.concat("' not found, did you mean '").concat(
                        title.as_str(),
                    ).concat("'?"),
                    None => head.concat("' not found"),
                }
            },
            TemplateError::ReadFailure(name) => {
                String::from_str("Could not read template '").concat(name.as_str()).concat("'")
            },
        }
    }
}

} // verus!
