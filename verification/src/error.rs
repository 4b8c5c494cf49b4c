//! The assessor's errors.
use vstd::prelude::*;

verus! {

/// What can go wrong in an assessment.
#[derive(Debug)]
pub enum AssessorError {
    /// A project file is missing.
    ProjectNotFound(String),
    /// A source file did not parse; its path and the parser's message.
    SourceParseError { path: String, source: String },
    /// A module could not be resolved.
    ModuleResolutionError(String),
    /// The configuration is wrong.
    Config(String),
}

impl AssessorError {
    /// What went wrong, in words.
    pub fn message(&self) -> (r: String)
        ensures
            r@ == match self {
                AssessorError::ProjectNotFound(p) => "project file not found: "@ + p@,
                AssessorError::SourceParseError { path, .. } => "failed to parse source file: "@ + path@,
                AssessorError::ModuleResolutionError(m) => "failed to resolve module: "@ + m@,
                AssessorError::Config(c) => "configuration error: "@ + c@,
            },
    {
        proof {
            reveal_strlit("");
        }
        let (head, tail) = match self {
            AssessorError::ProjectNotFound(p) => ("project file not found: ", p),
            AssessorError::SourceParseError { path, .. } => ("failed to parse source file: ", path),
            AssessorError::ModuleResolutionError(m) => ("failed to resolve module: ", m),
            AssessorError::Config(c) => ("configuration error: ", c),
        };
        let r = crate::output_paths::join3(head, tail.as_str(), "");
        proof {
            assert(head@ + tail@ + ""@ =~= head@ + tail@);
        }
        r
    }
}

} // verus!
