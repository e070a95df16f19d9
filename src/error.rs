//! The errors of the pipeline. Each one ends the build.
use vstd::prelude::*;

verus! {

/// The model of an error: what it names.
pub enum ErrorModel {
    Parse,
    MissingSection(Seq<char>),
    PathResolution(Seq<char>, Seq<char>, Seq<char>),
    SchemaCast(Seq<char>),
}

#[derive(Debug, PartialEq, Eq)]
pub enum PipelineError {
    /// The input text is not well-formed JSON; holds the parser's message.
    ParseError(String),
    /// A section on the way to `components.schemas` is absent or not an object; holds its name.
    MissingSection(String),
    /// A step of a targeted patch's path is absent or not an object.
    PathResolutionError { schema: String, field: String, segment: String },
    /// An entry of `components.schemas` is not a well-formed schema node; holds its name.
    SchemaCastError(String),
}

impl PipelineError {
    pub open spec fn view(&self) -> ErrorModel {
        match self {
            PipelineError::ParseError(_) => ErrorModel::Parse,
            PipelineError::MissingSection(s) => ErrorModel::MissingSection(s@),
            PipelineError::PathResolutionError { schema, field, segment } => ErrorModel::PathResolution(
                schema@,
                field@,
                segment@,
            ),
            PipelineError::SchemaCastError(s) => ErrorModel::SchemaCast(s@),
        }
    }

    /// The error as text: the parser's message, the missing section,
    /// `schema.field: segment`, or the offending schema.
    pub fn message(&self) -> (r: String)
        ensures
            match self {
                PipelineError::ParseError(m) => r@ == m@,
                PipelineError::MissingSection(s) => r@ == s@,
                PipelineError::PathResolutionError { schema, field, segment } => r@ == schema@ + "."@
                    + field@ + ": "@ + segment@,
                PipelineError::SchemaCastError(s) => r@ == s@,
            },
    {
        match self {
            PipelineError::ParseError(m) => m.clone(),
            PipelineError::MissingSection(s) => s.clone(),
            PipelineError::PathResolutionError { schema, field, segment } => {
                let mut r = schema.clone();
                r.append(".");
                r.append(field.as_str());
                r.append(": ");
                r.append(segment.as_str());
                r
            },
            PipelineError::SchemaCastError(s) => s.clone(),
        }
    }
}

} // verus!
