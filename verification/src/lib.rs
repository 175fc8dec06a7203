use vstd::prelude::*;

pub mod bytestrings;
pub mod find;
pub mod regexes;
pub mod tokenizers;

verus! {

/// Errors raised while building the tokenization engine.
///
/// All of these are construction-time failures: an engine whose pattern set
/// cannot be compiled is unusable, so they are surfaced to the caller rather
/// than swallowed. `tokenize` itself is total and reports no errors.
#[derive(Debug)]
pub enum EyeciteError {
    /// The multi-pattern automaton over the trigger strings could not be built.
    AhocorasickError { message: String },
    /// A generated pattern is not a valid regular expression.
    RegexError { message: String },
    /// The reference dataset does not hold the template slots this engine fills.
    TemplateError { message: String },
}

impl EyeciteError {
    /// A human-readable description of the failure.
    pub fn message(&self) -> (r: &String)
        ensures
            r@ == self.message_spec(),
    {
        match self {
            EyeciteError::AhocorasickError { message } => message,
            EyeciteError::RegexError { message } => message,
            EyeciteError::TemplateError { message } => message,
        }
    }

    pub open spec fn message_spec(&self) -> Seq<char> {
        match self {
            EyeciteError::AhocorasickError { message } => message@,
            EyeciteError::RegexError { message } => message@,
            EyeciteError::TemplateError { message } => message@,
        }
    }
}

} // verus!
