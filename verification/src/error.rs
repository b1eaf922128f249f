//! Errors of template processing.
use vstd::prelude::*;

verus! {

/// An error raised while evaluating or executing a template.
#[derive(Debug, Clone, PartialEq, Eq)]
pub enum TemplateError {
    /// A value was null or missing where one was required; `name` describes
    /// the expression.
    InvalidReference { name: String },
    /// A value had the wrong type.
    TypeMismatch { expected: String, actual: String },
    /// Any other error, with its message.
    Misc { message: String },
}

/// Whether `e` is a miscellaneous error with message `m`.
pub open spec fn is_misc(e: TemplateError, m: Seq<char>) -> bool {
    e matches TemplateError::Misc { message } && message@ == m
}

/// Whether `e` is a type mismatch: `expected` was needed, `actual` was found.
pub open spec fn is_type_mismatch(e: TemplateError, expected: Seq<char>, actual: Seq<char>) -> bool {
    e matches TemplateError::TypeMismatch { expected: x, actual: a } && x@ == expected && a@ == actual
}

/// Whether `e` is a missing-value error describing `name`.
pub open spec fn is_invalid_reference(e: TemplateError, name: Seq<char>) -> bool {
    e matches TemplateError::InvalidReference { name: n } && n@ == name
}

impl TemplateError {
    /// A miscellaneous error with the given message.
    pub fn misc(message: String) -> (r: TemplateError)
        ensures
            is_misc(r, message@),
    {
        TemplateError::Misc { message }
    }

    /// A type mismatch: `expected` was needed, a value of type `actual` was
    /// found.
    pub fn type_mismatch(expected: &str, actual: &str) -> (r: TemplateError)
        ensures
            is_type_mismatch(r, expected@, actual@),
    {
        TemplateError::TypeMismatch { expected: String::from_str(expected), actual: String::from_str(actual) }
    }

    /// A missing-value error describing the expression `name`.
    pub fn invalid_reference(name: String) -> (r: TemplateError)
        ensures
            is_invalid_reference(r, name@),
    {
        TemplateError::InvalidReference { name }
    }
}

} // verus!
