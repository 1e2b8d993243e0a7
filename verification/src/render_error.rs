//! Render-time errors.
//!
//! Data errors are non-fatal: the renderer records them with their source
//! position and continues with an undefined value, so rendering always
//! completes.  The render call itself fails only when the collected list is
//! non-empty at the end.

use vstd::prelude::*;

use crate::Pos;

verus! {

/// The user-visible type of a value, for error messages.
#[derive(Debug, Clone, Copy, PartialEq, Eq, Structural)]
pub enum TypeName {
    /// The undefined placeholder.
    Undefined,
    /// A boolean.
    Bool,
    /// A number.
    Number,
    /// A string.
    Str,
    /// A list.
    List,
    /// A dict.
    Dict,
}

/// Invalid use of a variable in a template: one kind per operation.
#[derive(Debug, Clone, PartialEq)]
pub enum DataError {
    /// The value does not support getting an attribute `a.b`.
    AttrUnsupported(TypeName),
    /// The value has no such attribute.
    AttrNotFound,
    /// The value does not support subscription `a[b]`.
    IndexUnsupported(TypeName),
    /// The value cannot be used as a string key.
    StrKeyUnsupported(TypeName),
    /// The value cannot be used as an integer key.
    IntKeyUnsupported(TypeName),
    /// The value has nothing at the given index.
    IndexNotFound,
    /// The value cannot be printed.
    OutputUnsupported(TypeName),
    /// The value cannot be treated as a boolean.
    BoolUnsupported(TypeName),
    /// The value cannot be iterated over.
    IterationUnsupported(TypeName),
    /// The value cannot be iterated over by pairs.
    PairIterationUnsupported(TypeName),
    /// The value cannot take part in arithmetic.
    NumberUnsupported(TypeName),
    /// The value cannot take part in comparisons.
    ComparisonUnsupported(TypeName),
    /// The two values cannot be compared with each other.
    Incomparable(TypeName, TypeName),
    /// An arithmetic result left the 64-bit integer lattice.
    Overflow,
    /// A top-level variable was not found.
    VariableNotFound(Vec<char>),
    /// An output named a validator that no directive defined.
    UnknownValidator(Vec<char>),
    /// The written output did not match the validator's pattern.
    ValidatorFailed(Vec<char>),
}

/// The model of a data error.
pub ghost enum GErr {
    /// The value does not support getting an attribute.
    AttrUnsupported(TypeName),
    /// The value has no such attribute.
    AttrNotFound,
    /// The value does not support subscription.
    IndexUnsupported(TypeName),
    /// The value cannot be used as a string key.
    StrKeyUnsupported(TypeName),
    /// The value cannot be used as an integer key.
    IntKeyUnsupported(TypeName),
    /// The value has nothing at the given index.
    IndexNotFound,
    /// The value cannot be printed.
    OutputUnsupported(TypeName),
    /// The value cannot be treated as a boolean.
    BoolUnsupported(TypeName),
    /// The value cannot be iterated over.
    IterationUnsupported(TypeName),
    /// The value cannot be iterated over by pairs.
    PairIterationUnsupported(TypeName),
    /// The value cannot take part in arithmetic.
    NumberUnsupported(TypeName),
    /// The value cannot take part in comparisons.
    ComparisonUnsupported(TypeName),
    /// The two values cannot be compared with each other.
    Incomparable(TypeName, TypeName),
    /// An arithmetic result left the 64-bit integer lattice.
    Overflow,
    /// A top-level variable was not found.
    VariableNotFound(Seq<char>),
    /// An output named a validator that no directive defined.
    UnknownValidator(Seq<char>),
    /// The written output did not match the validator's pattern.
    ValidatorFailed(Seq<char>),
}

/// The model of a data error.
pub open spec fn view_err(e: DataError) -> GErr {
    match e {
        DataError::AttrUnsupported(t) => GErr::AttrUnsupported(t),
        DataError::AttrNotFound => GErr::AttrNotFound,
        DataError::IndexUnsupported(t) => GErr::IndexUnsupported(t),
        DataError::StrKeyUnsupported(t) => GErr::StrKeyUnsupported(t),
        DataError::IntKeyUnsupported(t) => GErr::IntKeyUnsupported(t),
        DataError::IndexNotFound => GErr::IndexNotFound,
        DataError::OutputUnsupported(t) => GErr::OutputUnsupported(t),
        DataError::BoolUnsupported(t) => GErr::BoolUnsupported(t),
        DataError::IterationUnsupported(t) => GErr::IterationUnsupported(t),
        DataError::PairIterationUnsupported(t) => GErr::PairIterationUnsupported(t),
        DataError::NumberUnsupported(t) => GErr::NumberUnsupported(t),
        DataError::ComparisonUnsupported(t) => GErr::ComparisonUnsupported(t),
        DataError::Incomparable(a, b) => GErr::Incomparable(a, b),
        DataError::Overflow => GErr::Overflow,
        DataError::VariableNotFound(n) => GErr::VariableNotFound(n@),
        DataError::UnknownValidator(n) => GErr::UnknownValidator(n@),
        DataError::ValidatorFailed(n) => GErr::ValidatorFailed(n@),
    }
}

/// The model of a positioned error list.
pub open spec fn view_errs(v: Seq<(Pos, DataError)>) -> Seq<(Pos, GErr)> {
    v.map_values(|pe: (Pos, DataError)| (pe.0, view_err(pe.1)))
}

/// Error rendering a template: the list of collected data errors, each with
/// the source position it occurred at.
#[derive(Debug)]
pub enum RenderError {
    /// One or more variables were used invalidly at render time.
    Data(Vec<(Pos, DataError)>),
}

} // verus!
verus! {

/// The model of an error list grows error-wise at the end.
pub proof fn lemma_view_errs_snoc(s: Seq<(Pos, DataError)>, p: (Pos, DataError))
    ensures
        view_errs(s.push(p)) == view_errs(s).push((p.0, view_err(p.1))),
{
    assert(view_errs(s.push(p)) =~= view_errs(s).push((p.0, view_err(p.1))));
}

} // verus!
