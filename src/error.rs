//! What can go wrong when compiling a format, parsing a version, or bumping one.
use crate::specifier::SemanticLevel;
use vstd::prelude::*;

verus! {

/// Why a format string was rejected.
#[derive(Debug, Clone, Copy, PartialEq, Eq, Structural)]
pub enum FormatErrorKind {
    /// A `[` with no `]` after it.
    UnterminatedBracket,
    /// Bracketed text that names no specifier.
    UnknownSpecifier,
    /// A specifier that the format's scheme does not admit.
    SpecifierNotInScheme,
    /// A second specifier for a unit the format already has.
    RepeatedUnit,
}

#[derive(Debug, Clone, PartialEq, Eq)]
pub enum VersionBumpError {
    /// The version string does not match the format.
    VersionFormatMismatch { version_string: String, format_string: String },
    /// The explicit year, month and day do not form a real date.
    InvalidDateArguments { year: i32, month: u32, day: u32 },
    /// The semantic level asked for is not in the version's format.
    SemanticSpecifierNotInFormat { spec: SemanticLevel },
    /// A calendar update would leave every calendar value as it was.
    NoCalendarChange,
    /// The date would give a negative year value.
    NegativeYearValue { year: i32 },
    /// The format string is malformed or not legal for its scheme.
    InvalidFormat { kind: FormatErrorKind, format_string: String },
    /// Incrementing would take a value past `u32::MAX`.
    ValueOverflow,
}

} // verus!
