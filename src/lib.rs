//! Parsing and bumping versions written in formats of the caller's own design.
//!
//! A format such as `[MAJOR].[MINOR].[PATCH]` or `[YYYY].[0M].[PATCH]` is compiled for a
//! scheme (semantic, calendar, or both), version strings are parsed against it, and new
//! versions come from semantic increments and calendar updates.
use vstd::prelude::*;

pub mod decimal;
pub mod specifier;
pub mod error;
pub mod text;
pub mod format;
pub mod date;
pub mod version;
pub mod laws;

pub use crate::date::{CalendarDate, Date};
pub use crate::error::{FormatErrorKind, VersionBumpError};
pub use crate::format::{Cal, CalSem, Format, Scheme, Sem};
pub use crate::specifier::{CalSemSpecifier, SemanticLevel, Specifier};
pub use crate::version::{Version, VersionToken};

verus! {

} // verus!
