//! The errors of a resolution.

use vstd::prelude::*;

verus! {

/// A flag as the command line named it.
#[derive(Debug, PartialEq, Eq)]
pub enum FlagName {
    Long(String),
    Short(char),
}

/// What a flag name is, as mathematics.
pub enum FlagNameView {
    Long(Seq<char>),
    Short(char),
}

impl View for FlagName {
    type V = FlagNameView;

    open spec fn view(&self) -> FlagNameView {
        match self {
            FlagName::Long(name) => FlagNameView::Long(name@),
            FlagName::Short(c) => FlagNameView::Short(*c),
        }
    }
}

/// What went wrong.
#[derive(Debug, PartialEq, Eq)]
pub enum ErrorKind {
    /// The flag matches no flag of the schema.
    UnknownFlag(FlagName),
    /// The entry of this long name takes a value, and no value follows its flag.
    MissingArgumentValue(String),
    /// The entry of this long name does not accept this raw text.
    InvalidValue(String, String),
    /// This value is left over once every positional has one.
    UnexpectedPositional(String),
    /// The positional of this name must be supplied, and was not.
    MissingPositional(String),
    /// In the group of this name, the alternatives of these two tags were both
    /// taken.
    ConflictingGroup(String, String, String),
    /// In the group of this name, which is mandatory, no alternative was taken.
    MissingGroup(String),
}

/// What an error kind is, as mathematics.
pub enum ErrorKindView {
    UnknownFlag(FlagNameView),
    MissingArgumentValue(Seq<char>),
    InvalidValue(Seq<char>, Seq<char>),
    UnexpectedPositional(Seq<char>),
    MissingPositional(Seq<char>),
    ConflictingGroup(Seq<char>, Seq<char>, Seq<char>),
    MissingGroup(Seq<char>),
}

impl View for ErrorKind {
    type V = ErrorKindView;

    open spec fn view(&self) -> ErrorKindView {
        match self {
            ErrorKind::UnknownFlag(flag) => ErrorKindView::UnknownFlag(flag@),
            ErrorKind::MissingArgumentValue(entry) => ErrorKindView::MissingArgumentValue(entry@),
            ErrorKind::InvalidValue(entry, raw) => ErrorKindView::InvalidValue(entry@, raw@),
            ErrorKind::UnexpectedPositional(raw) => ErrorKindView::UnexpectedPositional(raw@),
            ErrorKind::MissingPositional(entry) => ErrorKindView::MissingPositional(entry@),
            ErrorKind::ConflictingGroup(group, first, second) => ErrorKindView::ConflictingGroup(
                group@,
                first@,
                second@,
            ),
            ErrorKind::MissingGroup(group) => ErrorKindView::MissingGroup(group@),
        }
    }
}

/// The one error that ends a resolution.
#[derive(Debug, PartialEq, Eq)]
pub struct ResolutionError {
    pub kind: ErrorKind,
    /// The place of the offending token; the number of tokens where something
    /// is missing at the end.
    pub position: usize,
}

/// What a resolution error is, as mathematics.
pub struct ErrorView {
    pub kind: ErrorKindView,
    pub position: int,
}

impl View for ResolutionError {
    type V = ErrorView;

    open spec fn view(&self) -> ErrorView {
        ErrorView { kind: self.kind@, position: self.position as int }
    }
}

} // verus!
