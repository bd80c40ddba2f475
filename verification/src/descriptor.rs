//! Descriptors that a type gives of itself, and the entries made from them.
//!
//! A type may describe the entry that it stands for through one of the traits
//! below. What such a type answers is its own affair: an entry made from it
//! holds whatever the type answered, and the kind, the default and the parser
//! that this library decides.

use vstd::prelude::*;
use crate::schema::AlternativeDecl;
use crate::schema::Flag;
use crate::schema::GroupDecl;
use crate::schema::SchemaEntry;
use crate::token::LongFlag;
use crate::token::ShortFlag;
use crate::value::ParserView;
use crate::value::ValueParser;

verus! {

/// A type that stands for a positional argument.
pub trait AsArg: Sized {
    /// The name under which the positional is reported.
    fn name() -> String;

    /// What the positional is for.
    fn description() -> String;
}

/// A type that stands for a boolean flag.
pub trait AsFlag: Sized {
    /// The long form of the flag.
    fn long() -> LongFlag;

    /// The short form of the flag, where it has one.
    fn short() -> Option<ShortFlag>;

    /// What the flag is for.
    fn description() -> String;
}

/// A type that stands for a flag with a value.
pub trait AsFlagArg: Sized {
    /// The long form of the flag.
    fn long() -> LongFlag;

    /// The short form of the flag, where it has one.
    fn short() -> Option<ShortFlag>;

    /// What the flag is for.
    fn description() -> String;

    /// Reads a raw text into the type.
    fn parse(s: &str) -> Option<Self>;
}

/// A type that stands for a group of alternatives.
pub trait AsGroup: Sized {
    /// The name of the group.
    fn name() -> String;

    /// What the group is for.
    fn description() -> String;
}

/// How a flag of these two forms is addressed.
pub fn flag_from_forms(long: LongFlag, short: Option<ShortFlag>) -> (flag: Flag)
    ensures
        flag.long_name() == long@,
        flag.short_char() == match short {
            Some(form) => Some(form@),
            None => None,
        },
        flag is LongOnly <==> short is None,
{
    let character = match short {
        Some(form) => Some(form.0),
        None => None,
    };
    Flag::new(long.0, character)
}

/// The positional that `T` describes, with this default and this parser.
pub fn positional_of<T: AsArg>(default: Option<String>, parser: ValueParser) -> (entry: SchemaEntry)
    ensures
        entry@.kind is Positional,
        entry@.short is None,
        entry@.default == default.deep_view(),
        entry@.parser == parser@,
{
    SchemaEntry::positional(T::name(), T::description(), default, parser)
}

/// The boolean flag that `T` describes.
pub fn flag_of<T: AsFlag>() -> (entry: SchemaEntry)
    ensures
        entry@.kind is Flag,
        entry@.default is None,
        entry@.parser == ParserView::Text,
{
    SchemaEntry::flag(flag_from_forms(T::long(), T::short()), T::description())
}

/// The flag with a value that `T` describes, with this default and this
/// parser. The parser decides which raw texts the resolver accepts for the
/// flag; what `T` itself reads of a text is left to the caller.
pub fn flag_arg_of<T: AsFlagArg>(default: Option<String>, parser: ValueParser) -> (entry: SchemaEntry)
    ensures
        entry@.kind is FlagArg,
        entry@.default == default.deep_view(),
        entry@.parser == parser@,
{
    SchemaEntry::flag_arg(flag_from_forms(T::long(), T::short()), T::description(), default, parser)
}

/// The group that `T` describes, with these alternatives.
pub fn group_of<T: AsGroup>(mandatory: bool, alternatives: Vec<AlternativeDecl>) -> (group: GroupDecl)
    ensures
        group@.mandatory == mandatory,
        group@.alternatives == alternatives.deep_view(),
{
    GroupDecl { name: T::name(), description: T::description(), mandatory, alternatives }
}

} // verus!
