//! From a declared type and its attributes to the descriptor of an entry.
//!
//! A declaration is held as plain data: the name of the type, its shape, its
//! documentation, and the settings of its attribute. What is decided from them
//! is the canonical name of the entry, how its flag is addressed, and whether
//! the declaration can stand for an entry at all.

use vstd::prelude::*;
use vstd::string::*;
use crate::casing::kebab_case;
use crate::casing::to_kebab;
use crate::schema::EntryKind;
use crate::schema::EntryView;
use crate::schema::Flag;
use crate::schema::SchemaEntry;
use crate::value::ValueParser;

verus! {

/// How the fields of a struct are written.
#[derive(Clone, Copy, Debug, PartialEq, Eq)]
pub enum FieldStyle {
    Named,
    Unnamed,
    Unit,
}

/// The shape of a declared type.
#[derive(Clone, Copy, Debug, PartialEq, Eq)]
pub enum Shape {
    /// A struct, with the style and the number of its fields.
    Struct(FieldStyle, usize),
    Enum,
    Union,
}

/// A declared type.
#[derive(Debug, PartialEq, Eq)]
pub struct Declaration {
    /// The name of the type, as declared.
    pub ident: String,
    pub shape: Shape,
    /// The documentation of the type.
    pub doc: String,
}

/// The value of a setting of an attribute.
#[derive(Debug, PartialEq, Eq)]
pub enum MetaValue {
    /// A string literal.
    Text(String),
    /// Any other literal.
    Other,
}

/// One item between the brackets of an attribute.
#[derive(Debug, PartialEq, Eq)]
pub enum MetaItem {
    /// A literal where a setting should stand.
    Literal,
    /// Anything that is no setting: a bare path, or a list.
    Other,
    /// A setting: `key = value`. The key is held where it is a plain name.
    NameValue(Option<String>, MetaValue),
}

/// What a value of a setting is, as mathematics.
pub enum MetaValueView {
    Text(Seq<char>),
    Other,
}

/// What an item of an attribute is, as mathematics.
pub enum MetaItemView {
    Literal,
    Other,
    NameValue(Option<Seq<char>>, MetaValueView),
}

impl View for MetaValue {
    type V = MetaValueView;

    open spec fn view(&self) -> MetaValueView {
        match self {
            MetaValue::Text(text) => MetaValueView::Text(text@),
            MetaValue::Other => MetaValueView::Other,
        }
    }
}

impl View for MetaItem {
    type V = MetaItemView;

    open spec fn view(&self) -> MetaItemView {
        match self {
            MetaItem::Literal => MetaItemView::Literal,
            MetaItem::Other => MetaItemView::Other,
            MetaItem::NameValue(key, value) => MetaItemView::NameValue(key.deep_view(), value@),
        }
    }
}

impl DeepView for MetaItem {
    type V = MetaItemView;

    open spec fn deep_view(&self) -> MetaItemView {
        self@
    }
}

/// Why the items of an attribute were refused.
#[derive(Clone, Copy, Debug, PartialEq, Eq)]
pub enum AttrFault {
    /// A literal stands where a setting should.
    Literal,
    /// An item is no setting.
    Metadata,
    /// The name is set to something that is no string literal.
    NameNotText,
    /// A key other than the name is set.
    UnexpectedKey,
}

/// The first fault among the items of an attribute, and the place of the item.
#[derive(Clone, Copy, Debug, PartialEq, Eq)]
pub struct AttrError {
    pub fault: AttrFault,
    pub at: usize,
}

impl AttrError {
    /// The fault in words.
    pub fn message(&self) -> (text: String)
        ensures
            text@ == match self.fault {
                AttrFault::Literal => "Literals in #[arg(..)] are not allowed"@,
                AttrFault::Metadata => "Metadata in #[arg(..)] is invalid"@,
                AttrFault::NameNotText => "#[arg(name = ..)] must be a string literal"@,
                AttrFault::UnexpectedKey => "Unexpected key in #[arg(..)]"@,
            },
    {
        match self.fault {
            AttrFault::Literal => String::from_str("Literals in #[arg(..)] are not allowed"),
            AttrFault::Metadata => String::from_str("Metadata in #[arg(..)] is invalid"),
            AttrFault::NameNotText => String::from_str("#[arg(name = ..)] must be a string literal"),
            AttrFault::UnexpectedKey => String::from_str("Unexpected key in #[arg(..)]"),
        }
    }
}

/// The declaration is no struct with a single unnamed field.
#[derive(Clone, Copy, Debug, PartialEq, Eq)]
pub struct InvalidStruct;

impl InvalidStruct {
    /// The fault in words.
    pub fn message(&self) -> (text: String)
        ensures
            text@ == "#[derive(Arg)] can only be applied to structs with single unnamed field"@,
    {
        String::from_str("#[derive(Arg)] can only be applied to structs with single unnamed field")
    }
}

/// Why a declaration makes no descriptor.
#[derive(Clone, Copy, Debug, PartialEq, Eq)]
pub enum DeriveError {
    /// The type is neither an enum nor a struct with a single field.
    UnsupportedShape,
    /// The type is no struct with a single unnamed field.
    InvalidStruct,
    /// The attribute holds a fault.
    Attribute(AttrError),
}

impl DeriveError {
    /// The fault in words.
    pub fn message(&self) -> (text: String)
        ensures
            match *self {
                DeriveError::UnsupportedShape => text@
                    == "#[derive(ArgOpt)] can only be applied to structs with single unnamed field or enums"@,
                DeriveError::InvalidStruct => text@
                    == "#[derive(Arg)] can only be applied to structs with single unnamed field"@,
                DeriveError::Attribute(error) => text@ == match error.fault {
                    AttrFault::Literal => "Literals in #[arg(..)] are not allowed"@,
                    AttrFault::Metadata => "Metadata in #[arg(..)] is invalid"@,
                    AttrFault::NameNotText => "#[arg(name = ..)] must be a string literal"@,
                    AttrFault::UnexpectedKey => "Unexpected key in #[arg(..)]"@,
                },
            },
    {
        match self {
            DeriveError::UnsupportedShape => String::from_str(
                "#[derive(ArgOpt)] can only be applied to structs with single unnamed field or enums",
            ),
            DeriveError::InvalidStruct => InvalidStruct.message(),
            DeriveError::Attribute(error) => error.message(),
        }
    }
}

/// Whether a shape is that of a struct with a single unnamed field.
pub open spec fn single_unnamed(shape: Shape) -> bool {
    shape == Shape::Struct(FieldStyle::Unnamed, 1)
}

/// Accepts the struct with a single unnamed field, and no other shape.
pub fn validate_struct(shape: Shape) -> (outcome: Result<(), InvalidStruct>)
    ensures
        outcome is Ok <==> single_unnamed(shape),
{
    match shape {
        Shape::Struct(FieldStyle::Unnamed, fields) => {
            if fields == 1 {
                Ok(())
            } else {
                Err(InvalidStruct)
            }
        },
        _ => Err(InvalidStruct),
    }
}

/// The settings that the attribute of a positional may hold.
#[derive(Debug, PartialEq, Eq)]
pub struct ArgAttr {
    /// The name that overrides the canonical one.
    pub name: Option<String>,
}

/// The name that the items from the `i`-th on set, where `name` is set so far,
/// or the first fault among them.
///
/// Every item must set the key `name` to a string literal; of several, the
/// last stands.
pub open spec fn name_from(items: Seq<MetaItemView>, i: int, name: Option<Seq<char>>) -> Result<
    Option<Seq<char>>,
    AttrError,
>
    decreases items.len() - i,
{
    if i < 0 || i >= items.len() {
        Ok(name)
    } else {
        match items[i] {
            MetaItemView::Literal => Err(AttrError { fault: AttrFault::Literal, at: i as usize }),
            MetaItemView::Other => Err(AttrError { fault: AttrFault::Metadata, at: i as usize }),
            MetaItemView::NameValue(key, value) => if key == Some("name"@) {
                match value {
                    MetaValueView::Text(text) => name_from(items, i + 1, Some(text)),
                    MetaValueView::Other => Err(
                        AttrError { fault: AttrFault::NameNotText, at: i as usize },
                    ),
                }
            } else {
                Err(AttrError { fault: AttrFault::UnexpectedKey, at: i as usize })
            },
        }
    }
}

/// Reads the items of the attribute of a positional.
pub fn extract_arg_attr(items: &Vec<MetaItem>) -> (outcome: Result<ArgAttr, AttrError>)
    ensures
        match outcome {
            Ok(attr) => name_from(items.deep_view(), 0, None) == Ok::<Option<Seq<char>>, AttrError>(
                attr.name.deep_view(),
            ),
            Err(error) => name_from(items.deep_view(), 0, None) == Err::<Option<Seq<char>>, AttrError>(
                error,
            ),
        },
{
    let wanted = String::from_str("name");
    let mut name: Option<String> = None;
    let mut i: usize = 0;
    while i < items.len()
        invariant
            i <= items.len(),
            wanted@ == "name"@,
            name_from(items.deep_view(), i as int, name.deep_view()) == name_from(
                items.deep_view(),
                0,
                None,
            ),
        decreases items.len() - i,
    {
        assert(items.deep_view()[i as int] == items[i as int]@);
        match &items[i] {
            MetaItem::Literal => {
                return Err(AttrError { fault: AttrFault::Literal, at: i });
            },
            MetaItem::Other => {
                return Err(AttrError { fault: AttrFault::Metadata, at: i });
            },
            MetaItem::NameValue(key, value) => {
                let named: bool = match key {
                    Some(key) => *key == wanted,
                    None => false,
                };
                if !named {
                    return Err(AttrError { fault: AttrFault::UnexpectedKey, at: i });
                }
                match value {
                    MetaValue::Text(text) => {
                        name = Some(text.clone());
                    },
                    MetaValue::Other => {
                        return Err(AttrError { fault: AttrFault::NameNotText, at: i });
                    },
                }
            },
        }
        i += 1;
    }
    Ok(ArgAttr { name })
}

/// The name that a declaration goes by: the one that its attribute sets, else
/// the kebab-case spelling of the name of its type.
pub open spec fn canonical_name(ident: Seq<char>, set: Option<Seq<char>>) -> Seq<char> {
    match set {
        Some(name) => name,
        None => kebab_case(ident),
    }
}

/// The name that a declaration goes by.
pub fn name_for(ident: &str, set: Option<&String>) -> (name: String)
    ensures
        name@ == canonical_name(ident@, set.deep_view()),
{
    match set {
        Some(name) => name.clone(),
        None => to_kebab(ident),
    }
}

/// The descriptor of a positional: its name and what it is for.
#[derive(Debug, PartialEq, Eq)]
pub struct ArgDescriptor {
    pub name: String,
    pub description: String,
}

impl ArgDescriptor {
    /// The entry that the descriptor stands for.
    pub fn entry(self, default: Option<String>, parser: ValueParser) -> (entry: SchemaEntry)
        ensures
            entry@ == (EntryView {
                kind: EntryKind::Positional,
                long_name: self.name@,
                short: None,
                description: self.description@,
                default: default.deep_view(),
                parser: parser@,
            }),
    {
        SchemaEntry::positional(self.name, self.description, default, parser)
    }
}

/// Describes the positional that a declaration stands for.
///
/// The declaration must be a struct with a single unnamed field, and the items
/// of its attribute must be free of faults; the shape is looked at first. The
/// positional goes by the name that the attribute sets, else by the kebab-case
/// spelling of the name of the type, and is described by the documentation.
pub fn derive_arg(declaration: &Declaration, items: &Vec<MetaItem>) -> (outcome: Result<
    ArgDescriptor,
    DeriveError,
>)
    ensures
        match outcome {
            Ok(descriptor) => {
                &&& single_unnamed(declaration.shape)
                &&& name_from(items.deep_view(), 0, None) is Ok
                &&& descriptor.name@ == canonical_name(
                    declaration.ident@,
                    name_from(items.deep_view(), 0, None)->Ok_0,
                )
                &&& descriptor.description@ == declaration.doc@
            },
            Err(error) => if !single_unnamed(declaration.shape) {
                error == DeriveError::InvalidStruct
            } else {
                name_from(items.deep_view(), 0, None) == Err::<Option<Seq<char>>, AttrError>(
                    error->Attribute_0,
                ) && error is Attribute
            },
        },
{
    match validate_struct(declaration.shape) {
        Err(_) => {
            return Err(DeriveError::InvalidStruct);
        },
        Ok(_) => {},
    }
    let attr = match extract_arg_attr(items) {
        Err(error) => {
            return Err(DeriveError::Attribute(error));
        },
        Ok(attr) => attr,
    };
    let name = name_for(declaration.ident.as_str(), attr.name.as_ref());
    Ok(ArgDescriptor { name, description: declaration.doc.clone() })
}

/// The settings that the attribute of a flag with a value may hold.
#[derive(Debug, PartialEq, Eq)]
pub struct ArgOptAttr {
    /// The long name that overrides the canonical one.
    pub long: Option<String>,
    /// The short character.
    pub short: Option<char>,
}

/// What the parser of a described entry reads into.
#[derive(Clone, Copy, Debug, PartialEq, Eq)]
pub enum ParseTarget {
    /// The declared type itself.
    Itself,
    /// The single field of the declared type.
    Field,
}

/// The descriptor of a flag with a value.
#[derive(Debug, PartialEq, Eq)]
pub struct ArgOptDescriptor {
    pub flag: Flag,
    pub description: String,
    pub target: ParseTarget,
}

impl ArgOptDescriptor {
    /// The entry that the descriptor stands for.
    pub fn entry(self, default: Option<String>, parser: ValueParser) -> (entry: SchemaEntry)
        ensures
            entry@ == (EntryView {
                kind: EntryKind::FlagArg,
                long_name: self.flag.long_name(),
                short: self.flag.short_char(),
                description: self.description@,
                default: default.deep_view(),
                parser: parser@,
            }),
    {
        SchemaEntry::flag_arg(self.flag, self.description, default, parser)
    }
}

/// Whether a shape can stand for a flag with a value: an enum, or a struct
/// with a single field.
pub open spec fn supported(shape: Shape) -> bool {
    match shape {
        Shape::Enum => true,
        Shape::Struct(_, fields) => fields == 1,
        Shape::Union => false,
    }
}

/// The long name and the short character that the attribute sets, if there is
/// an attribute.
pub open spec fn set_long(attr: Option<ArgOptAttr>) -> Option<Seq<char>> {
    match attr {
        Some(attr) => attr.long.deep_view(),
        None => None,
    }
}

/// The short character that the attribute sets, if there is an attribute.
pub open spec fn set_short(attr: Option<ArgOptAttr>) -> Option<char> {
    match attr {
        Some(attr) => attr.short,
        None => None,
    }
}

/// Describes the flag with a value that a declaration stands for.
///
/// The declaration must be an enum or a struct with a single field. The flag
/// goes by the long name that the attribute sets, else by the kebab-case
/// spelling of the name of the type; it has a short form exactly where the
/// attribute sets a short character. The parser of an enum reads into the enum
/// itself, that of a struct into its field.
pub fn derive_arg_opt(declaration: &Declaration, attr: Option<ArgOptAttr>) -> (outcome: Result<
    ArgOptDescriptor,
    DeriveError,
>)
    ensures
        match outcome {
            Ok(descriptor) => {
                &&& supported(declaration.shape)
                &&& descriptor.flag.long_name() == canonical_name(declaration.ident@, set_long(attr))
                &&& descriptor.flag.short_char() == set_short(attr)
                &&& descriptor.flag is LongOnly <==> set_short(attr) is None
                &&& descriptor.description@ == declaration.doc@
                &&& descriptor.target == if declaration.shape is Enum {
                    ParseTarget::Itself
                } else {
                    ParseTarget::Field
                }
            },
            Err(error) => !supported(declaration.shape) && error == DeriveError::UnsupportedShape,
        },
{
    let target = match declaration.shape {
        Shape::Enum => ParseTarget::Itself,
        Shape::Struct(_, fields) => {
            if fields != 1 {
                return Err(DeriveError::UnsupportedShape);
            }
            ParseTarget::Field
        },
        Shape::Union => {
            return Err(DeriveError::UnsupportedShape);
        },
    };
    let (long, short) = match attr {
        Some(attr) => (attr.long, attr.short),
        None => (None, None),
    };
    let name = name_for(declaration.ident.as_str(), long.as_ref());
    Ok(ArgOptDescriptor { flag: Flag::new(name, short), description: declaration.doc.clone(), target })
}

} // verus!
