use cli_compose::declaration::{
    derive_arg, derive_arg_opt, extract_arg_attr, name_for, validate_struct, ArgAttr, ArgDescriptor,
    ArgOptAttr, ArgOptDescriptor, AttrError, AttrFault, Declaration, DeriveError, FieldStyle,
    InvalidStruct, MetaItem, MetaValue, ParseTarget, Shape,
};
use cli_compose::schema::{EntryKind, Flag, SchemaEntry};
use cli_compose::value::ValueParser;

fn text(raw: &str) -> String {
    raw.to_string()
}

fn declared(ident: &str, shape: Shape) -> Declaration {
    Declaration { ident: text(ident), shape, doc: text("what it is for") }
}

fn name_is(value: &str) -> MetaItem {
    MetaItem::NameValue(Some(text("name")), MetaValue::Text(text(value)))
}

#[test]
fn only_a_single_unnamed_field_is_a_valid_struct() {
    assert_eq!(validate_struct(Shape::Struct(FieldStyle::Unnamed, 1)), Ok(()));
    assert_eq!(validate_struct(Shape::Struct(FieldStyle::Unnamed, 0)), Err(InvalidStruct));
    assert_eq!(validate_struct(Shape::Struct(FieldStyle::Unnamed, 2)), Err(InvalidStruct));
    assert_eq!(validate_struct(Shape::Struct(FieldStyle::Named, 1)), Err(InvalidStruct));
    assert_eq!(validate_struct(Shape::Struct(FieldStyle::Unit, 0)), Err(InvalidStruct));
    assert_eq!(validate_struct(Shape::Enum), Err(InvalidStruct));
    assert_eq!(validate_struct(Shape::Union), Err(InvalidStruct));
}

#[test]
fn invalid_struct_in_words() {
    assert_eq!(
        InvalidStruct.message(),
        "#[derive(Arg)] can only be applied to structs with single unnamed field"
    );
    assert_eq!(DeriveError::InvalidStruct.message(), InvalidStruct.message());
}

#[test]
fn attribute_without_items_sets_nothing() {
    assert_eq!(extract_arg_attr(&Vec::new()), Ok(ArgAttr { name: None }));
}

#[test]
fn attribute_sets_the_name() {
    assert_eq!(extract_arg_attr(&vec![name_is("source")]), Ok(ArgAttr { name: Some(text("source")) }));
}

#[test]
fn last_name_of_an_attribute_stands() {
    assert_eq!(
        extract_arg_attr(&vec![name_is("one"), name_is("two")]),
        Ok(ArgAttr { name: Some(text("two")) })
    );
}

#[test]
fn literal_in_an_attribute_is_a_fault() {
    let error = extract_arg_attr(&vec![name_is("one"), MetaItem::Literal]).unwrap_err();
    assert_eq!(error, AttrError { fault: AttrFault::Literal, at: 1 });
    assert_eq!(error.message(), "Literals in #[arg(..)] are not allowed");
}

#[test]
fn item_that_is_no_setting_is_a_fault() {
    let error = extract_arg_attr(&vec![MetaItem::Other, MetaItem::Literal]).unwrap_err();
    assert_eq!(error, AttrError { fault: AttrFault::Metadata, at: 0 });
    assert_eq!(error.message(), "Metadata in #[arg(..)] is invalid");
}

#[test]
fn name_that_is_no_string_is_a_fault() {
    let items = vec![MetaItem::NameValue(Some(text("name")), MetaValue::Other)];
    let error = extract_arg_attr(&items).unwrap_err();
    assert_eq!(error, AttrError { fault: AttrFault::NameNotText, at: 0 });
    assert_eq!(error.message(), "#[arg(name = ..)] must be a string literal");
}

#[test]
fn other_key_is_a_fault() {
    let items = vec![
        name_is("one"),
        name_is("two"),
        MetaItem::NameValue(Some(text("long")), MetaValue::Text(text("x"))),
    ];
    let error = extract_arg_attr(&items).unwrap_err();
    assert_eq!(error, AttrError { fault: AttrFault::UnexpectedKey, at: 2 });
    assert_eq!(error.message(), "Unexpected key in #[arg(..)]");
    let pathed = vec![MetaItem::NameValue(None, MetaValue::Text(text("x")))];
    assert_eq!(extract_arg_attr(&pathed), Err(AttrError { fault: AttrFault::UnexpectedKey, at: 0 }));
}

#[test]
fn set_name_goes_before_the_spelling_of_the_type() {
    assert_eq!(name_for("InputFormat", Some(&text("fmt"))), "fmt");
    assert_eq!(name_for("InputFormat", None), "input-format");
}

#[test]
fn type_names_are_spelled_in_kebab_case() {
    assert_eq!(name_for("Input", None), "input");
    assert_eq!(name_for("StdinFlag", None), "stdin-flag");
    assert_eq!(name_for("Output", None), "output");
    assert_eq!(name_for("Verbose", None), "verbose");
    assert_eq!(name_for("", None), "");
}

#[test]
fn positional_goes_by_the_spelling_of_its_type() {
    let descriptor =
        derive_arg(&declared("InputFile", Shape::Struct(FieldStyle::Unnamed, 1)), &Vec::new());
    assert_eq!(
        descriptor,
        Ok(ArgDescriptor { name: text("input-file"), description: text("what it is for") })
    );
}

#[test]
fn positional_goes_by_the_name_that_is_set() {
    let descriptor =
        derive_arg(&declared("InputFile", Shape::Struct(FieldStyle::Unnamed, 1)), &vec![name_is("src")]);
    assert_eq!(
        descriptor,
        Ok(ArgDescriptor { name: text("src"), description: text("what it is for") })
    );
}

#[test]
fn positional_of_another_shape_is_refused_first() {
    assert_eq!(
        derive_arg(&declared("Input", Shape::Enum), &vec![MetaItem::Literal]),
        Err(DeriveError::InvalidStruct)
    );
    assert_eq!(
        derive_arg(&declared("Input", Shape::Struct(FieldStyle::Named, 1)), &Vec::new()),
        Err(DeriveError::InvalidStruct)
    );
}

#[test]
fn positional_with_a_faulty_attribute_is_refused() {
    let outcome =
        derive_arg(&declared("Input", Shape::Struct(FieldStyle::Unnamed, 1)), &vec![MetaItem::Literal]);
    let error = outcome.unwrap_err();
    assert_eq!(error, DeriveError::Attribute(AttrError { fault: AttrFault::Literal, at: 0 }));
    assert_eq!(error.message(), "Literals in #[arg(..)] are not allowed");
}

#[test]
fn positional_descriptor_makes_a_positional() {
    let descriptor = ArgDescriptor { name: text("input"), description: text("the file") };
    assert_eq!(
        descriptor.entry(None, ValueParser::Text),
        SchemaEntry::positional(text("input"), text("the file"), None, ValueParser::Text)
    );
}

#[test]
fn enum_without_attribute_is_a_long_only_flag() {
    let descriptor = derive_arg_opt(&declared("InputFormat", Shape::Enum), None);
    assert_eq!(
        descriptor,
        Ok(ArgOptDescriptor {
            flag: Flag::LongOnly(text("input-format")),
            description: text("what it is for"),
            target: ParseTarget::Itself,
        })
    );
}

#[test]
fn struct_with_short_character_has_both_forms() {
    let attr = ArgOptAttr { long: None, short: Some('o') };
    let descriptor =
        derive_arg_opt(&declared("Output", Shape::Struct(FieldStyle::Unnamed, 1)), Some(attr));
    assert_eq!(
        descriptor,
        Ok(ArgOptDescriptor {
            flag: Flag::BothLongAndShort(text("output"), 'o'),
            description: text("what it is for"),
            target: ParseTarget::Field,
        })
    );
}

#[test]
fn set_long_name_goes_before_the_spelling_of_the_type() {
    let attr = ArgOptAttr { long: Some(text("out")), short: None };
    let descriptor =
        derive_arg_opt(&declared("Output", Shape::Struct(FieldStyle::Named, 1)), Some(attr));
    assert_eq!(
        descriptor,
        Ok(ArgOptDescriptor {
            flag: Flag::LongOnly(text("out")),
            description: text("what it is for"),
            target: ParseTarget::Field,
        })
    );
}

#[test]
fn attribute_that_sets_nothing_changes_nothing() {
    let attr = ArgOptAttr { long: None, short: None };
    assert_eq!(
        derive_arg_opt(&declared("Output", Shape::Enum), Some(attr)),
        derive_arg_opt(&declared("Output", Shape::Enum), None)
    );
}

#[test]
fn other_shapes_are_unsupported() {
    let shapes = vec![
        Shape::Union,
        Shape::Struct(FieldStyle::Unit, 0),
        Shape::Struct(FieldStyle::Unnamed, 2),
        Shape::Struct(FieldStyle::Named, 3),
    ];
    for shape in shapes {
        let attr = ArgOptAttr { long: Some(text("x")), short: Some('x') };
        assert_eq!(
            derive_arg_opt(&declared("Output", shape), Some(attr)),
            Err(DeriveError::UnsupportedShape)
        );
    }
    assert_eq!(
        DeriveError::UnsupportedShape.message(),
        "#[derive(ArgOpt)] can only be applied to structs with single unnamed field or enums"
    );
}

#[test]
fn flag_descriptor_makes_a_flag_with_a_value() {
    let descriptor = ArgOptDescriptor {
        flag: Flag::BothLongAndShort(text("output"), 'o'),
        description: text("the file"),
        target: ParseTarget::Field,
    };
    let entry = descriptor.entry(Some(text("a.out")), ValueParser::Text);
    assert_eq!(entry.kind, EntryKind::FlagArg);
    assert_eq!(entry.long_name, "output");
    assert_eq!(entry.short, Some('o'));
    assert_eq!(entry.description, "the file");
    assert_eq!(entry.default, Some(text("a.out")));
    assert_eq!(entry.parser, ValueParser::Text);
}
