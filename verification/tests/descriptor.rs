use cli_compose::descriptor::{
    flag_arg_of, flag_from_forms, flag_of, group_of, positional_of, AsArg, AsFlag, AsFlagArg, AsGroup,
};
use cli_compose::parsed::{Resolved, Selection};
use cli_compose::resolver::resolve;
use cli_compose::schema::{AlternativeDecl, EntryKind, Flag, Schema, SchemaEntry};
use cli_compose::token::{parse_into_tokens, LongFlag, ShortFlag};
use cli_compose::value::{TypedValue, ValueParser};

fn text(raw: &str) -> String {
    raw.to_string()
}

struct Input;

impl AsArg for Input {
    fn name() -> String {
        text("input")
    }

    fn description() -> String {
        text("the source file")
    }
}

struct StdinFlag;

impl AsFlag for StdinFlag {
    fn long() -> LongFlag {
        LongFlag::new("stdin")
    }

    fn short() -> Option<ShortFlag> {
        None
    }

    fn description() -> String {
        text("read the standard input")
    }
}

struct Verbose;

impl AsFlag for Verbose {
    fn long() -> LongFlag {
        LongFlag::new("verbose")
    }

    fn short() -> Option<ShortFlag> {
        Some(ShortFlag::new('v'))
    }

    fn description() -> String {
        String::new()
    }
}

#[derive(Debug, PartialEq)]
enum InputFormat {
    Json,
    Yaml,
}

impl AsFlagArg for InputFormat {
    fn long() -> LongFlag {
        LongFlag::new("input-format")
    }

    fn short() -> Option<ShortFlag> {
        None
    }

    fn description() -> String {
        text("the format of the input")
    }

    fn parse(s: &str) -> Option<Self> {
        match s {
            "json" => Some(InputFormat::Json),
            "yaml" => Some(InputFormat::Yaml),
            _ => None,
        }
    }
}

struct InputGroup;

impl AsGroup for InputGroup {
    fn name() -> String {
        text("input-group")
    }

    fn description() -> String {
        text("where the input comes from")
    }
}

#[test]
fn forms_make_the_addressing() {
    assert_eq!(flag_from_forms(LongFlag::new("stdin"), None), Flag::LongOnly(text("stdin")));
    assert_eq!(
        flag_from_forms(LongFlag::new("output"), Some(ShortFlag::new('o'))),
        Flag::BothLongAndShort(text("output"), 'o')
    );
}

#[test]
fn described_positional() {
    assert_eq!(
        positional_of::<Input>(Some(text("-")), ValueParser::Text),
        SchemaEntry {
            kind: EntryKind::Positional,
            long_name: text("input"),
            short: None,
            description: text("the source file"),
            default: Some(text("-")),
            parser: ValueParser::Text,
        }
    );
}

#[test]
fn described_flags() {
    assert_eq!(
        flag_of::<StdinFlag>(),
        SchemaEntry::flag(Flag::LongOnly(text("stdin")), text("read the standard input"))
    );
    assert_eq!(
        flag_of::<Verbose>(),
        SchemaEntry::flag(Flag::BothLongAndShort(text("verbose"), 'v'), String::new())
    );
}

#[test]
fn described_flag_with_value() {
    let parser = ValueParser::Choice(vec![text("json"), text("yaml")]);
    assert_eq!(
        flag_arg_of::<InputFormat>(Some(text("json")), parser.clone()),
        SchemaEntry::flag_arg(
            Flag::LongOnly(text("input-format")),
            text("the format of the input"),
            Some(text("json")),
            parser,
        )
    );
}

#[test]
fn described_group() {
    let group = group_of::<InputGroup>(
        true,
        vec![AlternativeDecl { tag: text("Stdin"), entry: flag_of::<StdinFlag>() }],
    );
    assert_eq!(group.name, "input-group");
    assert_eq!(group.description, "where the input comes from");
    assert!(group.mandatory);
    assert_eq!(group.alternatives.len(), 1);
    assert_eq!(group.alternatives[0].tag, "Stdin");
}

#[test]
fn described_schema_resolves() {
    let group = group_of::<InputGroup>(
        true,
        vec![
            AlternativeDecl { tag: text("File"), entry: positional_of::<Input>(None, ValueParser::Text) },
            AlternativeDecl { tag: text("Stdin"), entry: flag_of::<StdinFlag>() },
        ],
    );
    let schema = Schema::new()
        .with_group(&group)
        .unwrap()
        .with_entry(flag_arg_of::<InputFormat>(Some(text("json")), ValueParser::Text))
        .unwrap()
        .with_entry(flag_of::<Verbose>())
        .unwrap();
    let items = vec![text("-v"), text("--input-format"), text("yaml"), text("a.txt")];
    let parsed = resolve(&schema, &parse_into_tokens(&items)).unwrap();
    assert_eq!(parsed.selection_of("input-group"), Some(&Selection::Chosen(0, text("File"))));
    assert_eq!(parsed.value_of("verbose"), Some(&Resolved::Flag(true)));
    let format = match parsed.value_of("input-format") {
        Some(Resolved::Value(TypedValue::Text(raw))) => InputFormat::parse(raw),
        _ => None,
    };
    assert_eq!(format, Some(InputFormat::Yaml));
}
