use cli_compose::error::{ErrorKind, FlagName, ResolutionError};
use cli_compose::parsed::{ParsedResult, Resolved, Selection};
use cli_compose::resolver::resolve;
use cli_compose::schema::{AlternativeDecl, Flag, GroupDecl, Schema, SchemaEntry};
use cli_compose::token::{parse_into_tokens, Token};
use cli_compose::value::{TypedValue, ValueParser};

fn text(raw: &str) -> String {
    raw.to_string()
}

fn run(schema: &Schema, raw: &[&str]) -> Result<ParsedResult, ResolutionError> {
    let items: Vec<String> = raw.iter().map(|item| item.to_string()).collect();
    resolve(schema, &parse_into_tokens(&items))
}

fn output_entry() -> SchemaEntry {
    SchemaEntry::flag_arg(
        Flag::BothLongAndShort(text("output"), 'o'),
        text("where the output goes"),
        None,
        ValueParser::Text,
    )
}

fn format_entry() -> SchemaEntry {
    SchemaEntry::flag_arg(
        Flag::LongOnly(text("input-format")),
        text("the format of the input"),
        Some(text("json")),
        ValueParser::Choice(vec![text("json"), text("yaml")]),
    )
}

fn input_group(mandatory: bool) -> GroupDecl {
    GroupDecl {
        name: text("input-group"),
        description: text("where the input comes from"),
        mandatory,
        alternatives: vec![
            AlternativeDecl {
                tag: text("File"),
                entry: SchemaEntry::positional(text("input"), text("the source file"), None, ValueParser::Text),
            },
            AlternativeDecl {
                tag: text("Stdin"),
                entry: SchemaEntry::flag(Flag::LongOnly(text("stdin")), text("read the standard input")),
            },
        ],
    }
}

fn playground() -> Schema {
    Schema::new()
        .with_group(&input_group(true))
        .unwrap()
        .with_entry(format_entry())
        .unwrap()
        .with_entry(output_entry())
        .unwrap()
        .with_entry(SchemaEntry::flag(Flag::BothLongAndShort(text("verbose"), 'v'), text("say more")))
        .unwrap()
}

fn kind_of(outcome: Result<ParsedResult, ResolutionError>) -> ErrorKind {
    outcome.unwrap_err().kind
}

#[test]
fn long_and_short_form_resolve_alike() {
    let schema = Schema::new().with_entry(output_entry()).unwrap();
    let by_long = run(&schema, &["--output", "x.txt"]).unwrap();
    let by_short = run(&schema, &["-o", "x.txt"]).unwrap();
    let expected = Resolved::Value(TypedValue::Text(text("x.txt")));
    assert_eq!(by_long.value_of("output"), Some(&expected));
    assert_eq!(by_short.value_of("output"), Some(&expected));
    assert_eq!(by_long, by_short);
}

#[test]
fn mandatory_positional_without_value_is_missing() {
    let schema = Schema::new()
        .with_entry(SchemaEntry::positional(text("input"), text(""), None, ValueParser::Text))
        .unwrap();
    assert_eq!(
        run(&schema, &[]),
        Err(ResolutionError { kind: ErrorKind::MissingPositional(text("input")), position: 0 })
    );
}

#[test]
fn second_mandatory_positional_is_missing_at_the_end() {
    let schema = Schema::new()
        .with_entry(SchemaEntry::positional(text("from"), text(""), None, ValueParser::Text))
        .unwrap()
        .with_entry(SchemaEntry::flag(Flag::LongOnly(text("force")), text("")))
        .unwrap()
        .with_entry(SchemaEntry::positional(text("to"), text(""), None, ValueParser::Text))
        .unwrap();
    assert_eq!(
        run(&schema, &["a", "--force"]),
        Err(ResolutionError { kind: ErrorKind::MissingPositional(text("to")), position: 2 })
    );
    let both = run(&schema, &["a", "--force", "b"]).unwrap();
    assert_eq!(both.value_of("from"), Some(&Resolved::Value(TypedValue::Text(text("a")))));
    assert_eq!(both.value_of("to"), Some(&Resolved::Value(TypedValue::Text(text("b")))));
    assert_eq!(both.value_of("force"), Some(&Resolved::Flag(true)));
}

#[test]
fn positional_with_default_may_be_left_out() {
    let schema = Schema::new()
        .with_entry(SchemaEntry::positional(text("input"), text(""), Some(text("-")), ValueParser::Text))
        .unwrap();
    let parsed = run(&schema, &[]).unwrap();
    assert_eq!(parsed.value_of("input"), Some(&Resolved::Value(TypedValue::Text(text("-")))));
}

#[test]
fn group_takes_the_file() {
    let parsed = run(&playground(), &["a.txt"]).unwrap();
    assert_eq!(parsed.selection_of("input-group"), Some(&Selection::Chosen(0, text("File"))));
    assert_eq!(parsed.value_of("input"), Some(&Resolved::Value(TypedValue::Text(text("a.txt")))));
    assert_eq!(parsed.value_of("stdin"), Some(&Resolved::Flag(false)));
}

#[test]
fn group_takes_the_standard_input() {
    let parsed = run(&playground(), &["--stdin"]).unwrap();
    assert_eq!(parsed.selection_of("input-group"), Some(&Selection::Chosen(1, text("Stdin"))));
    assert_eq!(parsed.value_of("input"), Some(&Resolved::Unset));
    assert_eq!(parsed.value_of("stdin"), Some(&Resolved::Flag(true)));
}

#[test]
fn group_with_both_alternatives_is_in_conflict() {
    assert_eq!(
        run(&playground(), &["a.txt", "--stdin"]),
        Err(ResolutionError {
            kind: ErrorKind::ConflictingGroup(text("input-group"), text("File"), text("Stdin")),
            position: 1,
        })
    );
    assert_eq!(
        run(&playground(), &["--stdin", "-v", "a.txt"]),
        Err(ResolutionError {
            kind: ErrorKind::ConflictingGroup(text("input-group"), text("File"), text("Stdin")),
            position: 2,
        })
    );
}

#[test]
fn mandatory_group_with_no_alternative_is_missing() {
    assert_eq!(
        run(&playground(), &[]),
        Err(ResolutionError { kind: ErrorKind::MissingGroup(text("input-group")), position: 0 })
    );
    assert_eq!(
        run(&playground(), &["-v"]),
        Err(ResolutionError { kind: ErrorKind::MissingGroup(text("input-group")), position: 1 })
    );
}

#[test]
fn optional_group_with_no_alternative_stays_unset() {
    let schema = Schema::new().with_group(&input_group(false)).unwrap();
    let parsed = run(&schema, &[]).unwrap();
    assert_eq!(parsed.selection_of("input-group"), Some(&Selection::Unset));
    assert_eq!(parsed.value_of("input"), Some(&Resolved::Unset));
    assert_eq!(parsed.value_of("stdin"), Some(&Resolved::Flag(false)));
}

#[test]
fn flag_with_value_at_the_end_misses_its_value() {
    let schema = Schema::new().with_entry(output_entry()).unwrap();
    assert_eq!(
        run(&schema, &["--output"]),
        Err(ResolutionError { kind: ErrorKind::MissingArgumentValue(text("output")), position: 0 })
    );
}

#[test]
fn flag_with_value_before_a_flag_misses_its_value() {
    assert_eq!(
        run(&playground(), &["a.txt", "-o", "--verbose"]),
        Err(ResolutionError { kind: ErrorKind::MissingArgumentValue(text("output")), position: 1 })
    );
}

#[test]
fn unknown_long_flag() {
    let schema = Schema::new().with_entry(output_entry()).unwrap();
    assert_eq!(
        run(&schema, &["--bogus"]),
        Err(ResolutionError {
            kind: ErrorKind::UnknownFlag(FlagName::Long(text("bogus"))),
            position: 0,
        })
    );
}

#[test]
fn unknown_short_flag_in_a_cluster() {
    assert_eq!(
        run(&playground(), &["a.txt", "-vx"]),
        Err(ResolutionError { kind: ErrorKind::UnknownFlag(FlagName::Short('x')), position: 2 })
    );
}

#[test]
fn positional_name_is_no_flag() {
    assert_eq!(
        kind_of(run(&playground(), &["--input", "a.txt"])),
        ErrorKind::UnknownFlag(FlagName::Long(text("input")))
    );
}

#[test]
fn absent_flag_with_default_takes_the_default() {
    let schema = Schema::new()
        .with_entry(SchemaEntry::flag_arg(
            Flag::LongOnly(text("format")),
            text(""),
            Some(text("json")),
            ValueParser::Text,
        ))
        .unwrap();
    let parsed = run(&schema, &[]).unwrap();
    assert_eq!(parsed.value_of("format"), Some(&Resolved::Value(TypedValue::Text(text("json")))));
}

#[test]
fn absent_choice_with_default_takes_the_default() {
    let parsed = run(&playground(), &["a.txt"]).unwrap();
    assert_eq!(parsed.value_of("input-format"), Some(&Resolved::Value(TypedValue::Choice(0))));
    assert_eq!(parsed.value_of("output"), Some(&Resolved::Unset));
    assert_eq!(parsed.value_of("verbose"), Some(&Resolved::Flag(false)));
}

#[test]
fn supplied_value_goes_before_the_default() {
    let parsed = run(&playground(), &["--input-format", "yaml", "a.txt"]).unwrap();
    assert_eq!(parsed.value_of("input-format"), Some(&Resolved::Value(TypedValue::Choice(1))));
}

#[test]
fn value_that_the_parser_refuses_is_invalid() {
    assert_eq!(
        run(&playground(), &["a.txt", "--input-format", "toml"]),
        Err(ResolutionError {
            kind: ErrorKind::InvalidValue(text("input-format"), text("toml")),
            position: 2,
        })
    );
}

#[test]
fn default_that_the_parser_refuses_is_invalid() {
    let schema = Schema::new()
        .with_entry(SchemaEntry::flag_arg(
            Flag::LongOnly(text("format")),
            text(""),
            Some(text("toml")),
            ValueParser::Choice(vec![text("json"), text("yaml")]),
        ))
        .unwrap();
    assert_eq!(
        run(&schema, &[]),
        Err(ResolutionError { kind: ErrorKind::InvalidValue(text("format"), text("toml")), position: 0 })
    );
    assert!(run(&schema, &["--format", "yaml"]).is_ok());
}

#[test]
fn positional_value_that_the_parser_refuses_is_invalid() {
    let schema = Schema::new()
        .with_entry(SchemaEntry::positional(
            text("mode"),
            text(""),
            None,
            ValueParser::Choice(vec![text("on"), text("off")]),
        ))
        .unwrap();
    assert_eq!(
        run(&schema, &["--", "maybe"]).unwrap_err().kind,
        ErrorKind::UnknownFlag(FlagName::Long(String::new()))
    );
    assert_eq!(
        run(&schema, &["maybe"]),
        Err(ResolutionError { kind: ErrorKind::InvalidValue(text("mode"), text("maybe")), position: 0 })
    );
    assert_eq!(
        run(&schema, &["off"]).unwrap().value_of("mode"),
        Some(&Resolved::Value(TypedValue::Choice(1)))
    );
}

#[test]
fn value_beyond_the_positionals_is_unexpected() {
    assert_eq!(
        run(&playground(), &["a.txt", "-v", "b.txt", "c.txt"]),
        Err(ResolutionError { kind: ErrorKind::UnexpectedPositional(text("b.txt")), position: 2 })
    );
}

#[test]
fn value_of_a_flag_is_no_loose_value() {
    let parsed = run(&playground(), &["-o", "out.txt", "a.txt"]).unwrap();
    assert_eq!(parsed.value_of("output"), Some(&Resolved::Value(TypedValue::Text(text("out.txt")))));
    assert_eq!(parsed.value_of("input"), Some(&Resolved::Value(TypedValue::Text(text("a.txt")))));
}

#[test]
fn latest_value_of_a_flag_stands() {
    let parsed = run(&playground(), &["a.txt", "-o", "one", "--output", "two"]).unwrap();
    assert_eq!(parsed.value_of("output"), Some(&Resolved::Value(TypedValue::Text(text("two")))));
}

#[test]
fn flag_given_twice_is_present() {
    let parsed = run(&playground(), &["a.txt", "-vv", "--verbose"]).unwrap();
    assert_eq!(parsed.value_of("verbose"), Some(&Resolved::Flag(true)));
}

#[test]
fn first_error_from_the_left_is_reported() {
    assert_eq!(
        kind_of(run(&playground(), &["--bogus", "--output"])),
        ErrorKind::UnknownFlag(FlagName::Long(text("bogus")))
    );
    assert_eq!(
        kind_of(run(&playground(), &["--output", "--bogus"])),
        ErrorKind::MissingArgumentValue(text("output"))
    );
}

#[test]
fn scan_errors_come_before_missing_positionals() {
    assert_eq!(
        kind_of(run(&playground(), &["--input-format", "toml"])),
        ErrorKind::InvalidValue(text("input-format"), text("toml"))
    );
}

#[test]
fn result_binds_every_entry_and_group_in_order() {
    let parsed = run(&playground(), &["a.txt"]).unwrap();
    let names: Vec<&str> = parsed.entries.iter().map(|binding| binding.name.as_str()).collect();
    assert_eq!(names, vec!["input", "stdin", "input-format", "output", "verbose"]);
    let groups: Vec<&str> = parsed.groups.iter().map(|binding| binding.name.as_str()).collect();
    assert_eq!(groups, vec!["input-group"]);
    assert_eq!(parsed.value_of("nothing"), None);
    assert_eq!(parsed.selection_of("nothing"), None);
}

#[test]
fn resolving_twice_gives_the_same_result() {
    let schema = playground();
    let tokens = vec![
        Token::Value(text("a.txt")),
        Token::ShortFlag('o'),
        Token::Value(text("b.txt")),
        Token::LongFlag(text("verbose")),
    ];
    assert_eq!(resolve(&schema, &tokens), resolve(&schema, &tokens));
    let failing = vec![Token::LongFlag(text("bogus"))];
    assert_eq!(resolve(&schema, &failing), resolve(&schema, &failing));
}

#[test]
fn empty_schema_resolves_nothing_to_nothing() {
    let parsed = run(&Schema::new(), &[]).unwrap();
    assert!(parsed.entries.is_empty());
    assert!(parsed.groups.is_empty());
    assert_eq!(
        run(&Schema::new(), &["x"]),
        Err(ResolutionError { kind: ErrorKind::UnexpectedPositional(text("x")), position: 0 })
    );
}

#[test]
fn optional_group_in_conflict_is_an_error_too() {
    let output = GroupDecl {
        name: text("output-group"),
        description: String::new(),
        mandatory: false,
        alternatives: vec![
            AlternativeDecl { tag: text("File"), entry: output_entry() },
            AlternativeDecl {
                tag: text("Stdout"),
                entry: SchemaEntry::flag(Flag::LongOnly(text("stdout")), String::new()),
            },
        ],
    };
    let schema = Schema::new().with_group(&output).unwrap();
    assert_eq!(
        run(&schema, &["--stdout", "-o", "x"]),
        Err(ResolutionError {
            kind: ErrorKind::ConflictingGroup(text("output-group"), text("File"), text("Stdout")),
            position: 1,
        })
    );
    let file = run(&schema, &["-o", "x"]).unwrap();
    assert_eq!(file.selection_of("output-group"), Some(&Selection::Chosen(0, text("File"))));
    let none = run(&schema, &[]).unwrap();
    assert_eq!(none.selection_of("output-group"), Some(&Selection::Unset));
}

#[test]
fn default_does_not_take_an_alternative() {
    let source = GroupDecl {
        name: text("source"),
        description: String::new(),
        mandatory: true,
        alternatives: vec![
            AlternativeDecl {
                tag: text("File"),
                entry: SchemaEntry::positional(
                    text("input"),
                    String::new(),
                    Some(text("in.txt")),
                    ValueParser::Text,
                ),
            },
            AlternativeDecl {
                tag: text("Stdin"),
                entry: SchemaEntry::flag(Flag::LongOnly(text("stdin")), String::new()),
            },
        ],
    };
    let schema = Schema::new().with_group(&source).unwrap();
    assert_eq!(
        run(&schema, &[]),
        Err(ResolutionError { kind: ErrorKind::MissingGroup(text("source")), position: 0 })
    );
    let parsed = run(&schema, &["--stdin"]).unwrap();
    assert_eq!(parsed.selection_of("source"), Some(&Selection::Chosen(1, text("Stdin"))));
    assert_eq!(parsed.value_of("input"), Some(&Resolved::Value(TypedValue::Text(text("in.txt")))));
}

#[test]
fn short_flag_with_value_at_the_end_of_a_cluster() {
    let parsed = run(&playground(), &["-vo", "out.txt", "a.txt"]).unwrap();
    assert_eq!(parsed.value_of("verbose"), Some(&Resolved::Flag(true)));
    assert_eq!(parsed.value_of("output"), Some(&Resolved::Value(TypedValue::Text(text("out.txt")))));
    assert_eq!(
        run(&playground(), &["a.txt", "-ov", "out.txt"]),
        Err(ResolutionError { kind: ErrorKind::MissingArgumentValue(text("output")), position: 1 })
    );
    assert_eq!(
        kind_of(run(&playground(), &["a.txt", "-oout.txt"])),
        ErrorKind::MissingArgumentValue(text("output"))
    );
}

#[test]
fn empty_value_is_a_value() {
    let parsed = run(&playground(), &["", "-o", ""]).unwrap();
    assert_eq!(parsed.value_of("input"), Some(&Resolved::Value(TypedValue::Text(String::new()))));
    assert_eq!(parsed.value_of("output"), Some(&Resolved::Value(TypedValue::Text(String::new()))));
}
