use cli_compose::token::{parse_into_tokens, tokenize_item, LongFlag, ShortFlag, Token};

fn items(raw: &[&str]) -> Vec<String> {
    raw.iter().map(|item| item.to_string()).collect()
}

#[test]
fn long_item_is_exactly_one_long_flag() {
    let tokens = parse_into_tokens(&items(&["--foo"]));
    assert_eq!(tokens, vec![Token::LongFlag("foo".to_string())]);
}

#[test]
fn long_item_keeps_inner_hyphens_and_equals() {
    let tokens = parse_into_tokens(&items(&["--dry-run", "--level=3"]));
    assert_eq!(
        tokens,
        vec![Token::LongFlag("dry-run".to_string()), Token::LongFlag("level=3".to_string())]
    );
}

#[test]
fn cluster_is_one_short_flag_per_character_in_order() {
    let tokens = parse_into_tokens(&items(&["-abc"]));
    assert_eq!(
        tokens,
        vec![Token::ShortFlag('a'), Token::ShortFlag('b'), Token::ShortFlag('c')]
    );
}

#[test]
fn other_items_are_values_verbatim() {
    let tokens = parse_into_tokens(&items(&["a.txt", "", "x-y", "a--b"]));
    assert_eq!(
        tokens,
        vec![
            Token::Value("a.txt".to_string()),
            Token::Value(String::new()),
            Token::Value("x-y".to_string()),
            Token::Value("a--b".to_string()),
        ]
    );
}

#[test]
fn no_items_no_tokens() {
    assert_eq!(parse_into_tokens(&Vec::new()), Vec::<Token>::new());
}

#[test]
fn first_item_is_not_skipped() {
    let tokens = parse_into_tokens(&items(&["prog", "-v"]));
    assert_eq!(tokens, vec![Token::Value("prog".to_string()), Token::ShortFlag('v')]);
}

#[test]
fn bare_double_hyphen_is_a_long_flag_with_no_name() {
    assert_eq!(tokenize_item("--"), vec![Token::LongFlag(String::new())]);
}

#[test]
fn bare_hyphen_makes_no_token() {
    assert_eq!(tokenize_item("-"), Vec::<Token>::new());
    assert_eq!(
        parse_into_tokens(&items(&["a", "-", "b"])),
        vec![Token::Value("a".to_string()), Token::Value("b".to_string())]
    );
}

#[test]
fn triple_hyphen_keeps_the_third() {
    assert_eq!(tokenize_item("---x"), vec![Token::LongFlag("-x".to_string())]);
}

#[test]
fn cluster_of_wide_characters() {
    assert_eq!(
        tokenize_item("-é日"),
        vec![Token::ShortFlag('é'), Token::ShortFlag('日')]
    );
    assert_eq!(tokenize_item("--één"), vec![Token::LongFlag("één".to_string())]);
}

#[test]
fn tokens_come_item_after_item() {
    let tokens = parse_into_tokens(&items(&["-ab", "--out", "x", "-c"]));
    assert_eq!(
        tokens,
        vec![
            Token::ShortFlag('a'),
            Token::ShortFlag('b'),
            Token::LongFlag("out".to_string()),
            Token::Value("x".to_string()),
            Token::ShortFlag('c'),
        ]
    );
}

#[test]
fn tokenizing_twice_gives_the_same_tokens() {
    let raw = items(&["-ab", "--out", "x"]);
    assert_eq!(parse_into_tokens(&raw), parse_into_tokens(&raw));
}

#[test]
fn long_flag_text() {
    assert_eq!(LongFlag::new("stdin").to_text(), "--stdin".to_string());
    assert_eq!(LongFlag::new("").to_text(), "--".to_string());
    assert_eq!(LongFlag::new("stdin"), LongFlag("stdin".to_string()));
}

#[test]
fn short_flag_holds_its_character() {
    assert_eq!(ShortFlag('o'), ShortFlag('o'));
    assert_ne!(ShortFlag('o'), ShortFlag('O'));
}

#[test]
fn short_flag_text() {
    assert_eq!(ShortFlag::new('o').to_text(), "-o".to_string());
    assert_eq!(ShortFlag::new('é').to_text(), "-é".to_string());
    assert_eq!(ShortFlag::new('o'), ShortFlag('o'));
}
