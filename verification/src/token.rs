//! Tokens, and the single pass that turns raw items into them.

use vstd::prelude::*;
use vstd::string::*;

verus! {

/// The long form of a flag: a name that is written after two hyphens.
#[derive(Clone, Debug, PartialEq, Eq)]
pub struct LongFlag(pub String);

/// The short form of a flag: one character that is written after one hyphen.
#[derive(Clone, Copy, Debug, PartialEq, Eq)]
pub struct ShortFlag(pub char);

impl View for LongFlag {
    type V = Seq<char>;

    open spec fn view(&self) -> Seq<char> {
        self.0@
    }
}

impl View for ShortFlag {
    type V = char;

    open spec fn view(&self) -> char {
        self.0
    }
}

impl LongFlag {
    /// A long flag of the given name, which is taken without its hyphens.
    pub fn new(s: &str) -> (flag: Self)
        ensures
            flag@ == s@,
    {
        LongFlag(s.to_owned())
    }

    /// The flag as it is written on a command line: two hyphens, then the name.
    pub fn to_text(&self) -> (text: String)
        ensures
            text@ == seq!['-', '-'] + self@,
    {
        proof {
            reveal_strlit("--");
        }
        let text = String::from_str("--").concat(self.0.as_str());
        assert("--"@ =~= seq!['-', '-']);
        text
    }
}

/// `String::push` of std: the character is appended at the end of the text.
#[verifier::external_body]
fn push_char(text: &mut String, c: char)
    ensures
        final(text)@ == old(text)@.push(c),
{
    text.push(c);
}

impl ShortFlag {
    /// A short flag of the given character.
    pub fn new(c: char) -> (flag: Self)
        ensures
            flag@ == c,
    {
        ShortFlag(c)
    }

    /// The flag as it is written on a command line: one hyphen, then the
    /// character.
    pub fn to_text(&self) -> (text: String)
        ensures
            text@ == seq!['-', self@],
    {
        proof {
            reveal_strlit("-");
        }
        let mut text = String::from_str("-");
        push_char(&mut text, self.0);
        assert(text@ =~= seq!['-', self@]);
        text
    }
}

/// One classified unit of a command line.
#[derive(Clone, Debug, PartialEq, Eq)]
pub enum Token {
    /// An item that began with two hyphens; holds what followed them.
    LongFlag(String),
    /// One character of an item that began with a single hyphen.
    ShortFlag(char),
    /// Any other item, verbatim.
    Value(String),
}

/// What a token is, as mathematics.
pub enum TokenView {
    LongFlag(Seq<char>),
    ShortFlag(char),
    Value(Seq<char>),
}

impl View for Token {
    type V = TokenView;

    open spec fn view(&self) -> TokenView {
        match self {
            Token::LongFlag(name) => TokenView::LongFlag(name@),
            Token::ShortFlag(c) => TokenView::ShortFlag(*c),
            Token::Value(text) => TokenView::Value(text@),
        }
    }
}

impl DeepView for Token {
    type V = TokenView;

    open spec fn deep_view(&self) -> TokenView {
        self@
    }
}

/// The token that one character of a cluster of short flags makes.
pub open spec fn short_flag_token(c: char) -> TokenView {
    TokenView::ShortFlag(c)
}

/// The tokens of one raw item.
///
/// Two leading hyphens make one long flag of the rest; a single leading hyphen
/// makes one short flag of each character that follows, in order; anything else
/// is a value, the empty item included.
pub open spec fn item_tokens(item: Seq<char>) -> Seq<TokenView> {
    if item.len() >= 2 && item[0] == '-' && item[1] == '-' {
        seq![TokenView::LongFlag(item.skip(2))]
    } else if item.len() >= 1 && item[0] == '-' {
        item.skip(1).map_values(|c: char| short_flag_token(c))
    } else {
        seq![TokenView::Value(item)]
    }
}

/// The tokens of a sequence of raw items: those of each item, one item after
/// the other.
pub open spec fn tokens_of(items: Seq<Seq<char>>) -> Seq<TokenView>
    decreases items.len(),
{
    if items.len() == 0 {
        Seq::empty()
    } else {
        tokens_of(items.drop_last()) + item_tokens(items.last())
    }
}

/// Splits one raw item into its tokens.
pub fn tokenize_item(item: &str) -> (tokens: Vec<Token>)
    ensures
        tokens.deep_view() == item_tokens(item@),
{
    let n: usize = item.unicode_len();
    let mut tokens: Vec<Token> = Vec::new();
    if n >= 2 && item.get_char(0) == '-' && item.get_char(1) == '-' {
        let name = item.substring_char(2, n).to_owned();
        tokens.push(Token::LongFlag(name));
        assert(tokens.deep_view() =~= item_tokens(item@));
    } else if n >= 1 && item.get_char(0) == '-' {
        let mut i: usize = 1;
        while i < n
            invariant
                1 <= i <= n,
                n == item@.len(),
                item@[0] == '-',
                n >= 2 ==> item@[1] != '-',
                tokens.len() == i - 1,
                forall|k: int| 0 <= k < tokens.len() ==> tokens[k]@ == TokenView::ShortFlag(item@[k + 1]),
            decreases n - i,
        {
            tokens.push(Token::ShortFlag(item.get_char(i)));
            i += 1;
        }
        assert forall|k: int| 0 <= k < tokens.len() implies #[trigger] tokens.deep_view()[k]
            == item_tokens(item@)[k] by {
            assert(tokens.deep_view()[k] == tokens[k]@);
        }
        assert(tokens.deep_view() =~= item_tokens(item@));
    } else {
        tokens.push(Token::Value(item.to_owned()));
        assert(tokens.deep_view() =~= item_tokens(item@));
    }
    tokens
}

/// Splits raw items into tokens, in one pass from left to right.
///
/// The items are what followed the program's name on the command line: the
/// caller has taken that name off.
pub fn parse_into_tokens(args: &Vec<String>) -> (tokens: Vec<Token>)
    ensures
        tokens.deep_view() == tokens_of(args.deep_view()),
{
    let mut tokens: Vec<Token> = Vec::new();
    let mut i: usize = 0;
    while i < args.len()
        invariant
            i <= args.len(),
            tokens.deep_view() == tokens_of(args.deep_view().take(i as int)),
        decreases args.len() - i,
    {
        let mut item = tokenize_item(args[i].as_str());
        proof {
            let items = args.deep_view();
            assert(items.take(i + 1).drop_last() =~= items.take(i as int));
            assert(items.take(i + 1).last() == args[i as int]@);
        }
        let ghost before = tokens.deep_view();
        let ghost added = item.deep_view();
        tokens.append(&mut item);
        assert(tokens.deep_view() =~= before + added);
        i += 1;
    }
    assert(args.deep_view().take(i as int) =~= args.deep_view());
    tokens
}

} // verus!
