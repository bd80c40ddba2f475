//! Typed values, and the parsers that make them from raw text.

use vstd::prelude::*;

verus! {

/// The value that a parser makes of a raw text.
#[derive(Debug, PartialEq, Eq)]
pub enum TypedValue {
    /// Free text, kept verbatim.
    Text(String),
    /// One of a list of spellings, named by its place in the list.
    Choice(usize),
}

/// What a typed value is, as mathematics.
pub enum ValueView {
    Text(Seq<char>),
    Choice(int),
}

impl View for TypedValue {
    type V = ValueView;

    open spec fn view(&self) -> ValueView {
        match self {
            TypedValue::Text(text) => ValueView::Text(text@),
            TypedValue::Choice(index) => ValueView::Choice(*index as int),
        }
    }
}

impl DeepView for TypedValue {
    type V = ValueView;

    open spec fn deep_view(&self) -> ValueView {
        self@
    }
}

impl Clone for TypedValue {
    fn clone(&self) -> (copy: Self)
        ensures
            copy@ == self@,
    {
        match self {
            TypedValue::Text(text) => TypedValue::Text(text.clone()),
            TypedValue::Choice(index) => TypedValue::Choice(*index),
        }
    }
}

/// How an entry reads its raw text: a pure function from a text to a typed
/// value or to nothing, held as data.
#[derive(Debug, PartialEq, Eq)]
pub enum ValueParser {
    /// Accepts every text and keeps it verbatim.
    Text,
    /// Accepts the listed spellings and no other text.
    Choice(Vec<String>),
}

/// What a parser is, as mathematics.
pub enum ParserView {
    Text,
    Choice(Seq<Seq<char>>),
}

impl View for ValueParser {
    type V = ParserView;

    open spec fn view(&self) -> ParserView {
        match self {
            ValueParser::Text => ParserView::Text,
            ValueParser::Choice(spellings) => ParserView::Choice(spellings.deep_view()),
        }
    }
}

impl DeepView for ValueParser {
    type V = ParserView;

    open spec fn deep_view(&self) -> ParserView {
        self@
    }
}

/// The place of the first spelling, at or after `from`, that equals `text`.
pub open spec fn first_spelling(spellings: Seq<Seq<char>>, text: Seq<char>, from: int) -> Option<int>
    decreases spellings.len() - from,
{
    if from < 0 || from >= spellings.len() {
        None
    } else if spellings[from] == text {
        Some(from)
    } else {
        first_spelling(spellings, text, from + 1)
    }
}

impl ParserView {
    /// The value that this parser makes of `text`, if it accepts it.
    pub open spec fn parsed(self, text: Seq<char>) -> Option<ValueView> {
        match self {
            ParserView::Text => Some(ValueView::Text(text)),
            ParserView::Choice(spellings) => match first_spelling(spellings, text, 0) {
                Some(index) => Some(ValueView::Choice(index)),
                None => None,
            },
        }
    }
}

/// A spelling is found exactly when the list holds the text, and what is found
/// is the first place that holds it.
pub proof fn lemma_first_spelling(spellings: Seq<Seq<char>>, text: Seq<char>, from: int)
    requires
        0 <= from,
    ensures
        match first_spelling(spellings, text, from) {
            Some(index) => {
                &&& from <= index < spellings.len()
                &&& spellings[index] == text
                &&& forall|k: int| from <= k < index ==> spellings[k] != text
            },
            None => forall|k: int| from <= k < spellings.len() ==> spellings[k] != text,
        },
    decreases spellings.len() - from,
{
    if from < spellings.len() && spellings[from] != text {
        lemma_first_spelling(spellings, text, from + 1);
    }
}

/// A parser of free text accepts every text; a parser of listed spellings
/// accepts the texts that its list holds, and no other.
pub proof fn law_parser_accepts(parser: ParserView, text: Seq<char>)
    ensures
        parser.parsed(text) is Some <==> match parser {
            ParserView::Text => true,
            ParserView::Choice(spellings) => spellings.contains(text),
        },
{
    match parser {
        ParserView::Text => {},
        ParserView::Choice(spellings) => {
            lemma_first_spelling(spellings, text, 0);
            if spellings.contains(text) {
                let k = choose|k: int| 0 <= k < spellings.len() && spellings[k] == text;
                assert(spellings[k] == text);
            }
        },
    }
}

impl ValueParser {
    /// Reads one raw text.
    pub fn parse(&self, text: &str) -> (value: Option<TypedValue>)
        ensures
            value.deep_view() == self@.parsed(text@),
    {
        match self {
            ValueParser::Text => Some(TypedValue::Text(text.to_owned())),
            ValueParser::Choice(spellings) => {
                let wanted = text.to_owned();
                let mut i: usize = 0;
                while i < spellings.len()
                    invariant
                        i <= spellings.len(),
                        wanted@ == text@,
                        self@ == ParserView::Choice(spellings.deep_view()),
                        first_spelling(spellings.deep_view(), text@, i as int) == first_spelling(
                            spellings.deep_view(),
                            text@,
                            0,
                        ),
                    decreases spellings.len() - i,
                {
                    assert(spellings.deep_view()[i as int] == spellings[i as int]@);
                    if spellings[i] == wanted {
                        return Some(TypedValue::Choice(i));
                    }
                    i += 1;
                }
                None
            },
        }
    }
}

impl Clone for ValueParser {
    fn clone(&self) -> (copy: Self)
        ensures
            copy@ == self@,
    {
        match self {
            ValueParser::Text => ValueParser::Text,
            ValueParser::Choice(spellings) => {
                let mut copied: Vec<String> = Vec::new();
                let mut i: usize = 0;
                while i < spellings.len()
                    invariant
                        i <= spellings.len(),
                        copied.len() == i,
                        forall|k: int| 0 <= k < i ==> copied[k]@ == spellings[k]@,
                    decreases spellings.len() - i,
                {
                    copied.push(spellings[i].clone());
                    i += 1;
                }
                assert(copied.deep_view() =~= spellings.deep_view());
                ValueParser::Choice(copied)
            },
        }
    }
}

} // verus!
