use vstd::prelude::*;

verus! {

/// The lexical categories of the language.
#[derive(Clone, Copy, Debug, PartialEq, Eq, Structural)]
#[allow(non_camel_case_types, clippy::upper_case_acronyms)]
pub enum Token {
    Delete,
    Select,
    Value,
    Template,
    Instance,
    End,
    Create,
    Query,
    SetField,
    From,
    StringType,
    IntegerType,
    FloatType,
    ENDL,
    Literal,
    Integer,
    Float,
}

/// One token occurrence in the source: its kind, its text, the character
/// offsets `[start, end)` it spans, and the priority of its pattern.
#[derive(Debug, Clone)]
pub struct TokenMatch {
    pub token: Token,
    pub value: String,
    pub start: usize,
    pub end: usize,
    pub priority: u8,
}

/// The model of a [`TokenMatch`].
pub struct Lexeme {
    pub token: Token,
    pub value: Seq<char>,
    pub start: usize,
    pub end: usize,
    pub priority: u8,
}

impl View for TokenMatch {
    type V = Lexeme;

    open spec fn view(&self) -> Lexeme {
        Lexeme {
            token: self.token,
            value: self.value@,
            start: self.start,
            end: self.end,
            priority: self.priority,
        }
    }
}

} // verus!
