use vstd::prelude::*;

verus! {

/// The kinds of token the tokenizer can emit.
#[derive(Debug, Clone, Copy, PartialEq, Eq, Structural)]
pub enum TokenType {
    // Binary operators
    Plus,
    Minus,
    Star,
    Slash,
    Percent,
    // Symbols
    Equals,
    Bang,
    // Literals
    StringLit,
    NumberLit,
    Type,
    // Keywords
    Cout,
    // Other
    NewLn,
    EndFile,
}

/// A classified, line-stamped fragment of source text.
#[derive(Debug, Clone)]
pub struct Token {
    pub token_type: TokenType,
    pub lexeme: String,
    pub line: usize,
}

/// The mathematical value of a token: its kind, its text and its line.
pub struct LexToken {
    pub kind: TokenType,
    pub text: Seq<char>,
    pub line: nat,
}

impl View for Token {
    type V = LexToken;

    open spec fn view(&self) -> LexToken {
        LexToken { kind: self.token_type, text: self.lexeme@, line: self.line as nat }
    }
}

/// The text carried by the end-of-input sentinel.
pub open spec fn end_text() -> Seq<char> {
    "<-- END OF FILE -->"@
}

/// The end-of-input sentinel stamped with `line`.
pub open spec fn end_token(line: nat) -> LexToken {
    LexToken { kind: TokenType::EndFile, text: end_text(), line }
}

impl Token {
    pub fn new(token_type: TokenType, lexeme: String, line: usize) -> (r: Self)
        ensures
            r.token_type == token_type,
            r.lexeme == lexeme,
            r.line == line,
    {
        Token { token_type, lexeme, line }
    }

    /// The end-of-input sentinel for the given line.
    pub fn end(line: usize) -> (r: Self)
        ensures
            r@ == end_token(line as nat),
    {
        let token_type = TokenType::EndFile;
        let lexeme = "<-- END OF FILE -->".to_owned();
        Token { token_type, lexeme, line }
    }
}

impl PartialEq for Token {
    fn eq(&self, other: &Token) -> (r: bool) {
        self.token_type == other.token_type && self.lexeme == other.lexeme && self.line
            == other.line
    }
}

impl vstd::std_specs::cmp::PartialEqSpecImpl for Token {
    open spec fn obeys_eq_spec() -> bool {
        true
    }

    open spec fn eq_spec(&self, other: &Token) -> bool {
        self@ == other@
    }
}

} // verus!
