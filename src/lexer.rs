use vstd::prelude::*;
use vstd::string::*;
use crate::number::{is_digit, number_value, read_number};
use crate::token::{end_token, LexToken, Token, TokenType};

verus! {

/// The ways tokenization can fail.
#[derive(Debug, Clone, Copy, PartialEq, Eq, Structural)]
pub enum LexErrorKind {
    /// A `"` with no closing `"` before the end of input.
    UnterminatedString,
    /// A digit run that is no valid integer or float literal.
    MalformedNumber,
    /// A character that starts no token.
    UnrecognizedChar,
    /// A word that is not a known keyword.
    UnresolvedIdentifier,
}

/// A tokenization failure: what went wrong, the offending text and its line.
#[derive(Debug, Clone)]
pub struct LexError {
    pub kind: LexErrorKind,
    pub lexeme: String,
    pub line: usize,
}

pub struct LexFault {
    pub kind: LexErrorKind,
    pub text: Seq<char>,
    pub line: nat,
}

impl View for LexError {
    type V = LexFault;

    open spec fn view(&self) -> LexFault {
        LexFault { kind: self.kind, text: self.lexeme@, line: self.line as nat }
    }
}

/// What `char::is_alphanumeric` answers for `c`.
pub uninterp spec fn alphanumeric(c: char) -> bool;

/// Relies on `char::is_alphanumeric`: whether `c` is a Unicode letter or number.
#[verifier::external_body]
fn is_alphanumeric(c: char) -> (r: bool)
    ensures
        r == alphanumeric(c),
{
    c.is_alphanumeric()
}

/// Relies on `String::push`: appends `c` at the end of `s`.
#[verifier::external_body]
fn push_char(s: &mut String, c: char)
    ensures
        final(s)@ == old(s)@.push(c),
{
    s.push(c);
}

pub open spec fn is_blank(c: char) -> bool {
    c == ' ' || c == '\r' || c == '\t'
}

/// The kind of a one-character symbol token.
pub open spec fn symbol_kind(c: char) -> Option<TokenType> {
    if c == '=' {
        Some(TokenType::Equals)
    } else if c == '!' {
        Some(TokenType::Bang)
    } else if c == '+' {
        Some(TokenType::Plus)
    } else if c == '-' {
        Some(TokenType::Minus)
    } else if c == '/' {
        Some(TokenType::Slash)
    } else if c == '*' {
        Some(TokenType::Star)
    } else {
        None
    }
}

pub open spec fn is_word_char(c: char) -> bool {
    alphanumeric(c) || c == '_'
}

/// The index of the first `"` at or after `j`, or the length of `s`.
pub open spec fn quote_end(s: Seq<char>, j: int) -> int
    decreases s.len() - j,
{
    if j < s.len() && s[j] != '"' {
        quote_end(s, j + 1)
    } else {
        j
    }
}

/// The end of the number run from `j`: digits and `_`, and one `.` unless
/// `dot` says one was already taken.
pub open spec fn number_end(s: Seq<char>, j: int, dot: bool) -> int
    decreases s.len() - j,
{
    if j < s.len() && (is_digit(s[j]) || s[j] == '_' || (s[j] == '.' && !dot)) {
        number_end(s, j + 1, dot || s[j] == '.')
    } else {
        j
    }
}

/// The end of the run of alphanumerics and `_` from `j`.
pub open spec fn word_end(s: Seq<char>, j: int) -> int
    decreases s.len() - j,
{
    if j < s.len() && is_word_char(s[j]) {
        word_end(s, j + 1)
    } else {
        j
    }
}

/// `t` with every `_` removed.
pub open spec fn strip_underscores(t: Seq<char>) -> Seq<char>
    decreases t.len(),
{
    if t.len() == 0 {
        t
    } else if t.last() == '_' {
        strip_underscores(t.drop_last())
    } else {
        strip_underscores(t.drop_last()).push(t.last())
    }
}

pub proof fn lemma_quote_end_bounds(s: Seq<char>, j: int)
    ensures
        quote_end(s, j) >= j,
        j <= s.len() ==> quote_end(s, j) <= s.len(),
    decreases s.len() - j,
{
    if j < s.len() && s[j] != '"' {
        lemma_quote_end_bounds(s, j + 1);
    }
}

pub proof fn lemma_number_end_bounds(s: Seq<char>, j: int, dot: bool)
    ensures
        number_end(s, j, dot) >= j,
        j <= s.len() ==> number_end(s, j, dot) <= s.len(),
    decreases s.len() - j,
{
    if j < s.len() && (is_digit(s[j]) || s[j] == '_' || (s[j] == '.' && !dot)) {
        lemma_number_end_bounds(s, j + 1, dot || s[j] == '.');
    }
}

pub proof fn lemma_word_end_bounds(s: Seq<char>, j: int)
    ensures
        word_end(s, j) >= j,
        j <= s.len() ==> word_end(s, j) <= s.len(),
    decreases s.len() - j,
{
    if j < s.len() && is_word_char(s[j]) {
        lemma_word_end_bounds(s, j + 1);
    }
}

pub open spec fn tok(kind: TokenType, text: Seq<char>, line: nat) -> LexToken {
    LexToken { kind, text, line }
}

pub open spec fn fault(kind: LexErrorKind, text: Seq<char>, line: nat) -> LexFault {
    LexFault { kind, text, line }
}

/// `acc` followed by the tokens of `r`, or the failure of `r`.
pub open spec fn prepend(acc: Seq<LexToken>, r: Result<Seq<LexToken>, LexFault>) -> Result<
    Seq<LexToken>,
    LexFault,
> {
    match r {
        Ok(ts) => Ok(acc + ts),
        Err(f) => Err(f),
    }
}

pub open spec fn keyword_text() -> Seq<char> {
    "cout"@
}

pub open spec fn newline_text() -> Seq<char> {
    "newline"@
}

/// The tokens of `s` from index `i` on, with the line counter at `line`:
/// blanks are skipped, each token is stamped with the line it starts on, and
/// the end of input adds one sentinel. The first malformed construct fails
/// the whole run.
pub open spec fn lex_from(s: Seq<char>, i: int, line: nat) -> Result<Seq<LexToken>, LexFault>
    decreases s.len() - i,
{
    if i < 0 || i >= s.len() {
        Ok(seq![end_token(line)])
    } else {
        let c = s[i];
        if is_blank(c) {
            lex_from(s, i + 1, line)
        } else if symbol_kind(c) is Some {
            prepend(seq![tok(symbol_kind(c)->0, seq![c], line)], lex_from(s, i + 1, line))
        } else if c == '"' {
            let j = quote_end(s, i + 1);
            proof {
                lemma_quote_end_bounds(s, i + 1);
            }
            if j >= s.len() {
                Err(fault(LexErrorKind::UnterminatedString, s.subrange(i + 1, s.len() as int), line))
            } else {
                prepend(seq![tok(TokenType::StringLit, s.subrange(i + 1, j), line)], lex_from(s, j + 1, line))
            }
        } else if c == '\n' {
            prepend(seq![tok(TokenType::NewLn, newline_text(), line)], lex_from(s, i + 1, line + 1))
        } else if is_digit(c) {
            let j = number_end(s, i, false);
            proof {
                lemma_number_end_bounds(s, i + 1, false);
            }
            let text = strip_underscores(s.subrange(i, j));
            if number_value(text) is None {
                Err(fault(LexErrorKind::MalformedNumber, text, line))
            } else {
                prepend(seq![tok(TokenType::NumberLit, text, line)], lex_from(s, j, line))
            }
        } else {
            let j = word_end(s, i);
            proof {
                lemma_word_end_bounds(s, i + 1);
            }
            if j == i {
                Err(fault(LexErrorKind::UnrecognizedChar, seq![c], line))
            } else if s.subrange(i, j) == keyword_text() {
                prepend(seq![tok(TokenType::Cout, keyword_text(), line)], lex_from(s, j, line))
            } else {
                Err(fault(LexErrorKind::UnresolvedIdentifier, s.subrange(i, j), line))
            }
        }
    }
}

/// The token stream of a whole source text.
pub open spec fn lex(s: Seq<char>) -> Result<Seq<LexToken>, LexFault> {
    lex_from(s, 0, 1)
}

pub open spec fn views(ts: Seq<Token>) -> Seq<LexToken> {
    ts.map_values(|t: Token| t@)
}

/// The tokenizer's state: the input, a cursor into it and the line counter.
pub struct Lexer {
    /// The tokens emitted so far.
    pub tokens: Vec<Token>,
    chars: Vec<char>,
    /// Index of the next character to read.
    pos: usize,
    line: usize,
    /// The source split into lines, kept for diagnostics.
    pub source: Vec<String>,
}

proof fn lemma_prepend_push(acc: Seq<LexToken>, t: LexToken, r: Result<Seq<LexToken>, LexFault>)
    ensures
        prepend(acc, prepend(seq![t], r)) == prepend(acc.push(t), r),
{
    match r {
        Ok(ts) => {
            assert(acc + (seq![t] + ts) =~= acc.push(t) + ts);
        },
        Err(_) => {},
    }
}

impl Lexer {
    /// Well-formed: the cursor is in range and the line counter cannot
    /// overflow before the input runs out.
    pub closed spec fn wf(&self) -> bool {
        &&& self.pos <= self.chars.len()
        &&& self.chars.len() < usize::MAX
        &&& 1 <= self.line <= self.pos + 1
    }

    /// The whole input.
    pub closed spec fn input(&self) -> Seq<char> {
        self.chars@
    }

    /// The tokens emitted so far, as values.
    pub closed spec fn emitted(&self) -> Seq<LexToken> {
        views(self.tokens@)
    }

    /// The source lines kept for diagnostics.
    pub closed spec fn source_lines(&self) -> Seq<String> {
        self.source@
    }

    /// Index of the next character to read.
    pub closed spec fn cursor(&self) -> int {
        self.pos as int
    }

    /// The current line number.
    pub closed spec fn line_no(&self) -> nat {
        self.line as nat
    }

    /// A tokenizer at the start of `chars`, on line 1.
    pub fn new(chars: Vec<char>, source: Vec<String>) -> (r: Self)
        requires
            chars.len() < usize::MAX,
        ensures
            r.wf(),
            r.input() == chars@,
            r.cursor() == 0,
            r.line_no() == 1,
            r.emitted() == Seq::<LexToken>::empty(),
            r.source_lines() == source@,
    {
        let tokens = Vec::new();
        let line: usize = 1;
        let r = Lexer { tokens, chars, pos: 0, line, source };
        assert(views(r.tokens@) =~= Seq::<LexToken>::empty());
        r
    }

    /// Moves the cursor past one character.
    fn advance(&mut self)
        requires
            old(self).wf(),
            old(self).pos < old(self).chars.len(),
        ensures
            final(self).wf(),
            final(self).pos == old(self).pos + 1,
            final(self).chars@ == old(self).chars@,
            final(self).line == old(self).line,
            final(self).tokens == old(self).tokens,
    {
        self.pos = self.pos + 1;
    }

    /// Tokenizes the rest of the input and appends the tokens, ending with
    /// one end-of-input sentinel; stops at the first malformed construct.
    pub fn scan(&mut self) -> (r: Result<(), LexError>)
        requires
            old(self).wf(),
        ensures
            final(self).wf(),
            final(self).input() == old(self).input(),
            match lex_from(old(self).input(), old(self).cursor(), old(self).line_no()) {
                Ok(ts) => r is Ok && final(self).emitted() == old(self).emitted() + ts,
                Err(f) => r matches Err(e) && e@ == f,
            },
    {
        let ghost s = self.chars@;
        let ghost outcome = lex_from(s, self.pos as int, self.line as nat);
        let ghost before = views(self.tokens@);
        let ghost mut acc: Seq<LexToken> = seq![];
        loop
            invariant
                self.wf(),
                self.chars@ == s,
                s == old(self).input(),
                outcome == lex_from(old(self).input(), old(self).cursor(), old(self).line_no()),
                before == old(self).emitted(),
                views(self.tokens@) == before + acc,
                outcome == prepend(acc, lex_from(s, self.pos as int, self.line as nat)),
            decreases s.len() - self.pos,
        {
            if self.pos >= self.chars.len() {
                self.end();
                proof {
                    assert(before + acc.push(end_token(self.line as nat)) =~= before + (acc
                        + seq![end_token(self.line as nat)]));
                }
                return Ok(());
            }
            let c = self.chars[self.pos];
            let line = self.line;
            if c == ' ' || c == '\r' || c == '\t' {
                self.advance();
                continue;
            }
            proof {
                lemma_quote_end_bounds(s, self.pos + 1);
                lemma_number_end_bounds(s, self.pos + 1, false);
                lemma_word_end_bounds(s, self.pos as int);
            }
            match self.match_symbol() {
                Err(e) => {
                    return Err(e);
                },
                Ok(Some(t)) => {
                    proof {
                        lemma_prepend_push(acc, t@, lex_from(s, self.pos as int, self.line as nat));
                        assert(before + acc.push(t@) =~= (before + acc).push(t@));
                        acc = acc.push(t@);
                    }
                    self.push_token(t);
                    continue;
                },
                Ok(None) => {},
            }
            if '0' <= c && c <= '9' {
                let text = self.take_number();
                if read_number(text.as_str()).is_none() {
                    return Err(LexError { kind: LexErrorKind::MalformedNumber, lexeme: text, line });
                }
                let t = Token::new(TokenType::NumberLit, text, line);
                proof {
                    lemma_prepend_push(acc, t@, lex_from(s, self.pos as int, self.line as nat));
                    assert(before + acc.push(t@) =~= (before + acc).push(t@));
                    acc = acc.push(t@);
                }
                self.push_token(t);
                continue;
            }
            let word = self.take_alphanum();
            if word.as_str().is_empty() {
                let mut lexeme = String::new();
                push_char(&mut lexeme, c);
                assert(lexeme@ =~= seq![c]);
                return Err(LexError { kind: LexErrorKind::UnrecognizedChar, lexeme, line });
            }
            match self.match_keyword(&word) {
                Some(t) => {
                    proof {
                        lemma_prepend_push(acc, t@, lex_from(s, self.pos as int, self.line as nat));
                        assert(before + acc.push(t@) =~= (before + acc).push(t@));
                        acc = acc.push(t@);
                    }
                    self.push_token(t);
                },
                None => {
                    return Err(LexError { kind: LexErrorKind::UnresolvedIdentifier, lexeme: word, line });
                },
            }
        }
    }

    /// Takes the characters up to the closing `"` (the opening one already
    /// read) and moves past it; fails when the input ends first.
    fn take_string(&mut self) -> (r: Result<String, LexError>)
        requires
            old(self).wf(),
        ensures
            final(self).wf(),
            final(self).chars@ == old(self).chars@,
            final(self).line == old(self).line,
            final(self).tokens == old(self).tokens,
            ({
                let s = old(self).chars@;
                let j = quote_end(s, old(self).pos as int);
                if j < s.len() {
                    r matches Ok(text) && text@ == s.subrange(old(self).pos as int, j)
                        && final(self).pos == j + 1
                } else {
                    r matches Err(e) && e@ == fault(
                        LexErrorKind::UnterminatedString,
                        s.subrange(old(self).pos as int, s.len() as int),
                        old(self).line as nat,
                    )
                }
            }),
    {
        let ghost s = self.chars@;
        let ghost start = self.pos as int;
        let ghost line = self.line;
        let ghost tokens = self.tokens;
        let mut buffer = String::new();
        while self.pos < self.chars.len() && self.chars[self.pos] != '"'
            invariant
                self.wf(),
                self.chars@ == s,
                self.line == line,
                self.tokens == tokens,
                0 <= start <= self.pos,
                buffer@ == s.subrange(start, self.pos as int),
                quote_end(s, start) == quote_end(s, self.pos as int),
            decreases s.len() - self.pos,
        {
            push_char(&mut buffer, self.chars[self.pos]);
            assert(s.subrange(start, self.pos + 1) =~= s.subrange(start, self.pos as int).push(
                s[self.pos as int],
            ));
            self.advance();
        }
        if self.pos < self.chars.len() {
            self.advance();
            Ok(buffer)
        } else {
            Err(LexError { kind: LexErrorKind::UnterminatedString, lexeme: buffer, line: self.line })
        }
    }

    /// Takes a run of digits, `_` and at most one `.`; the text returned
    /// leaves out the `_` separators.
    fn take_number(&mut self) -> (r: String)
        requires
            old(self).wf(),
            old(self).pos < old(self).chars.len(),
        ensures
            final(self).wf(),
            final(self).chars@ == old(self).chars@,
            final(self).line == old(self).line,
            final(self).tokens == old(self).tokens,
            final(self).pos == number_end(old(self).chars@, old(self).pos as int, false),
            r@ == strip_underscores(
                old(self).chars@.subrange(old(self).pos as int, final(self).pos as int),
            ),
    {
        let ghost s = self.chars@;
        let ghost start = self.pos as int;
        let ghost line = self.line;
        let ghost tokens = self.tokens;
        let mut buffer = String::new();
        let mut dot = false;
        loop
            invariant
                self.wf(),
                self.chars@ == s,
                self.line == line,
                self.tokens == tokens,
                0 <= start <= self.pos,
                buffer@ == strip_underscores(s.subrange(start, self.pos as int)),
                number_end(s, start, false) == number_end(s, self.pos as int, dot),
            ensures
                self.wf(),
                self.chars@ == s,
                self.line == line,
                self.tokens == tokens,
                self.pos == number_end(s, start, false),
                buffer@ == strip_underscores(s.subrange(start, self.pos as int)),
            decreases s.len() - self.pos,
        {
            if self.pos >= self.chars.len() {
                break;
            }
            let c = self.chars[self.pos];
            let sub = Ghost(s.subrange(start, self.pos + 1));
            assert(sub@.drop_last() =~= s.subrange(start, self.pos as int));
            if '0' <= c && c <= '9' {
                push_char(&mut buffer, c);
            } else if c == '_' {
            } else if c == '.' && !dot {
                push_char(&mut buffer, c);
                dot = true;
            } else {
                break;
            }
            self.advance();
        }
        buffer
    }

    /// Takes a run of alphanumerics and `_`, possibly empty.
    fn take_alphanum(&mut self) -> (r: String)
        requires
            old(self).wf(),
        ensures
            final(self).wf(),
            final(self).chars@ == old(self).chars@,
            final(self).line == old(self).line,
            final(self).tokens == old(self).tokens,
            final(self).pos == word_end(old(self).chars@, old(self).pos as int),
            r@ == old(self).chars@.subrange(old(self).pos as int, final(self).pos as int),
    {
        let ghost s = self.chars@;
        let ghost start = self.pos as int;
        let ghost line = self.line;
        let ghost tokens = self.tokens;
        let mut buffer = String::new();
        loop
            invariant
                self.wf(),
                self.chars@ == s,
                self.line == line,
                self.tokens == tokens,
                0 <= start <= self.pos,
                buffer@ == s.subrange(start, self.pos as int),
                word_end(s, start) == word_end(s, self.pos as int),
            ensures
                self.wf(),
                self.chars@ == s,
                self.line == line,
                self.tokens == tokens,
                self.pos == word_end(s, start),
                buffer@ == s.subrange(start, self.pos as int),
            decreases s.len() - self.pos,
        {
            if self.pos >= self.chars.len() {
                break;
            }
            let c = self.chars[self.pos];
            if !(c == '_' || is_alphanumeric(c)) {
                break;
            }
            push_char(&mut buffer, c);
            assert(s.subrange(start, self.pos + 1) =~= s.subrange(start, self.pos as int).push(c));
            self.advance();
        }
        buffer
    }

    /// The keyword token that `word` spells, if any.
    fn match_keyword(&self, word: &String) -> (r: Option<Token>)
        ensures
            word@ == keyword_text() ==> (r matches Some(t) && t@ == tok(
                TokenType::Cout,
                keyword_text(),
                self.line as nat,
            )),
            word@ != keyword_text() ==> r is None,
    {
        let keyword = "cout".to_owned();
        if word.eq(&keyword) {
            Some(Token::new(TokenType::Cout, keyword, self.line))
        } else {
            None
        }
    }

    /// Matches the character under the cursor as a one-character symbol, a
    /// string literal or a newline, and moves past what it matched.
    fn match_symbol(&mut self) -> (r: Result<Option<Token>, LexError>)
        requires
            old(self).wf(),
            old(self).pos < old(self).chars.len(),
        ensures
            final(self).wf(),
            final(self).chars@ == old(self).chars@,
            final(self).tokens == old(self).tokens,
            ({
                let s = old(self).chars@;
                let i = old(self).pos as int;
                let c = s[i];
                let line = old(self).line as nat;
                if symbol_kind(c) is Some {
                    &&& r matches Ok(Some(t)) && t@ == tok(symbol_kind(c)->0, seq![c], line)
                    &&& final(self).pos == i + 1
                    &&& final(self).line == line
                } else if c == '"' {
                    let j = quote_end(s, i + 1);
                    &&& final(self).line == line
                    &&& if j < s.len() {
                        r matches Ok(Some(t)) && t@ == tok(
                            TokenType::StringLit,
                            s.subrange(i + 1, j),
                            line,
                        ) && final(self).pos == j + 1
                    } else {
                        r matches Err(e) && e@ == fault(
                            LexErrorKind::UnterminatedString,
                            s.subrange(i + 1, s.len() as int),
                            line,
                        )
                    }
                } else if c == '\n' {
                    &&& r matches Ok(Some(t)) && t@ == tok(TokenType::NewLn, newline_text(), line)
                    &&& final(self).pos == i + 1
                    &&& final(self).line == line + 1
                } else {
                    &&& r matches Ok(None)
                    &&& final(self).pos == i
                    &&& final(self).line == line
                }
            }),
    {
        let c = self.chars[self.pos];
        let line = self.line;
        let kind = if c == '=' {
            Some(TokenType::Equals)
        } else if c == '!' {
            Some(TokenType::Bang)
        } else if c == '+' {
            Some(TokenType::Plus)
        } else if c == '-' {
            Some(TokenType::Minus)
        } else if c == '/' {
            Some(TokenType::Slash)
        } else if c == '*' {
            Some(TokenType::Star)
        } else {
            None
        };
        if let Some(k) = kind {
            let mut lexeme = String::new();
            push_char(&mut lexeme, c);
            assert(lexeme@ =~= seq![c]);
            self.advance();
            return Ok(Some(Token::new(k, lexeme, line)));
        }
        if c == '"' {
            self.advance();
            return match self.take_string() {
                Ok(text) => Ok(Some(Token::new(TokenType::StringLit, text, line))),
                Err(e) => Err(e),
            };
        }
        if c == '\n' {
            let lexeme = "newline".to_owned();
            self.advance();
            self.line = self.line + 1;
            return Ok(Some(Token::new(TokenType::NewLn, lexeme, line)));
        }
        Ok(None)
    }

    /// Appends the end-of-input sentinel.
    fn end(&mut self)
        ensures
            views(final(self).tokens@) == views(old(self).tokens@).push(
                end_token(old(self).line as nat),
            ),
            final(self).chars@ == old(self).chars@,
            final(self).pos == old(self).pos,
            final(self).line == old(self).line,
    {
        let end_token = Token::end(self.line);
        self.push_token(end_token);
    }

    fn push_token(&mut self, t: Token)
        ensures
            views(final(self).tokens@) == views(old(self).tokens@).push(t@),
            final(self).chars@ == old(self).chars@,
            final(self).pos == old(self).pos,
            final(self).line == old(self).line,
    {
        self.tokens.push(t);
        assert(views(self.tokens@) =~= views(old(self).tokens@).push(t@));
    }
}

} // verus!
