use vstd::prelude::*;
use crate::lexer::{
    fault, lex, lex_from, lemma_number_end_bounds, lemma_quote_end_bounds, lemma_word_end_bounds,
    is_blank, number_end, quote_end, strip_underscores, symbol_kind, tok, word_end, LexErrorKind,
    LexFault, Lexer,
};
use crate::number::{
    all_digits, digits_value, dot_count, is_digit, lemma_no_dots, number_value, NumberValue,
};
use crate::token::{end_token, LexToken, TokenType};

verus! {

proof fn lemma_blank_from(s: Seq<char>, i: int, line: nat)
    requires
        0 <= i,
        forall|k: int| i <= k < s.len() ==> is_blank(#[trigger] s[k]),
    ensures
        lex_from(s, i, line) == Ok::<Seq<LexToken>, LexFault>(seq![end_token(line)]),
    decreases s.len() - i,
{
    if i < s.len() {
        lemma_blank_from(s, i + 1, line);
    }
}

/// Input made only of spaces, tabs and carriage returns yields the
/// end-of-input sentinel alone.
pub proof fn lemma_blank_input(s: Seq<char>)
    requires
        forall|k: int| 0 <= k < s.len() ==> is_blank(#[trigger] s[k]),
    ensures
        lex(s) == Ok::<Seq<LexToken>, LexFault>(seq![end_token(1)]),
{
    lemma_blank_from(s, 0, 1);
}

proof fn lemma_dot_count_front(t: Seq<char>)
    requires
        t.len() > 0,
    ensures
        dot_count(t) == dot_count(t.drop_first()) + if t[0] == '.' { 1nat } else { 0nat },
    decreases t.len(),
{
    if t.len() > 1 {
        lemma_dot_count_front(t.drop_last());
        assert(t.drop_last().drop_first() =~= t.drop_first().drop_last());
        assert(t.drop_last()[0] == t[0]);
        assert(t.drop_first().last() == t.last());
        assert(dot_count(t.drop_first()) == dot_count(t.drop_first().drop_last()) + if t.last()
            == '.' { 1nat } else { 0nat });
    } else {
        assert(t.drop_first().len() == 0);
        assert(t.drop_last().len() == 0);
        assert(t.last() == t[0]);
        assert(dot_count(t.drop_first()) == 0);
        assert(dot_count(t.drop_last()) == 0);
    }
}

/// A run of digits, `_` and periods with at most one period, taken from
/// `j` with `dot` periods already seen, reaches the end of `s`.
proof fn lemma_number_run_to_end(s: Seq<char>, j: int, dot: bool)
    requires
        0 <= j <= s.len(),
        forall|k: int| j <= k < s.len() ==> is_digit(#[trigger] s[k]) || s[k] == '_' || s[k] == '.',
        dot_count(s.subrange(j, s.len() as int)) + if dot { 1nat } else { 0nat } <= 1,
    ensures
        number_end(s, j, dot) == s.len(),
    decreases s.len() - j,
{
    if j < s.len() {
        let t = s.subrange(j, s.len() as int);
        lemma_dot_count_front(t);
        assert(t.drop_first() =~= s.subrange(j + 1, s.len() as int));
        lemma_number_run_to_end(s, j + 1, dot || s[j] == '.');
    }
}

proof fn lemma_strip_keeps(t: Seq<char>)
    ensures
        dot_count(strip_underscores(t)) == dot_count(t),
        forall|k: int|
            0 <= k < strip_underscores(t).len() ==> #[trigger] strip_underscores(t)[k] != '_',
        forall|k: int|
            0 <= k < strip_underscores(t).len() ==> exists|m: int|
                0 <= m < t.len() && t[m] == #[trigger] strip_underscores(t)[k],
        (forall|k: int| 0 <= k < t.len() ==> t[k] != '_') ==> strip_underscores(t) == t,
        t.len() > 0 && t[0] != '_' ==> strip_underscores(t).len() > 0,
    decreases t.len(),
{
    if t.len() > 0 {
        let p = t.drop_last();
        lemma_strip_keeps(p);
        let sp = strip_underscores(p);
        if t.last() != '_' {
            let st = sp.push(t.last());
            assert(st.drop_last() =~= sp);
            assert forall|k: int| 0 <= k < st.len() implies exists|m: int|
                0 <= m < t.len() && t[m] == #[trigger] st[k] by {
                if k < sp.len() {
                    let m = choose|m: int| 0 <= m < p.len() && p[m] == sp[k];
                    assert(t[m] == st[k]);
                } else {
                    assert(t[t.len() - 1] == st[k]);
                }
            }
        } else {
            assert forall|k: int| 0 <= k < sp.len() implies exists|m: int|
                0 <= m < t.len() && t[m] == #[trigger] sp[k] by {
                let m = choose|m: int| 0 <= m < p.len() && p[m] == sp[k];
                assert(t[m] == sp[k]);
            }
        }
        if forall|k: int| 0 <= k < t.len() ==> t[k] != '_' {
            assert forall|k: int| 0 <= k < p.len() implies p[k] != '_' by {
                assert(p[k] == t[k]);
            }
            assert(t =~= p.push(t.last()));
        }
        if t.len() > 1 && t[0] != '_' {
            assert(p[0] == t[0]);
        }
    }
}

/// The tokens of a number run starting at the first character and filling
/// the input: one number token whose text is the run without its `_`
/// separators, stamped line 1, then the sentinel; or a malformed-number
/// failure when that text is no valid literal.
proof fn lemma_number_run(s: Seq<char>)
    requires
        s.len() >= 1,
        is_digit(s[0]),
        forall|k: int| 0 <= k < s.len() ==> is_digit(#[trigger] s[k]) || s[k] == '_' || s[k] == '.',
        dot_count(s) <= 1,
    ensures
        number_value(strip_underscores(s)) is Some ==> lex(s) == Ok::<Seq<LexToken>, LexFault>(
            seq![tok(TokenType::NumberLit, strip_underscores(s), 1), end_token(1)],
        ),
        number_value(strip_underscores(s)) is None ==> lex(s) == Err::<Seq<LexToken>, LexFault>(
            fault(LexErrorKind::MalformedNumber, strip_underscores(s), 1),
        ),
{
    assert(s.subrange(0, s.len() as int) =~= s);
    lemma_number_run_to_end(s, 0, false);
    let text = strip_underscores(s);
    assert(lex_from(s, s.len() as int, 1) == Ok::<Seq<LexToken>, LexFault>(seq![end_token(1)]));
    if number_value(text) is Some {
        assert(seq![tok(TokenType::NumberLit, text, 1)] + seq![end_token(1)] =~= seq![
            tok(TokenType::NumberLit, text, 1),
            end_token(1),
        ]);
    }
}

/// A string of digits with at most one embedded period tokenizes as one
/// number token holding exactly that text, then the sentinel, provided the
/// text is a valid literal. With a period the literal is a float kept as
/// that text; without one it is the integer the digits denote, which is a
/// valid literal exactly when it fits in an `i32`.
pub proof fn lemma_digits_with_period(s: Seq<char>)
    requires
        s.len() >= 1,
        is_digit(s[0]),
        forall|k: int| 0 <= k < s.len() ==> is_digit(#[trigger] s[k]) || s[k] == '.',
        dot_count(s) <= 1,
    ensures
        number_value(s) is Some ==> lex(s) == Ok::<Seq<LexToken>, LexFault>(
            seq![tok(TokenType::NumberLit, s, 1), end_token(1)],
        ),
        dot_count(s) == 1 ==> number_value(s) == Some(NumberValue::Float(s)),
        dot_count(s) == 0 ==> (number_value(s) is Some <==> digits_value(s) <= i32::MAX),
        dot_count(s) == 0 && digits_value(s) <= i32::MAX ==> number_value(s) == Some(
            NumberValue::Int(digits_value(s)),
        ),
{
    lemma_strip_keeps(s);
    assert forall|k: int| 0 <= k < s.len() implies s[k] != '_' by {
        assert(is_digit(s[k]) || s[k] == '.');
    }
    lemma_number_run(s);
    if dot_count(s) == 0 {
        lemma_no_dots(s);
        assert(all_digits(s));
    } else {
        lemma_dot_count_positive(s);
        let k = choose|k: int| 0 <= k < s.len() && s[k] == '.';
        assert(k != 0);
    }
}

/// A digit run with `_` separators tokenizes as one number token whose
/// text, and so whose value, is the run with the separators removed.
pub proof fn lemma_digits_with_separators(s: Seq<char>)
    requires
        s.len() >= 1,
        is_digit(s[0]),
        forall|k: int| 0 <= k < s.len() ==> is_digit(#[trigger] s[k]) || s[k] == '_',
        digits_value(strip_underscores(s)) <= i32::MAX,
    ensures
        lex(s) == Ok::<Seq<LexToken>, LexFault>(
            seq![tok(TokenType::NumberLit, strip_underscores(s), 1), end_token(1)],
        ),
        number_value(strip_underscores(s)) == Some(
            NumberValue::Int(digits_value(strip_underscores(s))),
        ),
{
    let text = strip_underscores(s);
    lemma_strip_keeps(s);
    assert forall|k: int| 0 <= k < s.len() implies s[k] != '.' by {
        assert(is_digit(s[k]) || s[k] == '_');
    }
    if dot_count(s) > 0 {
        lemma_dot_count_positive(s);
    }
    assert(all_digits(text)) by {
        assert forall|k: int| 0 <= k < text.len() implies is_digit(#[trigger] text[k]) by {
            let m = choose|m: int| 0 <= m < s.len() && s[m] == text[k];
            assert(is_digit(s[m]) || s[m] == '_');
        }
    }
    lemma_number_run(s);
}

proof fn lemma_dot_count_positive(t: Seq<char>)
    requires
        dot_count(t) > 0,
    ensures
        exists|k: int| 0 <= k < t.len() && t[k] == '.',
    decreases t.len(),
{
    if t.last() != '.' {
        lemma_dot_count_positive(t.drop_last());
        let k = choose|k: int| 0 <= k < t.drop_last().len() && t.drop_last()[k] == '.';
        assert(t[k] == '.');
    } else {
        assert(t[t.len() - 1] == '.');
    }
}

proof fn lemma_quote_end_at(s: Seq<char>, j: int, e: int)
    requires
        0 <= j <= e < s.len(),
        s[e] == '"',
        forall|k: int| j <= k < e ==> s[k] != '"',
    ensures
        quote_end(s, j) == e,
    decreases e - j,
{
    if j < e {
        lemma_quote_end_at(s, j + 1, e);
    }
}

/// A quoted string with no quote inside tokenizes as one string-literal
/// token whose text leaves out the delimiting quotes, then the sentinel.
pub proof fn lemma_quoted_string(body: Seq<char>)
    requires
        forall|k: int| 0 <= k < body.len() ==> body[k] != '"',
    ensures
        lex(seq!['"'] + body + seq!['"']) == Ok::<Seq<LexToken>, LexFault>(
            seq![tok(TokenType::StringLit, body, 1), end_token(1)],
        ),
{
    let s = seq!['"'] + body + seq!['"'];
    let e = body.len() + 1int;
    assert forall|k: int| 1 <= k < e implies s[k] != '"' by {
        assert(s[k] == body[k - 1]);
    }
    lemma_quote_end_at(s, 1, e);
    assert(s.subrange(1, e) =~= body);
    assert(lex_from(s, s.len() as int, 1) == Ok::<Seq<LexToken>, LexFault>(seq![end_token(1)]));
    assert(seq![tok(TokenType::StringLit, body, 1)] + seq![end_token(1)] =~= seq![
        tok(TokenType::StringLit, body, 1),
        end_token(1),
    ]);
}

/// The number of newline tokens in `ts`.
pub open spec fn newline_count(ts: Seq<LexToken>) -> nat
    decreases ts.len(),
{
    if ts.len() == 0 {
        0
    } else {
        (if ts[0].kind == TokenType::NewLn { 1nat } else { 0nat }) + newline_count(ts.drop_first())
    }
}

proof fn lemma_lines_from(s: Seq<char>, i: int, line: nat)
    ensures
        lex_from(s, i, line) matches Ok(ts) ==> forall|j: int|
            0 <= j < ts.len() ==> #[trigger] ts[j].line == line + newline_count(ts.subrange(0, j)),
    decreases s.len() - i,
{
    if 0 <= i < s.len() {
        let c = s[i];
        let next: (int, nat) = if is_blank(c) || symbol_kind(c) is Some {
            (i + 1, line)
        } else if c == '"' {
            (quote_end(s, i + 1) + 1, line)
        } else if c == '\n' {
            (i + 1, line + 1)
        } else if is_digit(c) {
            (number_end(s, i, false), line)
        } else {
            (word_end(s, i), line)
        };
        lemma_quote_end_bounds(s, i + 1);
        lemma_number_end_bounds(s, i + 1, false);
        lemma_word_end_bounds(s, i);
        if i < next.0 <= s.len() {
            lemma_lines_from(s, next.0, next.1);
        }
        match lex_from(s, i, line) {
            Ok(ts) => {
                if !is_blank(c) {
                    let rest = lex_from(s, next.0, next.1)->Ok_0;
                    assert(ts == seq![ts[0]] + rest);
                    assert forall|j: int| 0 <= j < ts.len() implies #[trigger] ts[j].line == line
                        + newline_count(ts.subrange(0, j)) by {
                        if j > 0 {
                            assert(ts.subrange(0, j).drop_first() =~= rest.subrange(0, j - 1));
                            assert(ts[j] == rest[j - 1]);
                        }
                    }
                }
            },
            Err(_) => {},
        }
    }
}

/// Each token is stamped with 1 plus the number of newline tokens before
/// it: a newline token carries the line it ends, and the tokens after it
/// carry the next one.
pub proof fn lemma_line_stamps(s: Seq<char>)
    ensures
        lex(s) matches Ok(ts) ==> forall|j: int|
            0 <= j < ts.len() ==> #[trigger] ts[j].line == 1 + newline_count(ts.subrange(0, j)),
{
    lemma_lines_from(s, 0, 1);
}

/// Tokenizing is repeatable: two tokenizers at the same place in the same
/// input produce the same tokens, or the same failure.
pub proof fn lemma_scan_repeatable(a: Lexer, b: Lexer)
    requires
        a.input() == b.input(),
        a.cursor() == b.cursor(),
        a.line_no() == b.line_no(),
    ensures
        lex_from(a.input(), a.cursor(), a.line_no()) == lex_from(
            b.input(),
            b.cursor(),
            b.line_no(),
        ),
{
}

} // verus!
