//! The reader: source text to tokens, tokens to forms.
//!
//! Reading has two stages. [`tokenize`] cuts the text into tokens; a numeric
//! token keeps its spelling. The parser builds forms from the tokens. It
//! converts the spelling of a whole number of up to fifteen digits by
//! itself, and looks any other numeric spelling up in a table of numerals
//! that the caller supplies, so that no floating-point conversion happens
//! here.
use vstd::prelude::*;
use crate::text::{chars_of, owned, string_from, Text};
use crate::value::{ErrorKind, EvalError, Fault, Number, Numeral};

verus! {

/// A token of the source text.
#[derive(Debug)]
pub enum Token {
    LeftParen,
    RightParen,
    LeftBracket,
    RightBracket,
    LeftBrace,
    RightBrace,
    /// `'`, short for `quote`.
    Quote,
    /// `` ` ``, short for `quasiquote`.
    Backquote,
    /// `~`, short for `unquote`.
    Tilde,
    Symbol(String),
    /// A numeric literal, as spelled.
    Number(String),
    Str(String),
    Keyword(String),
    Bool(bool),
    Nil,
}

/// The model of a [`Token`].
pub ghost enum Lexeme {
    LeftParen,
    RightParen,
    LeftBracket,
    RightBracket,
    LeftBrace,
    RightBrace,
    Quote,
    Backquote,
    Tilde,
    Symbol(Text),
    Number(Text),
    Str(Text),
    Keyword(Text),
    Bool(bool),
    Nil,
}

impl View for Token {
    type V = Lexeme;

    open spec fn view(&self) -> Lexeme {
        match self {
            Token::LeftParen => Lexeme::LeftParen,
            Token::RightParen => Lexeme::RightParen,
            Token::LeftBracket => Lexeme::LeftBracket,
            Token::RightBracket => Lexeme::RightBracket,
            Token::LeftBrace => Lexeme::LeftBrace,
            Token::RightBrace => Lexeme::RightBrace,
            Token::Quote => Lexeme::Quote,
            Token::Backquote => Lexeme::Backquote,
            Token::Tilde => Lexeme::Tilde,
            Token::Symbol(s) => Lexeme::Symbol(s@),
            Token::Number(s) => Lexeme::Number(s@),
            Token::Str(s) => Lexeme::Str(s@),
            Token::Keyword(s) => Lexeme::Keyword(s@),
            Token::Bool(b) => Lexeme::Bool(*b),
            Token::Nil => Lexeme::Nil,
        }
    }
}

/// The models of a list of tokens.
pub open spec fn lexemes(v: Seq<Token>) -> Seq<Lexeme> {
    Seq::new(v.len(), |i: int| v[i]@)
}

/// The model of a table of numerals.
pub open spec fn numerals(v: Seq<(String, Number)>) -> Seq<(Text, Numeral)> {
    Seq::new(v.len(), |i: int| (v[i].0@, v[i].1@))
}

/// A parse error with the given message.
pub open spec fn parse_fault(message: Text) -> Fault {
    Fault { kind: ErrorKind::ParseError, message }
}

/// Space, tab, carriage return, line feed and comma separate tokens.
pub open spec fn is_space(c: char) -> bool {
    c == ' ' || c == '\t' || c == '\n' || c == '\r' || c == ','
}

/// An ASCII digit.
pub open spec fn is_digit(c: char) -> bool {
    '0' <= c <= '9'
}

/// A symbol starts with an ASCII letter or one of `+-*/<>=!?&%|_`.
pub open spec fn symbol_start(c: char) -> bool {
    ('a' <= c <= 'z') || ('A' <= c <= 'Z') || c == '+' || c == '-' || c == '*' || c == '/' || c
        == '<' || c == '>' || c == '=' || c == '!' || c == '?' || c == '&' || c == '%' || c == '|'
        || c == '_'
}

/// A symbol goes on with the same characters, digits and `.`.
pub open spec fn symbol_char(c: char) -> bool {
    symbol_start(c) || is_digit(c) || c == '.'
}

/// The classes of characters that the reader consumes in runs.
pub enum CharClass {
    /// What a symbol or keyword goes on with.
    Symbol,
    /// Digits and `.`.
    Numeral,
    /// Anything but a line feed.
    Comment,
}

/// Whether `c` belongs to `class`.
pub open spec fn in_class(class: CharClass, c: char) -> bool {
    match class {
        CharClass::Symbol => symbol_char(c),
        CharClass::Numeral => is_digit(c) || c == '.',
        CharClass::Comment => c != '\n',
    }
}

/// The end of the longest run of characters of `class` that starts at `i`.
pub open spec fn run_end(s: Text, i: int, class: CharClass) -> int
    decreases s.len() - i,
{
    if 0 <= i < s.len() && in_class(class, s[i]) {
        run_end(s, i + 1, class)
    } else {
        i
    }
}

/// A run ends within the text, holds characters of its class only, and
/// stops before a character that is not of the class.
pub proof fn lemma_run_end(s: Text, i: int, class: CharClass)
    requires
        0 <= i <= s.len(),
    ensures
        i <= run_end(s, i, class) <= s.len(),
        forall|j: int| i <= j < run_end(s, i, class) ==> in_class(class, s[j]),
        run_end(s, i, class) < s.len() ==> !in_class(class, s[run_end(s, i, class)]),
    decreases s.len() - i,
{
    if i < s.len() && in_class(class, s[i]) {
        lemma_run_end(s, i + 1, class);
    }
}

/// What a backslash followed by `c` stands for inside a string literal.
pub open spec fn unescape(c: char) -> Text {
    if c == 'n' {
        seq!['\n']
    } else if c == 'r' {
        seq!['\r']
    } else if c == 't' {
        seq!['\t']
    } else if c == '\\' {
        seq!['\\']
    } else if c == '"' {
        seq!['"']
    } else {
        seq!['\\', c]
    }
}

/// The position of the quote that closes a string literal whose contents
/// start at `i`, or `s.len()` where none does.
pub open spec fn string_end(s: Text, i: int) -> int
    decreases s.len() - i,
{
    if i < 0 || i >= s.len() {
        s.len() as int
    } else if s[i] == '"' {
        i
    } else if s[i] == '\\' && i + 1 < s.len() {
        string_end(s, i + 2)
    } else {
        string_end(s, i + 1)
    }
}

/// The contents of a string literal that start at `i`, escapes resolved.
pub open spec fn string_body(s: Text, i: int) -> Text
    decreases s.len() - i,
{
    if i < 0 || i >= s.len() || s[i] == '"' {
        Seq::empty()
    } else if s[i] == '\\' && i + 1 < s.len() {
        unescape(s[i + 1]) + string_body(s, i + 2)
    } else {
        seq![s[i]] + string_body(s, i + 1)
    }
}

/// A string literal ends within the text, at or after its start.
pub proof fn lemma_string_end(s: Text, i: int)
    requires
        0 <= i <= s.len(),
    ensures
        i <= string_end(s, i) <= s.len(),
    decreases s.len() - i,
{
    if i < s.len() && s[i] != '"' {
        if s[i] == '\\' && i + 1 < s.len() {
            lemma_string_end(s, i + 2);
        } else {
            lemma_string_end(s, i + 1);
        }
    }
}

/// The token for a word: `true`, `false` and `nil` are tokens of their own,
/// every other word is a symbol.
pub open spec fn word(name: Text) -> Lexeme {
    if name == "true"@ {
        Lexeme::Bool(true)
    } else if name == "false"@ {
        Lexeme::Bool(false)
    } else if name == "nil"@ {
        Lexeme::Nil
    } else {
        Lexeme::Symbol(name)
    }
}

/// `done` followed by what `rest` holds, or the error of `rest`.
pub open spec fn chain<T>(done: Seq<T>, rest: Result<Seq<T>, Fault>) -> Result<Seq<T>, Fault> {
    match rest {
        Ok(r) => Ok(done + r),
        Err(e) => Err(e),
    }
}

/// The token for a character that is a token by itself.
pub open spec fn punctuation(c: char) -> Option<Lexeme> {
    if c == '(' {
        Some(Lexeme::LeftParen)
    } else if c == ')' {
        Some(Lexeme::RightParen)
    } else if c == '[' {
        Some(Lexeme::LeftBracket)
    } else if c == ']' {
        Some(Lexeme::RightBracket)
    } else if c == '{' {
        Some(Lexeme::LeftBrace)
    } else if c == '}' {
        Some(Lexeme::RightBrace)
    } else if c == '\'' {
        Some(Lexeme::Quote)
    } else if c == '`' {
        Some(Lexeme::Backquote)
    } else if c == '~' {
        Some(Lexeme::Tilde)
    } else {
        None
    }
}

/// Whether a numeric literal starts at `i`: a digit, or a minus sign
/// directly before a digit.
pub open spec fn numeral_at(s: Text, i: int) -> bool {
    0 <= i < s.len() && (is_digit(s[i]) || (s[i] == '-' && i + 1 < s.len() && is_digit(s[i + 1])))
}

/// The end of the numeric literal that starts at `i`.
pub open spec fn numeral_end(s: Text, i: int) -> int {
    if s[i] == '-' {
        run_end(s, i + 1, CharClass::Numeral)
    } else {
        run_end(s, i, CharClass::Numeral)
    }
}

/// The tokens of `s` from position `i` on, or the first lexical error.
pub open spec fn tokens_from(s: Text, i: int) -> Result<Seq<Lexeme>, Fault>
    decreases s.len() - i,
{
    if i < 0 || i >= s.len() {
        Ok(Seq::empty())
    } else {
        let c = s[i];
        if is_space(c) {
            tokens_from(s, i + 1)
        } else if punctuation(c) is Some {
            chain(seq![punctuation(c)->0], tokens_from(s, i + 1))
        } else if c == '"' {
            let end = string_end(s, i + 1);
            proof {
                lemma_string_end(s, i + 1);
            }
            if end >= s.len() {
                Err(parse_fault("Unterminated string"@))
            } else {
                chain(seq![Lexeme::Str(string_body(s, i + 1))], tokens_from(s, end + 1))
            }
        } else if c == ':' {
            let end = run_end(s, i + 1, CharClass::Symbol);
            proof {
                lemma_run_end(s, i + 1, CharClass::Symbol);
            }
            if end == i + 1 {
                Err(parse_fault("Invalid keyword"@))
            } else {
                chain(seq![Lexeme::Keyword(s.subrange(i + 1, end))], tokens_from(s, end))
            }
        } else if c == ';' {
            proof {
                lemma_run_end(s, i + 1, CharClass::Comment);
            }
            tokens_from(s, run_end(s, i + 1, CharClass::Comment))
        } else if numeral_at(s, i) {
            let end = numeral_end(s, i);
            proof {
                lemma_run_end(s, i + 1, CharClass::Numeral);
                lemma_run_end(s, i, CharClass::Numeral);
            }
            chain(seq![Lexeme::Number(s.subrange(i, end))], tokens_from(s, end))
        } else if symbol_start(c) {
            let end = run_end(s, i, CharClass::Symbol);
            proof {
                lemma_run_end(s, i + 1, CharClass::Symbol);
            }
            chain(seq![word(s.subrange(i, end))], tokens_from(s, end))
        } else {
            Err(parse_fault("Unexpected character: "@ + seq![c]))
        }
    }
}

/// The tokens of `s`, or the first lexical error.
pub open spec fn tokens_of(s: Text) -> Result<Seq<Lexeme>, Fault> {
    tokens_from(s, 0)
}

/// The model of a tokenizer result.
pub open spec fn lexemes_result(r: Result<Vec<Token>, EvalError>) -> Result<Seq<Lexeme>, Fault> {
    match r {
        Ok(v) => Ok(lexemes(v@)),
        Err(e) => Err(e@),
    }
}

/// Whether `c` separates tokens.
pub fn is_space_char(c: char) -> (b: bool)
    ensures
        b == is_space(c),
{
    c == ' ' || c == '\t' || c == '\n' || c == '\r' || c == ','
}

/// Whether `c` is an ASCII digit.
pub fn is_digit_char(c: char) -> (b: bool)
    ensures
        b == is_digit(c),
{
    c >= '0' && c <= '9'
}

/// Whether a symbol may start with `c`.
pub fn is_symbol_start(c: char) -> (b: bool)
    ensures
        b == symbol_start(c),
{
    (c >= 'a' && c <= 'z') || (c >= 'A' && c <= 'Z') || c == '+' || c == '-' || c == '*' || c
        == '/' || c == '<' || c == '>' || c == '=' || c == '!' || c == '?' || c == '&' || c == '%'
        || c == '|' || c == '_'
}

/// Whether a symbol may go on with `c`.
pub fn is_symbol_char(c: char) -> (b: bool)
    ensures
        b == symbol_char(c),
{
    is_symbol_start(c) || is_digit_char(c) || c == '.'
}

fn is_in_class(class: &CharClass, c: char) -> (b: bool)
    ensures
        b == in_class(*class, c),
{
    match class {
        CharClass::Symbol => is_symbol_char(c),
        CharClass::Numeral => is_digit_char(c) || c == '.',
        CharClass::Comment => c != '\n',
    }
}

/// The end of the longest run of characters of `class` that starts at `i`.
pub fn scan_run(chars: &Vec<char>, i: usize, class: CharClass) -> (end: usize)
    requires
        i <= chars@.len(),
    ensures
        end == run_end(chars@, i as int, class),
        i <= end <= chars@.len(),
{
    let mut j: usize = i;
    while j < chars.len() && is_in_class(&class, chars[j])
        invariant
            i <= j <= chars.len(),
            run_end(chars@, j as int, class) == run_end(chars@, i as int, class),
        decreases chars.len() - j,
    {
        j += 1;
    }
    j
}

fn punctuation_token(c: char) -> (r: Option<Token>)
    ensures
        match r {
            Some(t) => punctuation(c) == Some(t@),
            None => punctuation(c) is None,
        },
{
    if c == '(' {
        Some(Token::LeftParen)
    } else if c == ')' {
        Some(Token::RightParen)
    } else if c == '[' {
        Some(Token::LeftBracket)
    } else if c == ']' {
        Some(Token::RightBracket)
    } else if c == '{' {
        Some(Token::LeftBrace)
    } else if c == '}' {
        Some(Token::RightBrace)
    } else if c == '\'' {
        Some(Token::Quote)
    } else if c == '`' {
        Some(Token::Backquote)
    } else if c == '~' {
        Some(Token::Tilde)
    } else {
        None
    }
}

/// Reads the contents of a string literal that start at `i`: the contents
/// with escapes resolved, and the position of the closing quote
/// (`chars.len()` where the literal is not closed).
fn scan_string(chars: &Vec<char>, i: usize) -> (r: (String, usize))
    requires
        i <= chars@.len(),
    ensures
        r.0@ == string_body(chars@, i as int),
        r.1 == string_end(chars@, i as int),
        i <= r.1 <= chars@.len(),
{
    let mut out = String::new();
    let mut j: usize = i;
    assert(out@ + string_body(chars@, j as int) =~= string_body(chars@, i as int));
    while j < chars.len() && chars[j] != '"'
        invariant
            i <= j <= chars.len(),
            out@ + string_body(chars@, j as int) == string_body(chars@, i as int),
            string_end(chars@, j as int) == string_end(chars@, i as int),
        decreases chars.len() - j,
    {
        let ghost before = out@;
        if chars[j] == '\\' && j + 1 < chars.len() {
            let c = chars[j + 1];
            if c == 'n' {
                out.push('\n');
            } else if c == 'r' {
                out.push('\r');
            } else if c == 't' {
                out.push('\t');
            } else if c == '\\' {
                out.push('\\');
            } else if c == '"' {
                out.push('"');
            } else {
                out.push('\\');
                out.push(c);
            }
            assert(out@ =~= before + unescape(c));
            assert(out@ + string_body(chars@, j + 2) =~= before + (unescape(c) + string_body(
                chars@,
                j + 2,
            )));
            j += 2;
        } else {
            out.push(chars[j]);
            assert(out@ + string_body(chars@, j + 1) =~= before + (seq![chars@[j as int]]
                + string_body(chars@, j + 1)));
            j += 1;
        }
    }
    assert(string_body(chars@, j as int) =~= Seq::<char>::empty());
    assert(out@ + Seq::<char>::empty() =~= out@);
    (out, j)
}

fn word_token(name: String) -> (t: Token)
    ensures
        t@ == word(name@),
{
    if name.as_str().eq("true") {
        Token::Bool(true)
    } else if name.as_str().eq("false") {
        Token::Bool(false)
    } else if name.as_str().eq("nil") {
        Token::Nil
    } else {
        Token::Symbol(name)
    }
}

/// A parse error with the given message.
pub fn parse_error(message: String) -> (e: EvalError)
    ensures
        e@ == parse_fault(message@),
{
    EvalError { kind: ErrorKind::ParseError, message }
}

/// Chaining one item and then the rest is chaining with the item appended.
pub proof fn lemma_chain_push<T>(done: Seq<T>, t: T, rest: Result<Seq<T>, Fault>)
    ensures
        chain(done, chain(seq![t], rest)) == chain(done.push(t), rest),
{
    match rest {
        Ok(r) => {
            assert(done + (seq![t] + r) =~= done.push(t) + r);
        },
        Err(_) => {},
    }
}

/// The models of a list of tokens with one more token.
pub proof fn lemma_lexemes_push(v: Seq<Token>, t: Token)
    ensures
        lexemes(v.push(t)) == lexemes(v).push(t@),
{
    assert(lexemes(v.push(t)) =~= lexemes(v).push(t@));
}

/// Cuts `input` into tokens.
///
/// Fails with a parse error on a string literal that is not closed, on a
/// colon that no symbol character follows, and on a character that starts
/// no token.
pub fn tokenize(input: &str) -> (r: Result<Vec<Token>, EvalError>)
    ensures
        lexemes_result(r) == tokens_of(input@),
{
    let chars = chars_of(input);
    let mut tokens: Vec<Token> = Vec::new();
    let mut i: usize = 0;
    let ghost s = chars@;
    assert(lexemes(tokens@) =~= Seq::empty());
    assert(chain(Seq::<Lexeme>::empty(), tokens_from(s, 0)) == tokens_from(s, 0)) by {
        match tokens_from(s, 0) {
            Ok(r) => {
                assert(Seq::<Lexeme>::empty() + r =~= r);
            },
            Err(_) => {},
        }
    }
    while i < chars.len()
        invariant
            i <= chars.len(),
            s == chars@,
            s == input@,
            tokens_of(s) == chain(lexemes(tokens@), tokens_from(s, i as int)),
        decreases chars.len() - i,
    {
        let c = chars[i];
        let ghost done = lexemes(tokens@);
        if is_space_char(c) {
            i += 1;
        } else if let Some(t) = punctuation_token(c) {
            proof {
                lemma_chain_push(done, t@, tokens_from(s, i + 1));
                lemma_lexemes_push(tokens@, t);
            }
            tokens.push(t);
            i += 1;
        } else if c == '"' {
            let (body, end) = scan_string(&chars, i + 1);
            if end >= chars.len() {
                return Err(parse_error(owned("Unterminated string")));
            }
            let t = Token::Str(body);
            proof {
                lemma_chain_push(done, t@, tokens_from(s, end + 1));
                lemma_lexemes_push(tokens@, t);
            }
            tokens.push(t);
            i = end + 1;
        } else if c == ':' {
            let end = scan_run(&chars, i + 1, CharClass::Symbol);
            if end == i + 1 {
                return Err(parse_error(owned("Invalid keyword")));
            }
            let t = Token::Keyword(string_from(&chars, i + 1, end));
            proof {
                lemma_chain_push(done, t@, tokens_from(s, end as int));
                lemma_lexemes_push(tokens@, t);
            }
            tokens.push(t);
            i = end;
        } else if c == ';' {
            i = scan_run(&chars, i + 1, CharClass::Comment);
        } else if is_digit_char(c) || (c == '-' && i + 1 < chars.len() && is_digit_char(
            chars[i + 1],
        )) {
            let end = if c == '-' {
                scan_run(&chars, i + 1, CharClass::Numeral)
            } else {
                scan_run(&chars, i, CharClass::Numeral)
            };
            proof {
                lemma_run_end(s, i + 1, CharClass::Numeral);
            }
            let t = Token::Number(string_from(&chars, i, end));
            proof {
                lemma_chain_push(done, t@, tokens_from(s, end as int));
                lemma_lexemes_push(tokens@, t);
            }
            tokens.push(t);
            i = end;
        } else if is_symbol_start(c) {
            let end = scan_run(&chars, i, CharClass::Symbol);
            proof {
                lemma_run_end(s, i + 1, CharClass::Symbol);
            }
            let t = word_token(string_from(&chars, i, end));
            proof {
                lemma_chain_push(done, t@, tokens_from(s, end as int));
                lemma_lexemes_push(tokens@, t);
            }
            tokens.push(t);
            i = end;
        } else {
            let mut message = owned("Unexpected character: ");
            message.push(c);
            assert(message@ =~= "Unexpected character: "@ + seq![c]);
            return Err(parse_error(message));
        }
    }
    assert(lexemes(tokens@) + Seq::<Lexeme>::empty() =~= lexemes(tokens@));
    Ok(tokens)
}

} // verus!
