//! The parser: tokens to forms, by recursive descent.
use vstd::prelude::*;
use crate::env::{assign, lookup, names, put_entry};
use crate::number::{whole, whole_number_bits};
use crate::reader::{
    is_digit, is_digit_char, lexemes, numerals, parse_error, parse_fault, tokenize, tokens_of,
    Lexeme, Token,
};
use crate::text::{
    chars_of, decimal_of, decimal_value, first_index, join2, lemma_first_index_is, owned,
    parse_decimal, Text,
};
use crate::value::{
    entries, forms, lemma_forms_push, lemma_views, EvalError, Fault, Form, Number, Numeral, Value,
};

verus! {

/// How a closing delimiter is named in an error message.
pub open spec fn token_name(t: Lexeme) -> Text {
    match t {
        Lexeme::RightParen => "RightParen"@,
        Lexeme::RightBracket => "RightBracket"@,
        _ => "RightBrace"@,
    }
}

/// The symbol that a reader shorthand stands for.
pub open spec fn shorthand(t: Lexeme) -> Option<Text> {
    match t {
        Lexeme::Quote => Some("quote"@),
        Lexeme::Backquote => Some("quasiquote"@),
        Lexeme::Tilde => Some("unquote"@),
        _ => None,
    }
}

/// The message for a sequence that its closing delimiter does not end.
pub open spec fn unterminated(close: Lexeme) -> Text {
    match close {
        Lexeme::RightParen => "Unterminated list"@,
        Lexeme::RightBracket => "Unterminated vector"@,
        _ => "Unterminated map"@,
    }
}

/// The entries of a map literal: each pair in source order, a later pair
/// replacing an earlier one with the same key.
pub open spec fn collect(pairs: Seq<(Text, Form)>) -> Seq<(Text, Form)>
    decreases pairs.len(),
{
    if pairs.len() == 0 {
        Seq::empty()
    } else {
        assign(collect(pairs.drop_last()), pairs.last().0, pairs.last().1)
    }
}

/// The key that a form stands for in a map literal: a keyword or a string.
pub open spec fn key_of(f: Form) -> Option<Text> {
    match f {
        Form::Keyword(k) => Some(k),
        Form::Str(s) => Some(s),
        _ => None,
    }
}

/// `done` before the items of `rest`.
pub open spec fn attach<T>(done: Seq<T>, rest: Result<(Seq<T>, int), Fault>) -> Result<
    (Seq<T>, int),
    Fault,
> {
    match rest {
        Ok((items, end)) => Ok((done + items, end)),
        Err(e) => Err(e),
    }
}

/// Whether a spelling is one that the reader converts by itself: a whole
/// number of one to fifteen digits, after a minus sign or without.
pub open spec fn whole_spelling(t: Text) -> bool {
    let start: int = if t.len() > 0 && t[0] == '-' {
        1
    } else {
        0
    };
    1 <= t.len() - start <= 15 && forall|i: int| start <= i < t.len() ==> is_digit(#[trigger] t[i])
}

/// The whole number that such a spelling stands for.
pub open spec fn spelled_whole(t: Text) -> Numeral {
    if t.len() > 0 && t[0] == '-' {
        whole(decimal_value(t.skip(1), (t.len() - 1) as nat), true)
    } else {
        whole(decimal_value(t, t.len()), false)
    }
}

/// The number that a numeric spelling stands for: the whole number that it
/// spells where it spells one of up to fifteen digits, else what the table
/// of numerals holds for it.
pub open spec fn literal(t: Text, table: Seq<(Text, Numeral)>) -> Option<Numeral> {
    if whole_spelling(t) {
        Some(spelled_whole(t))
    } else {
        lookup(table, t)
    }
}

/// The form that starts at token `pos`, with the position after it.
pub open spec fn parse_form(t: Seq<Lexeme>, pos: int, table: Seq<(Text, Numeral)>) -> Result<
    (Form, int),
    Fault,
>
    decreases t.len() - pos, 0nat,
{
    if pos < 0 || pos >= t.len() {
        Err(parse_fault("Unexpected end of input"@))
    } else {
        match t[pos] {
            Lexeme::LeftParen => match parse_items(t, pos + 1, Lexeme::RightParen, table) {
                Ok((items, next)) => Ok((Form::List(items), next)),
                Err(e) => Err(e),
            },
            Lexeme::LeftBracket => match parse_items(t, pos + 1, Lexeme::RightBracket, table) {
                Ok((items, next)) => Ok((Form::Vector(items), next)),
                Err(e) => Err(e),
            },
            Lexeme::LeftBrace => match parse_entries(t, pos + 1, table) {
                Ok((pairs, next)) => Ok((Form::Dict(collect(pairs)), next)),
                Err(e) => Err(e),
            },
            Lexeme::Quote | Lexeme::Backquote | Lexeme::Tilde => match parse_form(
                t,
                pos + 1,
                table,
            ) {
                Ok((f, next)) => Ok(
                    (Form::List(seq![Form::Symbol(shorthand(t[pos])->0), f]), next),
                ),
                Err(e) => Err(e),
            },
            Lexeme::Symbol(s) => Ok((Form::Symbol(s), pos + 1)),
            Lexeme::Number(spelling) => match literal(spelling, table) {
                Some(n) => Ok((Form::Number(n), pos + 1)),
                None => Err(parse_fault("Invalid number: "@ + spelling)),
            },
            Lexeme::Str(s) => Ok((Form::Str(s), pos + 1)),
            Lexeme::Keyword(k) => Ok((Form::Keyword(k), pos + 1)),
            Lexeme::Bool(b) => Ok((Form::Bool(b), pos + 1)),
            Lexeme::Nil => Ok((Form::Nil, pos + 1)),
            _ => Err(parse_fault("Unexpected token: "@ + token_name(t[pos]))),
        }
    }
}

/// The forms from token `pos` up to the delimiter `close`, with the
/// position after the delimiter.
pub open spec fn parse_items(
    t: Seq<Lexeme>,
    pos: int,
    close: Lexeme,
    table: Seq<(Text, Numeral)>,
) -> Result<(Seq<Form>, int), Fault>
    decreases t.len() - pos, 1nat,
{
    if pos < 0 || pos >= t.len() {
        Err(parse_fault(unterminated(close)))
    } else if t[pos] == close {
        Ok((Seq::empty(), pos + 1))
    } else {
        match parse_form(t, pos, table) {
            Err(e) => Err(e),
            Ok((f, next)) => if next <= pos || next > t.len() {
                Err(parse_fault(unterminated(close)))
            } else {
                attach(seq![f], parse_items(t, next, close, table))
            },
        }
    }
}

/// The key and value pairs from token `pos` up to the closing brace, in
/// source order, with the position after the brace.
pub open spec fn parse_entries(t: Seq<Lexeme>, pos: int, table: Seq<(Text, Numeral)>) -> Result<
    (Seq<(Text, Form)>, int),
    Fault,
>
    decreases t.len() - pos, 1nat,
{
    if pos < 0 || pos >= t.len() {
        Err(parse_fault(unterminated(Lexeme::RightBrace)))
    } else if t[pos] == Lexeme::RightBrace {
        Ok((Seq::empty(), pos + 1))
    } else {
        match parse_form(t, pos, table) {
            Err(e) => Err(e),
            Ok((k, next)) => if key_of(k) is None {
                Err(parse_fault("Map keys must be keywords or strings"@))
            } else if next >= t.len() {
                Err(parse_fault("Map missing value for key"@))
            } else if next <= pos {
                Err(parse_fault(unterminated(Lexeme::RightBrace)))
            } else {
                match parse_form(t, next, table) {
                    Err(e) => Err(e),
                    Ok((v, after)) => if after <= next || after > t.len() {
                        Err(parse_fault(unterminated(Lexeme::RightBrace)))
                    } else {
                        attach(seq![(key_of(k)->0, v)], parse_entries(t, after, table))
                    },
                }
            },
        }
    }
}

/// A form always takes at least one token.
pub proof fn lemma_parse_form_advances(t: Seq<Lexeme>, pos: int, table: Seq<(Text, Numeral)>)
    ensures
        parse_form(t, pos, table) matches Ok((_, next)) ==> pos < next <= t.len(),
    decreases t.len() - pos, 0nat,
{
    if 0 <= pos < t.len() {
        match t[pos] {
            Lexeme::LeftParen => lemma_parse_items_advances(t, pos + 1, Lexeme::RightParen, table),
            Lexeme::LeftBracket => lemma_parse_items_advances(
                t,
                pos + 1,
                Lexeme::RightBracket,
                table,
            ),
            Lexeme::LeftBrace => lemma_parse_entries_advances(t, pos + 1, table),
            Lexeme::Quote | Lexeme::Backquote | Lexeme::Tilde => lemma_parse_form_advances(
                t,
                pos + 1,
                table,
            ),
            _ => {},
        }
    }
}

/// A run of forms that is parsed ends after its closing delimiter.
pub proof fn lemma_parse_items_advances(
    t: Seq<Lexeme>,
    pos: int,
    close: Lexeme,
    table: Seq<(Text, Numeral)>,
)
    ensures
        parse_items(t, pos, close, table) matches Ok((_, next)) ==> pos < next <= t.len(),
    decreases t.len() - pos, 1nat,
{
    if 0 <= pos < t.len() && t[pos] != close {
        lemma_parse_form_advances(t, pos, table);
        match parse_form(t, pos, table) {
            Ok((_, next)) => lemma_parse_items_advances(t, next, close, table),
            Err(_) => {},
        }
    }
}

/// The entries of a map that are parsed end after the closing brace.
pub proof fn lemma_parse_entries_advances(t: Seq<Lexeme>, pos: int, table: Seq<(Text, Numeral)>)
    ensures
        parse_entries(t, pos, table) matches Ok((_, next)) ==> pos < next <= t.len(),
    decreases t.len() - pos, 1nat,
{
    if 0 <= pos < t.len() && t[pos] != Lexeme::RightBrace {
        lemma_parse_form_advances(t, pos, table);
        match parse_form(t, pos, table) {
            Ok((_, next)) => {
                lemma_parse_form_advances(t, next, table);
                match parse_form(t, next, table) {
                    Ok((_, after)) => lemma_parse_entries_advances(t, after, table),
                    Err(_) => {},
                }
            },
            Err(_) => {},
        }
    }
}

/// The forms from token `pos` to the end of the tokens.
pub open spec fn parse_all(t: Seq<Lexeme>, pos: int, table: Seq<(Text, Numeral)>) -> Result<
    Seq<Form>,
    Fault,
>
    decreases t.len() - pos,
{
    if pos < 0 || pos >= t.len() {
        Ok(Seq::empty())
    } else {
        match parse_form(t, pos, table) {
            Err(e) => Err(e),
            Ok((f, next)) => if next <= pos || next > t.len() {
                Err(parse_fault("Unexpected end of input"@))
            } else {
                match parse_all(t, next, table) {
                    Ok(rest) => Ok(seq![f] + rest),
                    Err(e) => Err(e),
                }
            },
        }
    }
}

/// What `read` makes of a text: the one form that it holds.
pub open spec fn read_text(s: Text, table: Seq<(Text, Numeral)>) -> Result<Form, Fault> {
    match tokens_of(s) {
        Err(e) => Err(e),
        Ok(t) => if t.len() == 0 {
            Err(parse_fault("Empty input"@))
        } else {
            match parse_form(t, 0, table) {
                Err(e) => Err(e),
                Ok((f, next)) => if next < t.len() {
                    Err(parse_fault("Extra input after expression"@))
                } else {
                    Ok(f)
                },
            }
        },
    }
}

/// What `read_all_forms` makes of a text: every form that it holds.
pub open spec fn read_all_text(s: Text, table: Seq<(Text, Numeral)>) -> Result<Seq<Form>, Fault> {
    match tokens_of(s) {
        Err(e) => Err(e),
        Ok(t) => parse_all(t, 0, table),
    }
}

/// The model of a parser result.
pub open spec fn parsed(r: Result<(Value, usize), EvalError>) -> Result<(Form, int), Fault> {
    match r {
        Ok((v, next)) => Ok((v@, next as int)),
        Err(e) => Err(e@),
    }
}

/// The model of a result that holds several values.
pub open spec fn parsed_items(r: Result<(Vec<Value>, usize), EvalError>) -> Result<
    (Seq<Form>, int),
    Fault,
> {
    match r {
        Ok((v, next)) => Ok((forms(v@), next as int)),
        Err(e) => Err(e@),
    }
}

/// The model of a result that holds a value.
pub open spec fn read_result(r: Result<Value, EvalError>) -> Result<Form, Fault> {
    match r {
        Ok(v) => Ok(v@),
        Err(e) => Err(e@),
    }
}

/// The model of a result that holds a list of values.
pub open spec fn read_all_result(r: Result<Vec<Value>, EvalError>) -> Result<Seq<Form>, Fault> {
    match r {
        Ok(v) => Ok(forms(v@)),
        Err(e) => Err(e@),
    }
}

fn find_numeral(table: &Vec<(String, Number)>, spelling: &str) -> (i: usize)
    ensures
        i == first_index(names(numerals(table@)), spelling@),
        i <= table@.len(),
{
    let mut i: usize = 0;
    while i < table.len() && !table[i].0.as_str().eq(spelling)
        invariant
            i <= table.len(),
            forall|j: int| 0 <= j < i ==> table@[j].0@ != spelling@,
        decreases table.len() - i,
    {
        i += 1;
    }
    proof {
        lemma_first_index_is(names(numerals(table@)), spelling@, i as int);
    }
    i
}

/// The whole number that `spelling` stands for, where it spells one of up
/// to fifteen digits.
pub fn read_whole(spelling: &str) -> (r: Option<Number>)
    ensures
        match r {
            Some(n) => whole_spelling(spelling@) && n@ == spelled_whole(spelling@),
            None => !whole_spelling(spelling@),
        },
{
    let chars = chars_of(spelling);
    let minus = chars.len() > 0 && chars[0] == '-';
    let start: usize = if minus {
        1
    } else {
        0
    };
    if chars.len() - start < 1 || chars.len() - start > 15 {
        return None;
    }
    let mut i: usize = start;
    while i < chars.len()
        invariant
            start <= i <= chars.len(),
            chars@ == spelling@,
            start == (if chars@.len() > 0 && chars@[0] == '-' {
                1int
            } else {
                0int
            }),
            forall|j: int| start <= j < i ==> is_digit(#[trigger] chars@[j]),
        decreases chars.len() - i,
    {
        if !is_digit_char(chars[i]) {
            assert(!is_digit(spelling@[i as int]));
            return None;
        }
        i += 1;
    }
    let value = parse_decimal(&chars, start, chars.len());
    let bits = whole_number_bits(value, minus);
    let mut text = String::new();
    if minus {
        text.push('-');
    }
    text.append(decimal_of(value).as_str());
    proof {
        if minus {
            assert(chars@.subrange(1, chars@.len() as int) =~= chars@.skip(1));
        } else {
            assert(chars@.subrange(0, chars@.len() as int) =~= chars@);
        }
        assert(text@ =~= spelled_whole(spelling@).text);
    }
    Some(Number { bits, text })
}

fn is_close(t: &Token, close: &Token) -> (b: bool)
    requires
        close@ == Lexeme::RightParen || close@ == Lexeme::RightBracket || close@
            == Lexeme::RightBrace,
    ensures
        b == (t@ == close@),
{
    match (t, close) {
        (Token::RightParen, Token::RightParen) => true,
        (Token::RightBracket, Token::RightBracket) => true,
        (Token::RightBrace, Token::RightBrace) => true,
        _ => false,
    }
}

fn unterminated_error(close: &Token) -> (e: EvalError)
    ensures
        e@ == parse_fault(unterminated(close@)),
{
    match close {
        Token::RightParen => parse_error(owned("Unterminated list")),
        Token::RightBracket => parse_error(owned("Unterminated vector")),
        _ => parse_error(owned("Unterminated map")),
    }
}

/// Parses the form that starts at token `pos`.
pub fn parse_at(tokens: &Vec<Token>, pos: usize, table: &Vec<(String, Number)>) -> (r: Result<
    (Value, usize),
    EvalError,
>)
    ensures
        parsed(r) == parse_form(lexemes(tokens@), pos as int, numerals(table@)),
        r matches Ok((_, next)) ==> pos < next <= tokens@.len(),
    decreases tokens@.len() - pos, 0nat,
{
    proof {
        lemma_parse_form_advances(lexemes(tokens@), pos as int, numerals(table@));
    }
    if pos >= tokens.len() {
        return Err(parse_error(owned("Unexpected end of input")));
    }
    match &tokens[pos] {
        Token::LeftParen => {
            match parse_items_at(tokens, pos + 1, Token::RightParen, table) {
                Ok((items, next)) => {
                    let v = Value::List(items);
                    proof {
                        lemma_views(v);
                    }
                    Ok((v, next))
                },
                Err(e) => Err(e),
            }
        },
        Token::LeftBracket => {
            match parse_items_at(tokens, pos + 1, Token::RightBracket, table) {
                Ok((items, next)) => {
                    let v = Value::Vector(items);
                    proof {
                        lemma_views(v);
                    }
                    Ok((v, next))
                },
                Err(e) => Err(e),
            }
        },
        Token::LeftBrace => {
            match parse_entries_at(tokens, pos + 1, table) {
                Ok((pairs, next)) => {
                    let v = Value::Dict(pairs);
                    proof {
                        lemma_views(v);
                    }
                    Ok((v, next))
                },
                Err(e) => Err(e),
            }
        },
        Token::Quote => {
            match parse_at(tokens, pos + 1, table) {
                Ok((f, next)) => Ok((wrap("quote", f), next)),
                Err(e) => Err(e),
            }
        },
        Token::Backquote => {
            match parse_at(tokens, pos + 1, table) {
                Ok((f, next)) => Ok((wrap("quasiquote", f), next)),
                Err(e) => Err(e),
            }
        },
        Token::Tilde => {
            match parse_at(tokens, pos + 1, table) {
                Ok((f, next)) => Ok((wrap("unquote", f), next)),
                Err(e) => Err(e),
            }
        },
        Token::Symbol(s) => Ok((Value::Symbol(s.clone()), pos + 1)),
        Token::Number(spelling) => {
            match read_whole(spelling.as_str()) {
                Some(n) => Ok((Value::Number(n), pos + 1)),
                None => {
                    let i = find_numeral(table, spelling.as_str());
                    if i < table.len() {
                        Ok((Value::Number(table[i].1.clone()), pos + 1))
                    } else {
                        Err(parse_error(join2("Invalid number: ", spelling.as_str())))
                    }
                },
            }
        },
        Token::Str(s) => Ok((Value::Str(s.clone()), pos + 1)),
        Token::Keyword(k) => Ok((Value::Keyword(k.clone()), pos + 1)),
        Token::Bool(b) => Ok((Value::Bool(*b), pos + 1)),
        Token::Nil => Ok((Value::Nil, pos + 1)),
        Token::RightParen => Err(parse_error(join2("Unexpected token: ", "RightParen"))),
        Token::RightBracket => Err(parse_error(join2("Unexpected token: ", "RightBracket"))),
        Token::RightBrace => Err(parse_error(join2("Unexpected token: ", "RightBrace"))),
    }
}

/// The list `(head f)`.
fn wrap(head: &str, f: Value) -> (v: Value)
    ensures
        v@ == Form::List(seq![Form::Symbol(head@), f@]),
{
    let mut items: Vec<Value> = Vec::new();
    items.push(Value::Symbol(owned(head)));
    items.push(f);
    let v = Value::List(items);
    proof {
        lemma_views(v);
        assert(forms(items@) =~= seq![Form::Symbol(head@), f@]);
    }
    v
}

/// Parses the forms from token `pos` up to the delimiter `close`.
pub fn parse_items_at(
    tokens: &Vec<Token>,
    pos: usize,
    close: Token,
    table: &Vec<(String, Number)>,
) -> (r: Result<(Vec<Value>, usize), EvalError>)
    requires
        close@ == Lexeme::RightParen || close@ == Lexeme::RightBracket,
        pos <= tokens@.len(),
    ensures
        parsed_items(r) == parse_items(lexemes(tokens@), pos as int, close@, numerals(table@)),
        r matches Ok((_, next)) ==> pos < next <= tokens@.len(),
    decreases tokens@.len() - pos, 1nat,
{
    let ghost t = lexemes(tokens@);
    let ghost nums = numerals(table@);
    let mut items: Vec<Value> = Vec::new();
    let mut at: usize = pos;
    assert(attach(forms(items@), parse_items(t, at as int, close@, nums)) == parse_items(
        t,
        pos as int,
        close@,
        nums,
    )) by {
        match parse_items(t, pos as int, close@, nums) {
            Ok((rest, _)) => {
                assert(forms(items@) + rest =~= rest);
            },
            Err(_) => {},
        }
    }
    while at < tokens.len()
        invariant
            pos <= at <= tokens@.len(),
            t == lexemes(tokens@),
            nums == numerals(table@),
            close@ == Lexeme::RightParen || close@ == Lexeme::RightBracket,
            attach(forms(items@), parse_items(t, at as int, close@, nums)) == parse_items(
                t,
                pos as int,
                close@,
                nums,
            ),
        decreases tokens@.len() - at,
    {
        if is_close(&tokens[at], &close) {
            assert(forms(items@) + Seq::<Form>::empty() =~= forms(items@));
            return Ok((items, at + 1));
        }
        let (f, next) = match parse_at(tokens, at, table) {
            Ok(found) => found,
            Err(e) => {
                return Err(e);
            },
        };
        proof {
            let rest = parse_items(t, next as int, close@, nums);
            match rest {
                Ok((more, _)) => {
                    assert(forms(items@) + (seq![f@] + more) =~= forms(items@).push(f@) + more);
                },
                Err(_) => {},
            }
            lemma_forms_push(items@, f);
        }
        items.push(f);
        at = next;
    }
    Err(unterminated_error(&close))
}

/// The map built from one more pair is the map built so far with the pair bound.
pub proof fn lemma_collect_push(pairs: Seq<(Text, Form)>, k: Text, v: Form)
    ensures
        collect(pairs.push((k, v))) == assign(collect(pairs), k, v),
{
    assert(pairs.push((k, v)).drop_last() =~= pairs);
}

/// Parses the entries of a map literal from token `pos` up to the closing
/// brace; a later entry replaces an earlier one with the same key.
pub fn parse_entries_at(tokens: &Vec<Token>, pos: usize, table: &Vec<(String, Number)>) -> (r:
    Result<(Vec<(String, Value)>, usize), EvalError>)
    requires
        pos <= tokens@.len(),
    ensures
        match parse_entries(lexemes(tokens@), pos as int, numerals(table@)) {
            Ok((pairs, next)) => r is Ok && entries(r->Ok_0.0@) == collect(pairs) && r->Ok_0.1
                == next,
            Err(e) => r is Err && r->Err_0@ == e,
        },
        r matches Ok((_, next)) ==> pos < next <= tokens@.len(),
    decreases tokens@.len() - pos, 1nat,
{
    let ghost t = lexemes(tokens@);
    let ghost nums = numerals(table@);
    let mut out: Vec<(String, Value)> = Vec::new();
    let ghost mut raw: Seq<(Text, Form)> = Seq::empty();
    let mut at: usize = pos;
    assert(entries(out@) =~= collect(raw));
    assert(attach(raw, parse_entries(t, at as int, nums)) == parse_entries(t, pos as int, nums))
        by {
        match parse_entries(t, pos as int, nums) {
            Ok((rest, _)) => {
                assert(raw + rest =~= rest);
            },
            Err(_) => {},
        }
    }
    while at < tokens.len()
        invariant
            pos <= at <= tokens@.len(),
            t == lexemes(tokens@),
            nums == numerals(table@),
            entries(out@) == collect(raw),
            attach(raw, parse_entries(t, at as int, nums)) == parse_entries(t, pos as int, nums),
        decreases tokens@.len() - at,
    {
        if let Token::RightBrace = &tokens[at] {
            assert(raw + Seq::<(Text, Form)>::empty() =~= raw);
            return Ok((out, at + 1));
        }
        let (k, next) = match parse_at(tokens, at, table) {
            Ok(found) => found,
            Err(e) => {
                return Err(e);
            },
        };
        let key = match k {
            Value::Keyword(k) => k,
            Value::Str(s) => s,
            _ => {
                return Err(parse_error(owned("Map keys must be keywords or strings")));
            },
        };
        if next >= tokens.len() {
            return Err(parse_error(owned("Map missing value for key")));
        }
        let (v, after) = match parse_at(tokens, next, table) {
            Ok(found) => found,
            Err(e) => {
                return Err(e);
            },
        };
        proof {
            let rest = parse_entries(t, after as int, nums);
            match rest {
                Ok((more, _)) => {
                    assert(raw + (seq![(key@, v@)] + more) =~= raw.push((key@, v@)) + more);
                },
                Err(_) => {},
            }
            lemma_collect_push(raw, key@, v@);
            raw = raw.push((key@, v@));
        }
        put_entry(&mut out, key, v);
        at = after;
    }
    Err(parse_error(owned("Unterminated map")))
}

/// Reads the one form that `input` holds. A numeric literal that spells a
/// whole number of up to fifteen digits becomes that number; any other
/// becomes the number that `table` gives for its spelling.
///
/// Fails with a parse error on a lexical error, on empty input, on input
/// that ends inside a form, on a closing delimiter that opens nothing, on a
/// map key that is no keyword or string, on a numeric literal that `table`
/// does not hold, and on input after the first form.
pub fn read(input: &str, table: &Vec<(String, Number)>) -> (r: Result<Value, EvalError>)
    ensures
        read_result(r) == read_text(input@, numerals(table@)),
{
    let tokens = match tokenize(input) {
        Ok(tokens) => tokens,
        Err(e) => {
            return Err(e);
        },
    };
    if tokens.len() == 0 {
        return Err(parse_error(owned("Empty input")));
    }
    let (form, next) = match parse_at(&tokens, 0, table) {
        Ok(found) => found,
        Err(e) => {
            return Err(e);
        },
    };
    if next < tokens.len() {
        return Err(parse_error(owned("Extra input after expression")));
    }
    Ok(form)
}

/// Reads every form that `input` holds, in order; none for input that holds
/// only blanks and comments.
pub fn read_all_forms(input: &str, table: &Vec<(String, Number)>) -> (r: Result<
    Vec<Value>,
    EvalError,
>)
    ensures
        read_all_result(r) == read_all_text(input@, numerals(table@)),
{
    let tokens = match tokenize(input) {
        Ok(tokens) => tokens,
        Err(e) => {
            return Err(e);
        },
    };
    let ghost t = lexemes(tokens@);
    let ghost nums = numerals(table@);
    let mut out: Vec<Value> = Vec::new();
    let mut at: usize = 0;
    while at < tokens.len()
        invariant
            at <= tokens@.len(),
            t == lexemes(tokens@),
            nums == numerals(table@),
            tokens_of(input@) == Ok::<Seq<Lexeme>, Fault>(t),
            match parse_all(t, at as int, nums) {
                Ok(rest) => parse_all(t, 0, nums) == Ok::<Seq<Form>, Fault>(forms(out@) + rest),
                Err(e) => parse_all(t, 0, nums) == Err::<Seq<Form>, Fault>(e),
            },
        decreases tokens@.len() - at,
    {
        let (f, next) = match parse_at(&tokens, at, table) {
            Ok(found) => found,
            Err(e) => {
                return Err(e);
            },
        };
        proof {
            match parse_all(t, next as int, nums) {
                Ok(more) => {
                    assert(forms(out@) + (seq![f@] + more) =~= forms(out@).push(f@) + more);
                },
                Err(_) => {},
            }
            lemma_forms_push(out@, f);
        }
        out.push(f);
        at = next;
    }
    assert(forms(out@) + Seq::<Form>::empty() =~= forms(out@));
    Ok(out)
}

/// The spellings of the numeric literals of `input`, in order; none where
/// `input` has a lexical error.
pub fn number_spellings(input: &str) -> (r: Vec<String>)
    ensures
        crate::value::texts(r@) == spellings(tokens_of(input@)),
{
    let mut out: Vec<String> = Vec::new();
    match tokenize(input) {
        Ok(tokens) => {
            let mut i: usize = 0;
            assert(lexemes(tokens@).take(0) =~= Seq::empty());
            assert(crate::value::texts(out@) =~= Seq::empty());
            while i < tokens.len()
                invariant
                    i <= tokens@.len(),
                    crate::value::texts(out@) == numeric(lexemes(tokens@).take(i as int)),
                decreases tokens@.len() - i,
            {
                proof {
                    let now = lexemes(tokens@).take(i + 1);
                    assert(now.drop_last() =~= lexemes(tokens@).take(i as int));
                }
                if let Token::Number(spelling) = &tokens[i] {
                    let s = spelling.clone();
                    proof {
                        crate::value::lemma_texts_push(out@, s);
                    }
                    out.push(s);
                }
                i += 1;
            }
            assert(lexemes(tokens@).take(tokens@.len() as int) =~= lexemes(tokens@));
        },
        Err(_) => {
            assert(crate::value::texts(out@) =~= Seq::empty());
        },
    }
    out
}

/// The spellings of the numeric tokens among `t`, in order.
pub open spec fn numeric(t: Seq<Lexeme>) -> Seq<Text>
    decreases t.len(),
{
    if t.len() == 0 {
        Seq::empty()
    } else {
        match t.last() {
            Lexeme::Number(s) => numeric(t.drop_last()).push(s),
            _ => numeric(t.drop_last()),
        }
    }
}

/// The spellings of the numeric tokens of a tokenizer result.
pub open spec fn spellings(r: Result<Seq<Lexeme>, Fault>) -> Seq<Text> {
    match r {
        Ok(t) => numeric(t),
        Err(_) => Seq::empty(),
    }
}

} // verus!
