//! Printing and reading are inverse: a form that the reader can give is
//! given back by the reader from its printed text.
use vstd::prelude::*;
use crate::env::{assign, distinct, lookup, names};
use crate::parser::{
    collect, key_of, literal, parse_entries, parse_form, parse_items, read_text, spelled_whole,
    whole_spelling,
};
use crate::number::{
    lemma_whole_bits, lemma_whole_bits_back, negative, prints_whole, rendering, whole_magnitude,
};
use crate::printer::{
    escape_char, escape_upto, quoted, show, show_entries, show_items, show_key, symbolic_upto,
};
use crate::reader::{
    chain, in_class, is_digit, is_space, lemma_run_end, numeral_at, numeral_end, punctuation,
    run_end, string_body, string_end, symbol_char, symbol_start, tokens_from, tokens_of, unescape,
    word, CharClass, Lexeme,
};
use crate::text::{
    decimal, decimal_value, first_index, lemma_decimal, lemma_decimal_length,
    lemma_decimal_value_bound, lemma_first_index, lemma_first_index_is, lemma_pow10_15,
    lemma_pow10_grows, Text,
};
use crate::value::{Fault, Form, Numeral};

verus! {

/// Whether `w` stands in `s` at position `i`.
pub open spec fn occurs<T>(s: Seq<T>, i: int, w: Seq<T>) -> bool {
    0 <= i && i + w.len() <= s.len() && s.subrange(i, i + w.len()) == w
}

proof fn lemma_occurs_at<T>(s: Seq<T>, i: int, w: Seq<T>, k: int)
    requires
        occurs(s, i, w),
        0 <= k < w.len(),
    ensures
        s[i + k] == w[k],
{
    assert(s.subrange(i, i + w.len())[k] == s[i + k]);
}

proof fn lemma_occurs_split<T>(s: Seq<T>, i: int, a: Seq<T>, b: Seq<T>)
    requires
        occurs(s, i, a + b),
    ensures
        occurs(s, i, a),
        occurs(s, i + a.len(), b),
{
    let w = a + b;
    assert(s.subrange(i, i + a.len()) =~= a) by {
        assert forall|k: int| 0 <= k < a.len() implies s.subrange(i, i + a.len())[k] == a[k] by {
            lemma_occurs_at(s, i, w, k);
        }
    }
    assert(s.subrange(i + a.len(), i + a.len() + b.len()) =~= b) by {
        assert forall|k: int| 0 <= k < b.len() implies s.subrange(
            i + a.len(),
            i + a.len() + b.len(),
        )[k] == b[k] by {
            lemma_occurs_at(s, i, w, a.len() + k);
        }
    }
}

proof fn lemma_occurs_whole<T>(s: Seq<T>)
    ensures
        occurs(s, 0, s),
{
    assert(s.subrange(0, s.len() as int) =~= s);
}

/// Whether the text of a token may end before position `j`: at the end of
/// the text, or before a space or a closing delimiter.
pub open spec fn boundary(s: Text, j: int) -> bool {
    j >= s.len() || s[j] == ' ' || s[j] == ')' || s[j] == ']' || s[j] == '}'
}

/// The names that the reader gives to symbols: a start character and
/// symbol characters after it, no minus sign before a digit, and none of
/// `true`, `false` and `nil`.
pub open spec fn symbol_name(s: Text) -> bool {
    &&& s.len() > 0
    &&& symbol_start(s[0])
    &&& forall|i: int| 0 <= i < s.len() ==> symbol_char(#[trigger] s[i])
    &&& !(s[0] == '-' && s.len() > 1 && is_digit(s[1]))
    &&& s != "true"@
    &&& s != "false"@
    &&& s != "nil"@
}

/// The names that the reader gives to keywords: symbol characters, at
/// least one.
pub open spec fn keyword_name(k: Text) -> bool {
    k.len() > 0 && forall|i: int| 0 <= i < k.len() ==> symbol_char(#[trigger] k[i])
}

/// The spellings that the reader takes for numbers: digits and dots after
/// a digit, or after a minus sign and a digit.
pub open spec fn numeral_text(t: Text) -> bool {
    &&& t.len() > 0
    &&& is_digit(t[0]) || (t[0] == '-' && t.len() > 1 && is_digit(t[1]))
    &&& forall|i: int| 1 <= i < t.len() ==> is_digit(#[trigger] t[i]) || t[i] == '.'
}

/// The numbers that the reader can give: a whole number below `10^15` in
/// magnitude that carries its own rendering; any other number where
/// `table` holds it under the rendering that it carries, a numeric
/// spelling that the reader does not convert by itself.
pub open spec fn readable_number(n: Numeral, table: Seq<(Text, Numeral)>) -> bool {
    if prints_whole(n.bits) {
        n.text == rendering(n)
    } else {
        numeral_text(n.text) && !whole_spelling(n.text) && lookup(table, n.text) == Some(n)
    }
}

/// The forms that the reader can give: symbols and keywords with names of
/// the reader's, numbers that `table` holds under their own rendering,
/// strings, booleans, `nil`, and lists, vectors and maps of such forms, a
/// map with no key twice.
pub open spec fn readable(f: Form, table: Seq<(Text, Numeral)>) -> bool
    decreases f,
{
    match f {
        Form::Symbol(s) => symbol_name(s),
        Form::Keyword(k) => keyword_name(k),
        Form::Number(n) => readable_number(n, table),
        Form::Str(_) => true,
        Form::Bool(_) => true,
        Form::Nil => true,
        Form::List(items) => forall|i: int|
            0 <= i < items.len() ==> readable(#[trigger] items[i], table),
        Form::Vector(items) => forall|i: int|
            0 <= i < items.len() ==> readable(#[trigger] items[i], table),
        Form::Dict(pairs) => distinct(names(pairs)) && forall|i: int|
            0 <= i < pairs.len() ==> readable((#[trigger] pairs[i]).1, table),
        _ => false,
    }
}

/// The token of a map key as it is printed.
pub open spec fn key_token(k: Text) -> Lexeme {
    if k.len() > 0 && symbolic_upto(k, k.len()) {
        Lexeme::Keyword(k)
    } else {
        Lexeme::Str(k)
    }
}

/// The tokens of a form as it is printed.
pub open spec fn spelled(f: Form) -> Seq<Lexeme>
    decreases f, 0nat,
{
    match f {
        Form::Symbol(s) => seq![Lexeme::Symbol(s)],
        Form::Keyword(k) => seq![Lexeme::Keyword(k)],
        Form::Number(n) => seq![Lexeme::Number(rendering(n))],
        Form::Str(s) => seq![Lexeme::Str(s)],
        Form::Bool(b) => seq![Lexeme::Bool(b)],
        Form::Nil => seq![Lexeme::Nil],
        Form::List(items) => seq![Lexeme::LeftParen] + spelled_items(items, items.len())
            + seq![Lexeme::RightParen],
        Form::Vector(items) => seq![Lexeme::LeftBracket] + spelled_items(items, items.len())
            + seq![Lexeme::RightBracket],
        Form::Dict(pairs) => seq![Lexeme::LeftBrace] + spelled_entries(pairs, pairs.len())
            + seq![Lexeme::RightBrace],
        _ => Seq::empty(),
    }
}

/// The tokens of the first `n` of `items`.
pub open spec fn spelled_items(items: Seq<Form>, n: nat) -> Seq<Lexeme>
    decreases items, n,
{
    if n == 0 || n > items.len() {
        Seq::empty()
    } else {
        spelled_items(items, (n - 1) as nat) + spelled(items[n - 1])
    }
}

/// The tokens of the first `n` of `pairs`.
pub open spec fn spelled_entries(pairs: Seq<(Text, Form)>, n: nat) -> Seq<Lexeme>
    decreases pairs, n,
{
    if n == 0 || n > pairs.len() {
        Seq::empty()
    } else {
        spelled_entries(pairs, (n - 1) as nat) + seq![key_token(pairs[n - 1].0)] + spelled(
            pairs[n - 1].1,
        )
    }
}

proof fn lemma_chain_chain<T>(a: Seq<T>, b: Seq<T>, rest: Result<Seq<T>, Fault>)
    ensures
        chain(a, chain(b, rest)) == chain(a + b, rest),
{
    match rest {
        Ok(r) => {
            assert(a + (b + r) =~= (a + b) + r);
        },
        Err(_) => {},
    }
}

proof fn lemma_chain_empty<T>(rest: Result<Seq<T>, Fault>)
    ensures
        chain(Seq::<T>::empty(), rest) == rest,
{
    match rest {
        Ok(r) => {
            assert(Seq::<T>::empty() + r =~= r);
        },
        Err(_) => {},
    }
}

/// The run of characters of a class that starts at `i` ends at `j` where
/// all the characters between are of the class and the one at `j` is not.
proof fn lemma_run_end_is(s: Text, i: int, class: CharClass, j: int)
    requires
        0 <= i <= j <= s.len(),
        forall|k: int| i <= k < j ==> in_class(class, #[trigger] s[k]),
        j < s.len() ==> !in_class(class, s[j]),
    ensures
        run_end(s, i, class) == j,
    decreases j - i,
{
    if i < j {
        assert(in_class(class, s[i]));
        lemma_run_end_is(s, i + 1, class, j);
    }
}

proof fn lemma_symbolic(k: Text, n: nat)
    requires
        n <= k.len(),
    ensures
        symbolic_upto(k, n) <==> forall|i: int| 0 <= i < n ==> symbol_char(#[trigger] k[i]),
    decreases n,
{
    if n > 0 {
        lemma_symbolic(k, (n - 1) as nat);
        if symbolic_upto(k, n) {
            assert forall|i: int| 0 <= i < n implies symbol_char(#[trigger] k[i]) by {
                if i < n - 1 {
                } else {
                    assert(symbol_char(k[n - 1]));
                }
            }
        } else {
            if symbolic_upto(k, (n - 1) as nat) {
                assert(!symbol_char(k[n - 1]));
            }
        }
    }
}

/// A word of symbol characters that ends at a boundary is one token.
proof fn lemma_word(s: Text, i: int, name: Text)
    requires
        name.len() > 0,
        symbol_start(name[0]),
        forall|k: int| 0 <= k < name.len() ==> symbol_char(#[trigger] name[k]),
        !(name[0] == '-' && name.len() > 1 && is_digit(name[1])),
        occurs(s, i, name),
        boundary(s, i + name.len()),
    ensures
        tokens_from(s, i) == chain(seq![word(name)], tokens_from(s, i + name.len())),
{
    let j = i + name.len();
    lemma_occurs_at(s, i, name, 0);
    assert forall|k: int| i <= k < j implies in_class(CharClass::Symbol, #[trigger] s[k]) by {
        lemma_occurs_at(s, i, name, k - i);
    }
    lemma_run_end_is(s, i, CharClass::Symbol, j);
    if name.len() > 1 {
        lemma_occurs_at(s, i, name, 1);
    }
    assert(!numeral_at(s, i));
    assert(s.subrange(i, j) == name);
}

/// A colon and symbol characters that end at a boundary are one keyword.
proof fn lemma_keyword(s: Text, i: int, k: Text)
    requires
        keyword_name(k),
        occurs(s, i, seq![':'] + k),
        boundary(s, i + 1 + k.len()),
    ensures
        tokens_from(s, i) == chain(seq![Lexeme::Keyword(k)], tokens_from(s, i + 1 + k.len())),
{
    let j = i + 1 + k.len();
    lemma_occurs_split(s, i, seq![':'], k);
    lemma_occurs_at(s, i, seq![':'], 0);
    assert forall|m: int| i + 1 <= m < j implies in_class(CharClass::Symbol, #[trigger] s[m]) by {
        lemma_occurs_at(s, i + 1, k, m - i - 1);
    }
    lemma_run_end_is(s, i + 1, CharClass::Symbol, j);
    assert(s.subrange(i + 1, j) == k);
}

/// The spelling of a number that ends at a boundary is one token.
proof fn lemma_numeral(s: Text, i: int, t: Text)
    requires
        numeral_text(t),
        occurs(s, i, t),
        boundary(s, i + t.len()),
    ensures
        tokens_from(s, i) == chain(seq![Lexeme::Number(t)], tokens_from(s, i + t.len())),
{
    let j = i + t.len();
    lemma_occurs_at(s, i, t, 0);
    if t[0] == '-' {
        lemma_occurs_at(s, i, t, 1);
        assert forall|m: int| i + 1 <= m < j implies in_class(
            CharClass::Numeral,
            #[trigger] s[m],
        ) by {
            lemma_occurs_at(s, i, t, m - i);
        }
        lemma_run_end_is(s, i + 1, CharClass::Numeral, j);
    } else {
        assert forall|m: int| i <= m < j implies in_class(CharClass::Numeral, #[trigger] s[m]) by {
            lemma_occurs_at(s, i, t, m - i);
        }
        lemma_run_end_is(s, i, CharClass::Numeral, j);
    }
    assert(numeral_at(s, i));
    assert(numeral_end(s, i) == j);
    assert(s.subrange(i, j) == t);
}

/// The escaped text of the first `k` characters is the start of the
/// escaped text of the first `m`.
proof fn lemma_escape_grows(x: Text, k: nat, m: nat)
    requires
        k <= m <= x.len(),
    ensures
        escape_upto(x, k).is_prefix_of(escape_upto(x, m)),
        escape_upto(x, k).len() <= escape_upto(x, m).len(),
    decreases m - k,
{
    if k < m {
        lemma_escape_grows(x, k, (m - 1) as nat);
        let a = escape_upto(x, k);
        let b = escape_upto(x, (m - 1) as nat);
        let c = escape_upto(x, m);
        assert(c == b + escape_char(x[m - 1]));
        assert(a =~= c.subrange(0, a.len() as int)) by {
            assert(a == b.subrange(0, a.len() as int));
        }
    } else {
        assert(escape_upto(x, k) =~= escape_upto(x, m).subrange(0, escape_upto(x, k).len() as int));
    }
}

/// The escaped character `k` of `x` stands in the escaped text of `x`
/// right after the escaped text of the characters before it.
proof fn lemma_escape_piece(s: Text, start: int, x: Text, k: nat)
    requires
        k < x.len(),
        occurs(s, start, escape_upto(x, x.len())),
    ensures
        occurs(s, start + escape_upto(x, k).len(), escape_char(x[k as int])),
        escape_upto(x, k + 1) == escape_upto(x, k) + escape_char(x[k as int]),
        escape_upto(x, k + 1).len() <= escape_upto(x, x.len()).len(),
{
    let all = escape_upto(x, x.len());
    let next = escape_upto(x, k + 1);
    let before = escape_upto(x, k);
    lemma_escape_grows(x, k + 1, x.len());
    assert(occurs(s, start, next)) by {
        assert(next == all.subrange(0, next.len() as int));
        assert(s.subrange(start, start + next.len()) =~= next) by {
            assert forall|j: int| 0 <= j < next.len() implies s.subrange(
                start,
                start + next.len(),
            )[j] == next[j] by {
                lemma_occurs_at(s, start, all, j);
                assert(next[j] == all.subrange(0, next.len() as int)[j]);
            }
        }
    }
    lemma_occurs_split(s, start, before, escape_char(x[k as int]));
}

/// Reading the contents of a printed string from the place of its
/// character `k` on gives the characters from `k` on, and ends at the
/// closing quote.
proof fn lemma_string_scan(s: Text, start: int, x: Text, k: nat)
    requires
        k <= x.len(),
        occurs(s, start, escape_upto(x, x.len()) + seq!['"']),
    ensures
        string_end(s, start + escape_upto(x, k).len()) == start + escape_upto(x, x.len()).len(),
        string_body(s, start + escape_upto(x, k).len()) == x.skip(k as int),
    decreases x.len() - k,
{
    let all = escape_upto(x, x.len());
    lemma_occurs_split(s, start, all, seq!['"']);
    let p = start + escape_upto(x, k).len();
    if k == x.len() {
        lemma_occurs_at(s, start + all.len(), seq!['"'], 0);
        assert(x.skip(k as int) =~= Seq::<char>::empty());
    } else {
        lemma_escape_piece(s, start, x, k);
        lemma_string_scan(s, start, x, k + 1);
        let c = x[k as int];
        let piece = escape_char(c);
        lemma_occurs_at(s, p, piece, 0);
        assert(x.skip(k as int) =~= seq![c] + x.skip(k as int + 1));
        if c == '\\' || c == '"' {
            lemma_occurs_at(s, p, piece, 1);
            assert(s[p] == '\\');
            assert(p + 1 < s.len());
            assert(unescape(s[p + 1]) =~= seq![c]);
        } else {
            assert(s[p] == c);
        }
    }
}

/// A printed string is one token.
proof fn lemma_string(s: Text, i: int, x: Text)
    requires
        occurs(s, i, quoted(x)),
    ensures
        tokens_from(s, i) == chain(seq![Lexeme::Str(x)], tokens_from(s, i + quoted(x).len())),
{
    let body = escape_upto(x, x.len());
    assert(quoted(x) =~= seq!['"'] + (body + seq!['"']));
    lemma_occurs_split(s, i, seq!['"'], body + seq!['"']);
    lemma_occurs_at(s, i, seq!['"'], 0);
    lemma_string_scan(s, i + 1, x, 0);
    assert(escape_upto(x, 0) =~= Seq::<char>::empty());
    assert(x.skip(0) =~= x);
}

/// A printed map key that a space follows is one token.
proof fn lemma_key(s: Text, i: int, k: Text)
    requires
        occurs(s, i, show_key(k)),
        i + show_key(k).len() < s.len(),
        s[i + show_key(k).len()] == ' ',
    ensures
        tokens_from(s, i) == chain(seq![key_token(k)], tokens_from(s, i + show_key(k).len())),
{
    if k.len() > 0 && symbolic_upto(k, k.len()) {
        lemma_symbolic(k, k.len());
        lemma_keyword(s, i, k);
    } else {
        lemma_string(s, i, k);
    }
}

/// The printed text of a readable form, standing in a text before a
/// boundary, is cut into the tokens of the form.
pub proof fn lemma_tokens(f: Form, table: Seq<(Text, Numeral)>, s: Text, i: int)
    requires
        readable(f, table),
        occurs(s, i, show(f)),
        boundary(s, i + show(f).len()),
    ensures
        tokens_from(s, i) == chain(spelled(f), tokens_from(s, i + show(f).len())),
        show(f).len() > 0,
    decreases f, 0nat,
{
    match f {
        Form::Symbol(name) => {
            lemma_word(s, i, name);
        },
        Form::Keyword(k) => {
            lemma_keyword(s, i, k);
        },
        Form::Number(n) => {
            if prints_whole(n.bits) {
                law_whole_rendering_is_numeral(n);
            }
            lemma_numeral(s, i, rendering(n));
        },
        Form::Str(x) => {
            lemma_string(s, i, x);
        },
        Form::Bool(b) => {
            reveal_strlit("true");
            reveal_strlit("false");
            if b {
                let name = "true"@;
                assert(name[0] == 't' && name[1] == 'r' && name[2] == 'u' && name[3] == 'e');
                lemma_word(s, i, name);
            } else {
                let name = "false"@;
                assert(name[0] == 'f' && name[1] == 'a' && name[2] == 'l' && name[3] == 's'
                    && name[4] == 'e');
                assert("false"@ != "true"@);
                lemma_word(s, i, name);
            }
        },
        Form::Nil => {
            reveal_strlit("true");
            reveal_strlit("false");
            reveal_strlit("nil");
            let name = "nil"@;
            assert(name[0] == 'n' && name[1] == 'i' && name[2] == 'l');
            assert(name != "true"@ && name != "false"@);
            lemma_word(s, i, name);
        },
        Form::List(items) => {
            let inner = show_items(items, items.len());
            assert(show(f) =~= seq!['('] + (inner + seq![')']));
            lemma_occurs_split(s, i, seq!['('], inner + seq![')']);
            lemma_occurs_split(s, i + 1, inner, seq![')']);
            lemma_occurs_at(s, i, seq!['('], 0);
            lemma_occurs_at(s, i + 1 + inner.len(), seq![')'], 0);
            lemma_tokens_items(items, table, items.len(), s, i + 1);
            let j = i + 1 + inner.len();
            lemma_chain_chain(
                seq![Lexeme::LeftParen],
                spelled_items(items, items.len()),
                tokens_from(s, j),
            );
            lemma_chain_chain(
                seq![Lexeme::LeftParen] + spelled_items(items, items.len()),
                seq![Lexeme::RightParen],
                tokens_from(s, j + 1),
            );
        },
        Form::Vector(items) => {
            let inner = show_items(items, items.len());
            assert(show(f) =~= seq!['['] + (inner + seq![']']));
            lemma_occurs_split(s, i, seq!['['], inner + seq![']']);
            lemma_occurs_split(s, i + 1, inner, seq![']']);
            lemma_occurs_at(s, i, seq!['['], 0);
            lemma_occurs_at(s, i + 1 + inner.len(), seq![']'], 0);
            lemma_tokens_items(items, table, items.len(), s, i + 1);
            let j = i + 1 + inner.len();
            lemma_chain_chain(
                seq![Lexeme::LeftBracket],
                spelled_items(items, items.len()),
                tokens_from(s, j),
            );
            lemma_chain_chain(
                seq![Lexeme::LeftBracket] + spelled_items(items, items.len()),
                seq![Lexeme::RightBracket],
                tokens_from(s, j + 1),
            );
        },
        Form::Dict(pairs) => {
            let inner = show_entries(pairs, pairs.len());
            assert(show(f) =~= seq!['{'] + (inner + seq!['}']));
            lemma_occurs_split(s, i, seq!['{'], inner + seq!['}']);
            lemma_occurs_split(s, i + 1, inner, seq!['}']);
            lemma_occurs_at(s, i, seq!['{'], 0);
            lemma_occurs_at(s, i + 1 + inner.len(), seq!['}'], 0);
            lemma_tokens_entries(pairs, table, pairs.len(), s, i + 1);
            let j = i + 1 + inner.len();
            lemma_chain_chain(
                seq![Lexeme::LeftBrace],
                spelled_entries(pairs, pairs.len()),
                tokens_from(s, j),
            );
            lemma_chain_chain(
                seq![Lexeme::LeftBrace] + spelled_entries(pairs, pairs.len()),
                seq![Lexeme::RightBrace],
                tokens_from(s, j + 1),
            );
        },
        _ => {},
    }
}

/// The printed text of the first `n` of `items` is cut into their tokens.
pub proof fn lemma_tokens_items(
    items: Seq<Form>,
    table: Seq<(Text, Numeral)>,
    n: nat,
    s: Text,
    i: int,
)
    requires
        n <= items.len(),
        forall|k: int| 0 <= k < items.len() ==> readable(#[trigger] items[k], table),
        occurs(s, i, show_items(items, n)),
        boundary(s, i + show_items(items, n).len()),
    ensures
        tokens_from(s, i) == chain(
            spelled_items(items, n),
            tokens_from(s, i + show_items(items, n).len()),
        ),
    decreases items, n,
{
    if n == 0 {
        lemma_chain_empty(tokens_from(s, i));
    } else if n == 1 {
        lemma_tokens(items[0], table, s, i);
        assert(spelled_items(items, 1) =~= spelled(items[0])) by {
            assert(spelled_items(items, 0) =~= Seq::<Lexeme>::empty());
        }
    } else {
        let before = show_items(items, (n - 1) as nat);
        let last = show(items[n - 1]);
        assert(show_items(items, n) =~= before + (seq![' '] + last));
        lemma_occurs_split(s, i, before, seq![' '] + last);
        lemma_occurs_split(s, i + before.len(), seq![' '], last);
        lemma_occurs_at(s, i + before.len(), seq![' '], 0);
        lemma_tokens_items(items, table, (n - 1) as nat, s, i);
        let p = i + before.len();
        assert(tokens_from(s, p) == tokens_from(s, p + 1));
        lemma_tokens(items[n - 1], table, s, p + 1);
        lemma_chain_chain(
            spelled_items(items, (n - 1) as nat),
            spelled(items[n - 1]),
            tokens_from(s, p + 1 + last.len()),
        );
    }
}

/// The printed text of the first `n` of `pairs` is cut into their tokens.
pub proof fn lemma_tokens_entries(
    pairs: Seq<(Text, Form)>,
    table: Seq<(Text, Numeral)>,
    n: nat,
    s: Text,
    i: int,
)
    requires
        n <= pairs.len(),
        forall|k: int| 0 <= k < pairs.len() ==> readable((#[trigger] pairs[k]).1, table),
        occurs(s, i, show_entries(pairs, n)),
        boundary(s, i + show_entries(pairs, n).len()),
    ensures
        tokens_from(s, i) == chain(
            spelled_entries(pairs, n),
            tokens_from(s, i + show_entries(pairs, n).len()),
        ),
    decreases pairs, n,
{
    if n == 0 {
        lemma_chain_empty(tokens_from(s, i));
    } else {
        let before = if n == 1 {
            Seq::<char>::empty()
        } else {
            show_entries(pairs, (n - 1) as nat) + seq![' ']
        };
        let key = show_key(pairs[n - 1].0);
        let value = show(pairs[n - 1].1);
        assert(show_entries(pairs, n) =~= before + (key + (seq![' '] + value)));
        lemma_occurs_split(s, i, before, key + (seq![' '] + value));
        let p = i + before.len();
        lemma_occurs_split(s, p, key, seq![' '] + value);
        lemma_occurs_split(s, p + key.len(), seq![' '], value);
        lemma_occurs_at(s, p + key.len(), seq![' '], 0);
        let done = if n == 1 {
            Seq::<Lexeme>::empty()
        } else {
            spelled_entries(pairs, (n - 1) as nat)
        };
        assert(spelled_entries(pairs, (n - 1) as nat) =~= done);
        if n == 1 {
            lemma_chain_empty(tokens_from(s, p));
        } else {
            let earlier = show_entries(pairs, (n - 1) as nat);
            lemma_occurs_split(s, i, earlier, seq![' ']);
            lemma_occurs_at(s, i + earlier.len(), seq![' '], 0);
            lemma_tokens_entries(pairs, table, (n - 1) as nat, s, i);
            assert(tokens_from(s, i + earlier.len()) == tokens_from(s, p));
        }
        assert(tokens_from(s, i) == chain(done, tokens_from(s, p)));
        lemma_key(s, p, pairs[n - 1].0);
        let q = p + key.len();
        assert(tokens_from(s, q) == tokens_from(s, q + 1));
        lemma_tokens(pairs[n - 1].1, table, s, q + 1);
        lemma_chain_chain(
            seq![key_token(pairs[n - 1].0)],
            spelled(pairs[n - 1].1),
            tokens_from(s, q + 1 + value.len()),
        );
        lemma_chain_chain(
            done,
            seq![key_token(pairs[n - 1].0)] + spelled(pairs[n - 1].1),
            tokens_from(s, q + 1 + value.len()),
        );
        assert(spelled_entries(pairs, n) =~= done + (seq![key_token(pairs[n - 1].0)] + spelled(
            pairs[n - 1].1,
        )));
    }
}

/// Whether a token closes a list, a vector or a map.
pub open spec fn closes(t: Lexeme) -> bool {
    t is RightParen || t is RightBracket || t is RightBrace
}

/// The tokens of a readable form are at least one, and the first closes
/// nothing.
proof fn lemma_first_token(f: Form, table: Seq<(Text, Numeral)>)
    requires
        readable(f, table),
    ensures
        spelled(f).len() > 0,
        !closes(spelled(f)[0]),
{
}

proof fn lemma_items_grow(items: Seq<Form>, k: nat, m: nat)
    requires
        k <= m <= items.len(),
    ensures
        spelled_items(items, k).is_prefix_of(spelled_items(items, m)),
        spelled_items(items, k).len() <= spelled_items(items, m).len(),
    decreases m - k,
{
    let a = spelled_items(items, k);
    if k < m {
        lemma_items_grow(items, k, (m - 1) as nat);
        let b = spelled_items(items, (m - 1) as nat);
        let c = spelled_items(items, m);
        assert(c == b + spelled(items[m - 1]));
        assert(a == b.subrange(0, a.len() as int));
        assert(a =~= c.subrange(0, a.len() as int));
    } else {
        assert(a =~= a.subrange(0, a.len() as int));
    }
}

proof fn lemma_entries_grow(pairs: Seq<(Text, Form)>, k: nat, m: nat)
    requires
        k <= m <= pairs.len(),
    ensures
        spelled_entries(pairs, k).is_prefix_of(spelled_entries(pairs, m)),
        spelled_entries(pairs, k).len() <= spelled_entries(pairs, m).len(),
    decreases m - k,
{
    let a = spelled_entries(pairs, k);
    if k < m {
        lemma_entries_grow(pairs, k, (m - 1) as nat);
        let b = spelled_entries(pairs, (m - 1) as nat);
        let c = spelled_entries(pairs, m);
        assert(c == b + seq![key_token(pairs[m - 1].0)] + spelled(pairs[m - 1].1));
        assert(a == b.subrange(0, a.len() as int));
        assert(a =~= c.subrange(0, a.len() as int));
    } else {
        assert(a =~= a.subrange(0, a.len() as int));
    }
}

/// Where `whole` stands at `start` and `part` is the beginning of `whole`,
/// `part` stands at `start`.
proof fn lemma_occurs_prefix<T>(t: Seq<T>, start: int, whole: Seq<T>, part: Seq<T>)
    requires
        occurs(t, start, whole),
        part.is_prefix_of(whole),
    ensures
        occurs(t, start, part),
{
    assert(t.subrange(start, start + part.len()) =~= part) by {
        assert forall|j: int| 0 <= j < part.len() implies t.subrange(
            start,
            start + part.len(),
        )[j] == part[j] by {
            lemma_occurs_at(t, start, whole, j);
            assert(part[j] == whole.subrange(0, part.len() as int)[j]);
        }
    }
}

/// A map whose keys are distinct is built as it stands.
proof fn lemma_collect_distinct(pairs: Seq<(Text, Form)>, n: nat)
    requires
        n <= pairs.len(),
        distinct(names(pairs)),
    ensures
        collect(pairs.take(n as int)) == pairs.take(n as int),
    decreases n,
{
    let now = pairs.take(n as int);
    if n == 0 {
        assert(now =~= Seq::empty());
    } else {
        lemma_collect_distinct(pairs, (n - 1) as nat);
        let before = pairs.take(n - 1);
        assert(now.drop_last() =~= before);
        let key = now.last().0;
        assert(key == pairs[n - 1].0);
        assert forall|j: int| 0 <= j < before.len() implies names(before)[j] != key by {
            assert(names(pairs)[j] == pairs[j].0);
            assert(names(pairs)[n - 1] == pairs[n - 1].0);
        }
        lemma_first_index_is(names(before), key, before.len() as int);
        assert(assign(before, key, now.last().1) =~= now);
    }
}

/// The rendering of a readable number is read back as the number.
proof fn lemma_rendering_read_back(n: Numeral, table: Seq<(Text, Numeral)>)
    requires
        readable_number(n, table),
    ensures
        literal(rendering(n), table) == Some(n),
{
    if prints_whole(n.bits) {
        let m = whole_magnitude(n.bits);
        let t = rendering(n);
        let digits = decimal(m);
        lemma_decimal(m);
        lemma_pow10_15();
        lemma_decimal_length(m, 15);
        lemma_whole_bits_back(n.bits);
        if negative(n.bits) {
            assert(t =~= seq!['-'] + digits);
            assert(t[0] == '-');
            assert(t.skip(1) =~= digits);
            assert forall|i: int| 1 <= i < t.len() implies is_digit(#[trigger] t[i]) by {
                assert(t[i] == digits[i - 1]);
            }
            assert(whole_spelling(t));
        } else {
            assert(t =~= digits);
            assert(t[0] != '-');
            assert(whole_spelling(t));
        }
    }
}

/// The number that the reader makes of a whole spelling is one that the
/// reader can give.
proof fn lemma_spelled_whole_readable(t: Text, table: Seq<(Text, Numeral)>)
    requires
        whole_spelling(t),
    ensures
        readable_number(spelled_whole(t), table),
{
    let minus = t.len() > 0 && t[0] == '-';
    let digits = if minus {
        t.skip(1)
    } else {
        t
    };
    let v = decimal_value(digits, digits.len());
    lemma_decimal_value_bound(digits, digits.len());
    lemma_pow10_grows(digits.len(), 15);
    lemma_pow10_15();
    lemma_whole_bits(v, minus);
}

/// The tokens of a readable form are parsed into the form.
pub proof fn lemma_parse(f: Form, table: Seq<(Text, Numeral)>, t: Seq<Lexeme>, pos: int)
    requires
        readable(f, table),
        occurs(t, pos, spelled(f)),
    ensures
        parse_form(t, pos, table) == Ok::<(Form, int), Fault>((f, pos + spelled(f).len())),
    decreases f, 0nat,
{
    lemma_first_token(f, table);
    lemma_occurs_at(t, pos, spelled(f), 0);
    match f {
        Form::Number(n) => {
            lemma_rendering_read_back(n, table);
        },
        Form::List(items) => {
            let inner = spelled_items(items, items.len());
            assert(spelled(f) =~= seq![Lexeme::LeftParen] + (inner + seq![Lexeme::RightParen]));
            lemma_occurs_split(
                t,
                pos,
                seq![Lexeme::LeftParen],
                inner + seq![Lexeme::RightParen],
            );
            lemma_parse_items(items, table, 0, t, pos + 1, Lexeme::RightParen);
            assert(spelled_items(items, 0) =~= Seq::<Lexeme>::empty());
            assert(items.skip(0) =~= items);
        },
        Form::Vector(items) => {
            let inner = spelled_items(items, items.len());
            assert(spelled(f) =~= seq![Lexeme::LeftBracket] + (inner + seq![
                Lexeme::RightBracket,
            ]));
            lemma_occurs_split(
                t,
                pos,
                seq![Lexeme::LeftBracket],
                inner + seq![Lexeme::RightBracket],
            );
            lemma_parse_items(items, table, 0, t, pos + 1, Lexeme::RightBracket);
            assert(spelled_items(items, 0) =~= Seq::<Lexeme>::empty());
            assert(items.skip(0) =~= items);
        },
        Form::Dict(pairs) => {
            let inner = spelled_entries(pairs, pairs.len());
            assert(spelled(f) =~= seq![Lexeme::LeftBrace] + (inner + seq![Lexeme::RightBrace]));
            lemma_occurs_split(
                t,
                pos,
                seq![Lexeme::LeftBrace],
                inner + seq![Lexeme::RightBrace],
            );
            lemma_parse_entries(pairs, table, 0, t, pos + 1);
            assert(spelled_entries(pairs, 0) =~= Seq::<Lexeme>::empty());
            assert(pairs.skip(0) =~= pairs);
            lemma_collect_distinct(pairs, pairs.len());
            assert(pairs.take(pairs.len() as int) =~= pairs);
        },
        _ => {},
    }
}

/// From item `k` on, the tokens of the items of a list or vector are
/// parsed into the items, up to the closing delimiter.
pub proof fn lemma_parse_items(
    items: Seq<Form>,
    table: Seq<(Text, Numeral)>,
    k: nat,
    t: Seq<Lexeme>,
    start: int,
    close: Lexeme,
)
    requires
        k <= items.len(),
        forall|j: int| 0 <= j < items.len() ==> readable(#[trigger] items[j], table),
        occurs(t, start, spelled_items(items, items.len()) + seq![close]),
        close is RightParen || close is RightBracket,
    ensures
        parse_items(t, start + spelled_items(items, k).len(), close, table) == Ok::<
            (Seq<Form>, int),
            Fault,
        >((items.skip(k as int), start + spelled_items(items, items.len()).len() + 1)),
    decreases items, items.len() - k,
{
    let all = spelled_items(items, items.len());
    lemma_occurs_split(t, start, all, seq![close]);
    let p = start + spelled_items(items, k).len();
    lemma_items_grow(items, k, items.len());
    if k == items.len() {
        lemma_occurs_at(t, start + all.len(), seq![close], 0);
        assert(items.skip(k as int) =~= Seq::<Form>::empty());
    } else {
        let item = items[k as int];
        let next = spelled_items(items, k + 1);
        assert(next == spelled_items(items, k) + spelled(item));
        lemma_items_grow(items, k + 1, items.len());
        lemma_occurs_prefix(t, start, all, next);
        lemma_occurs_split(t, start, spelled_items(items, k), spelled(item));
        lemma_first_token(item, table);
        lemma_occurs_at(t, p, spelled(item), 0);
        lemma_parse(item, table, t, p);
        lemma_parse_items(items, table, k + 1, t, start, close);
        assert(seq![item] + items.skip(k as int + 1) =~= items.skip(k as int));
    }
}

/// From entry `k` on, the tokens of the entries of a map are parsed into
/// the entries, up to the closing brace.
pub proof fn lemma_parse_entries(
    pairs: Seq<(Text, Form)>,
    table: Seq<(Text, Numeral)>,
    k: nat,
    t: Seq<Lexeme>,
    start: int,
)
    requires
        k <= pairs.len(),
        forall|j: int| 0 <= j < pairs.len() ==> readable((#[trigger] pairs[j]).1, table),
        occurs(t, start, spelled_entries(pairs, pairs.len()) + seq![Lexeme::RightBrace]),
    ensures
        parse_entries(t, start + spelled_entries(pairs, k).len(), table) == Ok::<
            (Seq<(Text, Form)>, int),
            Fault,
        >((pairs.skip(k as int), start + spelled_entries(pairs, pairs.len()).len() + 1)),
    decreases pairs, pairs.len() - k,
{
    let all = spelled_entries(pairs, pairs.len());
    lemma_occurs_split(t, start, all, seq![Lexeme::RightBrace]);
    let p = start + spelled_entries(pairs, k).len();
    lemma_entries_grow(pairs, k, pairs.len());
    if k == pairs.len() {
        lemma_occurs_at(t, start + all.len(), seq![Lexeme::RightBrace], 0);
        assert(pairs.skip(k as int) =~= Seq::<(Text, Form)>::empty());
    } else {
        let key = pairs[k as int].0;
        let value = pairs[k as int].1;
        let next = spelled_entries(pairs, k + 1);
        assert(next =~= spelled_entries(pairs, k) + (seq![key_token(key)] + spelled(value)));
        lemma_entries_grow(pairs, k + 1, pairs.len());
        lemma_occurs_prefix(t, start, all, next);
        lemma_occurs_split(
            t,
            start,
            spelled_entries(pairs, k),
            seq![key_token(key)] + spelled(value),
        );
        lemma_occurs_split(t, p, seq![key_token(key)], spelled(value));
        lemma_occurs_at(t, p, seq![key_token(key)], 0);
        lemma_first_token(value, table);
        lemma_parse(value, table, t, p + 1);
        lemma_parse_entries(pairs, table, k + 1, t, start);
        assert(seq![(key, value)] + pairs.skip(k as int + 1) =~= pairs.skip(k as int));
        assert(t[p] == key_token(key));
        let key_form = if key.len() > 0 && symbolic_upto(key, key.len()) {
            Form::Keyword(key)
        } else {
            Form::Str(key)
        };
        assert(parse_form(t, p, table) == Ok::<(Form, int), Fault>((key_form, p + 1)));
        assert(key_of(key_form) == Some(key));
        assert(p + 1 < t.len());
        let after = p + 1 + spelled(value).len();
        assert(parse_form(t, p + 1, table) == Ok::<(Form, int), Fault>((value, after)));
        assert(after == start + next.len());
        assert(after <= t.len());
        assert(parse_entries(t, after, table) == Ok::<(Seq<(Text, Form)>, int), Fault>(
            (pairs.skip(k as int + 1), start + all.len() + 1),
        ));
        assert(pairs[k as int] == (key, value));
    }
}

/// Reading gives back what was printed: for every form that the reader
/// can give, with numbers that `table` holds under their own rendering.
pub proof fn law_read_show(f: Form, table: Seq<(Text, Numeral)>)
    requires
        readable(f, table),
    ensures
        read_text(show(f), table) == Ok::<Form, Fault>(f),
{
    let s = show(f);
    lemma_occurs_whole(s);
    lemma_tokens(f, table, s, 0);
    let t = spelled(f);
    assert(t + Seq::<Lexeme>::empty() =~= t);
    lemma_occurs_whole(t);
    lemma_parse(f, table, t, 0);
    lemma_first_token(f, table);
}

/// Whether a token is one that the tokenizer gives.
pub open spec fn token_ok(t: Lexeme) -> bool {
    match t {
        Lexeme::Symbol(s) => symbol_name(s),
        Lexeme::Keyword(k) => keyword_name(k),
        Lexeme::Number(t) => numeral_text(t),
        _ => true,
    }
}

/// Whether every number of a table of numerals is one that the reader can
/// give.
pub open spec fn closed(table: Seq<(Text, Numeral)>) -> bool {
    forall|i: int|
        0 <= i < table.len() ==> readable_number((#[trigger] table[i]).1, table)
}

/// Every token that the tokenizer gives is well formed.
pub proof fn lemma_tokens_ok(s: Text, i: int)
    requires
        0 <= i,
    ensures
        tokens_from(s, i) matches Ok(ts) ==> forall|j: int|
            0 <= j < ts.len() ==> token_ok(#[trigger] ts[j]),
    decreases s.len() - i,
{
    if i < s.len() {
        let c = s[i];
        if is_space(c) {
            lemma_tokens_ok(s, i + 1);
        } else if punctuation(c) is Some {
            lemma_tokens_ok(s, i + 1);
        } else if c == '"' {
            crate::reader::lemma_string_end(s, i + 1);
            let end = string_end(s, i + 1);
            if end < s.len() {
                lemma_tokens_ok(s, end + 1);
            }
        } else if c == ':' {
            lemma_run_end(s, i + 1, CharClass::Symbol);
            let end = run_end(s, i + 1, CharClass::Symbol);
            if end != i + 1 {
                lemma_tokens_ok(s, end);
                let k = s.subrange(i + 1, end);
                assert forall|m: int| 0 <= m < k.len() implies symbol_char(#[trigger] k[m]) by {
                    assert(k[m] == s[i + 1 + m]);
                    assert(in_class(CharClass::Symbol, s[i + 1 + m]));
                }
            }
        } else if c == ';' {
            lemma_run_end(s, i + 1, CharClass::Comment);
            lemma_tokens_ok(s, run_end(s, i + 1, CharClass::Comment));
        } else if numeral_at(s, i) {
            lemma_run_end(s, i + 1, CharClass::Numeral);
            lemma_run_end(s, i, CharClass::Numeral);
            let end = numeral_end(s, i);
            lemma_tokens_ok(s, end);
            let t = s.subrange(i, end);
            assert(t[0] == s[i]);
            if s[i] == '-' {
                assert(in_class(CharClass::Numeral, s[i + 1]));
                assert(run_end(s, i + 1, CharClass::Numeral) == run_end(
                    s,
                    i + 2,
                    CharClass::Numeral,
                ));
                lemma_run_end(s, i + 2, CharClass::Numeral);
                assert(t[1] == s[i + 1]);
            } else {
                assert(in_class(CharClass::Numeral, s[i]));
            }
            assert forall|m: int| 1 <= m < t.len() implies is_digit(#[trigger] t[m]) || t[m]
                == '.' by {
                assert(t[m] == s[i + m]);
                assert(in_class(CharClass::Numeral, s[i + m]));
            }
        } else if symbol_start(c) {
            lemma_run_end(s, i + 1, CharClass::Symbol);
            lemma_run_end(s, i, CharClass::Symbol);
            let end = run_end(s, i, CharClass::Symbol);
            assert(end == run_end(s, i + 1, CharClass::Symbol));
            lemma_tokens_ok(s, end);
            let name = s.subrange(i, end);
            assert(name[0] == c);
            assert forall|m: int| 0 <= m < name.len() implies symbol_char(#[trigger] name[m]) by {
                assert(name[m] == s[i + m]);
                assert(in_class(CharClass::Symbol, s[i + m]));
            }
            if name.len() > 1 {
                assert(name[1] == s[i + 1]);
            }
        }
    }
}

/// The map that the reader builds has no key twice, and each of its
/// values is a value of one of the pairs read.
pub proof fn lemma_collect_readable(pairs: Seq<(Text, Form)>, table: Seq<(Text, Numeral)>)
    requires
        forall|j: int| 0 <= j < pairs.len() ==> readable((#[trigger] pairs[j]).1, table),
    ensures
        distinct(names(collect(pairs))),
        forall|j: int|
            0 <= j < collect(pairs).len() ==> readable((#[trigger] collect(pairs)[j]).1, table),
    decreases pairs.len(),
{
    if pairs.len() > 0 {
        let before = pairs.drop_last();
        assert forall|j: int| 0 <= j < before.len() implies readable(
            (#[trigger] before[j]).1,
            table,
        ) by {
            assert(before[j] == pairs[j]);
        }
        lemma_collect_readable(before, table);
        let data = collect(before);
        let key = pairs.last().0;
        let after = assign(data, key, pairs.last().1);
        crate::wellformed::lemma_assign_keeps_distinct(data, key, pairs.last().1);
        lemma_first_index(names(data), key);
        assert forall|j: int| 0 <= j < after.len() implies readable(
            (#[trigger] after[j]).1,
            table,
        ) by {
            let i = first_index(names(data), key);
            if i < data.len() {
                if j != i {
                    assert(after[j] == data[j]);
                }
            } else {
                if j < data.len() {
                    assert(after[j] == data[j]);
                }
            }
        }
    }
}

proof fn lemma_shorthand_names()
    ensures
        symbol_name("quote"@),
        symbol_name("quasiquote"@),
        symbol_name("unquote"@),
{
    reveal_strlit("quote");
    reveal_strlit("quasiquote");
    reveal_strlit("unquote");
    reveal_strlit("true");
    reveal_strlit("false");
    reveal_strlit("nil");
    let q = "quote"@;
    assert(q[0] == 'q' && q[1] == 'u' && q[2] == 'o' && q[3] == 't' && q[4] == 'e');
    let qq = "quasiquote"@;
    assert(qq[0] == 'q' && qq[1] == 'u' && qq[2] == 'a' && qq[3] == 's' && qq[4] == 'i' && qq[5]
        == 'q' && qq[6] == 'u' && qq[7] == 'o' && qq[8] == 't' && qq[9] == 'e');
    let u = "unquote"@;
    assert(u[0] == 'u' && u[1] == 'n' && u[2] == 'q' && u[3] == 'u' && u[4] == 'o' && u[5] == 't'
        && u[6] == 'e');
    assert("true"@.len() == 4 && "false"@.len() == 5 && "nil"@.len() == 3);
    assert("false"@[0] == 'f');
}

/// What the parser makes of well-formed tokens, with a closed table, is a
/// form that the reader can give.
pub proof fn lemma_parsed_readable(t: Seq<Lexeme>, pos: int, table: Seq<(Text, Numeral)>)
    requires
        forall|j: int| 0 <= j < t.len() ==> token_ok(#[trigger] t[j]),
        closed(table),
    ensures
        parse_form(t, pos, table) matches Ok((f, _)) ==> readable(f, table),
    decreases t.len() - pos, 0nat,
{
    if 0 <= pos < t.len() {
        assert(token_ok(t[pos]));
        match t[pos] {
            Lexeme::LeftParen => lemma_parsed_items_readable(
                t,
                pos + 1,
                Lexeme::RightParen,
                table,
            ),
            Lexeme::LeftBracket => lemma_parsed_items_readable(
                t,
                pos + 1,
                Lexeme::RightBracket,
                table,
            ),
            Lexeme::LeftBrace => {
                lemma_parsed_entries_readable(t, pos + 1, table);
                match parse_entries(t, pos + 1, table) {
                    Ok((pairs, _)) => lemma_collect_readable(pairs, table),
                    Err(_) => {},
                }
            },
            Lexeme::Quote | Lexeme::Backquote | Lexeme::Tilde => {
                lemma_parsed_readable(t, pos + 1, table);
                lemma_shorthand_names();
                match parse_form(t, pos + 1, table) {
                    Ok((f, _)) => {
                        let head = Form::Symbol(crate::parser::shorthand(t[pos])->0);
                        let items = seq![head, f];
                        assert(readable(head, table));
                        assert forall|j: int| 0 <= j < items.len() implies readable(
                            #[trigger] items[j],
                            table,
                        ) by {
                            if j == 0 {
                                assert(items[0] == head);
                            } else {
                                assert(items[1] == f);
                            }
                        }
                        assert(readable(Form::List(items), table));
                    },
                    Err(_) => {},
                }
            },
            Lexeme::Number(spelling) => {
                if whole_spelling(spelling) {
                    lemma_spelled_whole_readable(spelling, table);
                } else {
                    let i = first_index(names(table), spelling);
                    lemma_first_index(names(table), spelling);
                    if i < table.len() {
                        assert(names(table)[i] == table[i].0);
                    }
                }
            },
            _ => {},
        }
    }
}

/// The items that the parser makes of well-formed tokens are forms that
/// the reader can give.
pub proof fn lemma_parsed_items_readable(
    t: Seq<Lexeme>,
    pos: int,
    close: Lexeme,
    table: Seq<(Text, Numeral)>,
)
    requires
        forall|j: int| 0 <= j < t.len() ==> token_ok(#[trigger] t[j]),
        closed(table),
    ensures
        parse_items(t, pos, close, table) matches Ok((items, _)) ==> forall|j: int|
            0 <= j < items.len() ==> readable(#[trigger] items[j], table),
    decreases t.len() - pos, 1nat,
{
    if 0 <= pos < t.len() && t[pos] != close {
        lemma_parsed_readable(t, pos, table);
        match parse_form(t, pos, table) {
            Ok((f, next)) => {
                if next > pos && next <= t.len() {
                    lemma_parsed_items_readable(t, next, close, table);
                    match parse_items(t, next, close, table) {
                        Ok((rest, _)) => {
                            let items = seq![f] + rest;
                            assert forall|j: int| 0 <= j < items.len() implies readable(
                                #[trigger] items[j],
                                table,
                            ) by {
                                if j > 0 {
                                    assert(items[j] == rest[j - 1]);
                                }
                            }
                        },
                        Err(_) => {},
                    }
                }
            },
            Err(_) => {},
        }
    }
}

/// The values that the parser makes of the well-formed tokens of a map are
/// forms that the reader can give.
pub proof fn lemma_parsed_entries_readable(
    t: Seq<Lexeme>,
    pos: int,
    table: Seq<(Text, Numeral)>,
)
    requires
        forall|j: int| 0 <= j < t.len() ==> token_ok(#[trigger] t[j]),
        closed(table),
    ensures
        parse_entries(t, pos, table) matches Ok((pairs, _)) ==> forall|j: int|
            0 <= j < pairs.len() ==> readable((#[trigger] pairs[j]).1, table),
    decreases t.len() - pos, 1nat,
{
    if 0 <= pos < t.len() && t[pos] != Lexeme::RightBrace {
        match parse_form(t, pos, table) {
            Ok((k, next)) => {
                if key_of(k) is Some && pos < next < t.len() {
                    lemma_parsed_readable(t, next, table);
                    match parse_form(t, next, table) {
                        Ok((v, after)) => {
                            if next < after <= t.len() {
                                lemma_parsed_entries_readable(t, after, table);
                                match parse_entries(t, after, table) {
                                    Ok((rest, _)) => {
                                        let pairs = seq![(key_of(k)->0, v)] + rest;
                                        assert forall|j: int| 0 <= j < pairs.len() implies readable(
                                            (#[trigger] pairs[j]).1,
                                            table,
                                        ) by {
                                            if j > 0 {
                                                assert(pairs[j] == rest[j - 1]);
                                            }
                                        }
                                    },
                                    Err(_) => {},
                                }
                            }
                        },
                        Err(_) => {},
                    }
                }
            },
            Err(_) => {},
        }
    }
}

/// Whatever the reader gives, it gives back from the printed text: where
/// the table of numerals is closed, a form read from any text is printed
/// to a text from which the same form is read.
pub proof fn law_read_show_read(s: Text, table: Seq<(Text, Numeral)>)
    requires
        closed(table),
    ensures
        read_text(s, table) matches Ok(f) ==> read_text(show(f), table) == Ok::<Form, Fault>(f),
{
    match read_text(s, table) {
        Ok(f) => {
            lemma_tokens_ok(s, 0);
            let t = tokens_of(s)->Ok_0;
            lemma_parsed_readable(t, 0, table);
            law_read_show(f, table);
        },
        Err(_) => {},
    }
}

proof fn lemma_decimal_digits(n: nat)
    ensures
        decimal(n).len() > 0,
        forall|i: int| 0 <= i < decimal(n).len() ==> is_digit(#[trigger] decimal(n)[i]),
    decreases n,
{
    if n >= 10 {
        lemma_decimal_digits(n / 10);
        let before = decimal(n / 10);
        let all = decimal(n);
        assert forall|i: int| 0 <= i < all.len() implies is_digit(#[trigger] all[i]) by {
            if i < before.len() {
                assert(all[i] == before[i]);
            }
        }
    }
}

/// The rendering of a number that is printed as a whole number is a
/// numeric spelling.
pub proof fn law_whole_rendering_is_numeral(n: Numeral)
    requires
        prints_whole(n.bits),
    ensures
        numeral_text(rendering(n)),
{
    let digits = decimal(whole_magnitude(n.bits));
    lemma_decimal_digits(whole_magnitude(n.bits));
    let t = rendering(n);
    if negative(n.bits) {
        assert(t =~= seq!['-'] + digits);
        assert(t[0] == '-');
        assert(t[1] == digits[0]);
        assert forall|i: int| 1 <= i < t.len() implies is_digit(#[trigger] t[i]) || t[i] == '.' by {
            assert(t[i] == digits[i - 1]);
        }
    } else {
        assert(t =~= digits);
    }
}

} // verus!
