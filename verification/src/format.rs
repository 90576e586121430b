//! `printf`: a format string with numbered and unnumbered placeholders.
use vstd::prelude::*;
use crate::builtins::plain;
use crate::machine::{Ask, Cont, Control, Focus, Frame, HostRequest, Machine, State};
use crate::step::Rest;
use crate::text::{chars_of, decimal, decimal_string, owned, string_of, Text};
use crate::value::{forms, ErrorKind, Form, Value};

verus! {

/// `text` from position `i` on, with every occurrence of `pattern`
/// replaced, leftmost first and without overlap.
pub open spec fn replace_from(text: Text, i: int, pattern: Text, replacement: Text) -> Text
    decreases text.len() - i,
{
    if i < 0 || i >= text.len() {
        Seq::empty()
    } else if pattern.len() > 0 && pattern.is_prefix_of(text.skip(i)) {
        replacement + replace_from(text, i + pattern.len(), pattern, replacement)
    } else {
        seq![text[i]] + replace_from(text, i + 1, pattern, replacement)
    }
}

/// The placeholder for argument `n`: `%1` for the first after the format.
pub open spec fn placeholder(n: nat) -> Text {
    seq!['%'] + decimal(n)
}

/// `text` with the placeholders of the first `n` arguments after the
/// format replaced, one argument after the other.
pub open spec fn positional(text: Text, args: Seq<Form>, n: nat) -> Text
    decreases n,
{
    if n == 0 || n >= args.len() {
        text
    } else {
        replace_from(
            positional(text, args, (n - 1) as nat),
            0,
            placeholder(n),
            plain(args[n as int]),
        )
    }
}

/// `text` from position `i` on, with each `%s` replaced by the next
/// argument, `args[k]` first; a `%s` stays where the arguments have run
/// out.
pub open spec fn fill_from(text: Text, i: int, args: Seq<Form>, k: nat) -> Text
    decreases text.len() - i,
{
    if i < 0 || i >= text.len() {
        Seq::empty()
    } else if seq!['%', 's'].is_prefix_of(text.skip(i)) {
        (if k < args.len() {
            plain(args[k as int])
        } else {
            seq!['%', 's']
        }) + fill_from(text, i + 2, args, k + 1)
    } else {
        seq![text[i]] + fill_from(text, i + 1, args, k)
    }
}

/// What `printf` writes: the format, with the numbered placeholders
/// replaced first and the unnumbered ones after.
pub open spec fn formatted(args: Seq<Form>) -> Text
    recommends
        args.len() > 0,
{
    fill_from(positional(plain(args[0]), args, (args.len() - 1) as nat), 0, args, 1)
}

/// `(printf format ...)`: writes the format with its placeholders filled
/// in, and gives `nil`.
pub open spec fn printf(s: State, args: Seq<Form>) -> State {
    if args.len() == 0 {
        s.fail(ErrorKind::ArityError, "printf requires at least 1 argument"@)
    } else {
        s.push(Cont::Discard).to(Focus::Request(Ask::Emit { text: formatted(args) }))
    }
}

/// Whether `pattern` stands in `text` at position `i`.
fn stands_at(text: &Vec<char>, i: usize, pattern: &Vec<char>) -> (b: bool)
    requires
        i <= text@.len(),
    ensures
        b == pattern@.is_prefix_of(text@.skip(i as int)),
{
    if pattern.len() > text.len() - i {
        return false;
    }
    let mut j: usize = 0;
    while j < pattern.len()
        invariant
            j <= pattern.len(),
            i <= text.len(),
            i + pattern.len() <= text.len(),
            forall|k: int| 0 <= k < j ==> text@[i + k] == pattern@[k],
        decreases pattern.len() - j,
    {
        if text[i + j] != pattern[j] {
            assert(text@.skip(i as int)[j as int] != pattern@[j as int]);
            assert(!(pattern@ =~= text@.skip(i as int).subrange(0, pattern@.len() as int)));
            return false;
        }
        j += 1;
    }
    assert(pattern@ =~= text@.skip(i as int).subrange(0, pattern@.len() as int));
    true
}

fn push_all(out: &mut Vec<char>, more: &Vec<char>)
    ensures
        final(out)@ == old(out)@ + more@,
{
    let mut i: usize = 0;
    assert(out@ =~= old(out)@ + more@.take(0));
    while i < more.len()
        invariant
            i <= more.len(),
            out@ == old(out)@ + more@.take(i as int),
        decreases more.len() - i,
    {
        out.push(more[i]);
        assert(out@ =~= old(out)@ + more@.take(i + 1));
        i += 1;
    }
    assert(more@.take(more@.len() as int) =~= more@);
}

/// `text` with every occurrence of `pattern` replaced.
fn replace_all(text: &Vec<char>, pattern: &Vec<char>, replacement: &Vec<char>) -> (out: Vec<char>)
    ensures
        out@ == replace_from(text@, 0, pattern@, replacement@),
{
    let mut out: Vec<char> = Vec::new();
    let mut i: usize = 0;
    assert(out@ + replace_from(text@, 0, pattern@, replacement@) =~= replace_from(
        text@,
        0,
        pattern@,
        replacement@,
    ));
    while i < text.len()
        invariant
            i <= text.len(),
            out@ + replace_from(text@, i as int, pattern@, replacement@) == replace_from(
                text@,
                0,
                pattern@,
                replacement@,
            ),
        decreases text.len() - i,
    {
        let ghost before = out@;
        if pattern.len() > 0 && stands_at(text, i, pattern) {
            push_all(&mut out, replacement);
            assert(out@ + replace_from(text@, i + pattern@.len(), pattern@, replacement@)
                =~= before + (replacement@ + replace_from(
                text@,
                i + pattern@.len(),
                pattern@,
                replacement@,
            )));
            i += pattern.len();
        } else {
            out.push(text[i]);
            assert(out@ + replace_from(text@, i + 1, pattern@, replacement@) =~= before + (
            seq![text@[i as int]] + replace_from(text@, i + 1, pattern@, replacement@)));
            i += 1;
        }
    }
    assert(out@ + Seq::<char>::empty() =~= out@);
    out
}

/// A value as `println` writes it.
fn plain_chars(v: &Value) -> (r: Vec<char>)
    ensures
        r@ == plain(v@),
{
    match v {
        Value::Str(s) => chars_of(s.as_str()),
        other => chars_of(other.to_text().as_str()),
    }
}

/// `text` with each `%s` replaced by the next argument.
fn fill(text: &Vec<char>, args: &Vec<Value>) -> (out: Vec<char>)
    ensures
        out@ == fill_from(text@, 0, forms(args@), 1),
{
    let mut marker: Vec<char> = Vec::new();
    marker.push('%');
    marker.push('s');
    assert(marker@ =~= seq!['%', 's']);
    let mut out: Vec<char> = Vec::new();
    let mut i: usize = 0;
    let mut k: usize = 1;
    let ghost all = fill_from(text@, 0, forms(args@), 1);
    assert(out@ + all =~= all);
    while i < text.len()
        invariant
            i <= text.len(),
            marker@ == seq!['%', 's'],
            all == fill_from(text@, 0, forms(args@), 1),
            k <= i / 2 + 1,
            out@ + fill_from(text@, i as int, forms(args@), k as nat) == all,
        decreases text.len() - i,
    {
        let ghost before = out@;
        if stands_at(text, i, &marker) {
            if k < args.len() {
                let piece = plain_chars(&args[k]);
                push_all(&mut out, &piece);
                assert(forms(args@)[k as int] == args@[k as int]@);
            } else {
                push_all(&mut out, &marker);
            }
            let ghost piece = if k < args@.len() {
                plain(forms(args@)[k as int])
            } else {
                seq!['%', 's']
            };
            assert(out@ + fill_from(text@, i + 2, forms(args@), (k + 1) as nat) =~= before + (piece
                + fill_from(text@, i + 2, forms(args@), (k + 1) as nat)));
            i += 2;
            k += 1;
        } else {
            out.push(text[i]);
            assert(out@ + fill_from(text@, i + 1, forms(args@), k as nat) =~= before + (
            seq![text@[i as int]] + fill_from(text@, i + 1, forms(args@), k as nat)));
            i += 1;
        }
    }
    assert(out@ + Seq::<char>::empty() =~= out@);
    out
}

/// `(printf format ...)`.
pub(crate) fn run_printf(rest: Rest, args: Vec<Value>, Ghost(s): Ghost<State>) -> (m: Machine)
    requires
        rest.of(s),
    ensures
        m@ == printf(s, forms(args@)),
{
    if args.len() == 0 {
        return rest.fail(
            ErrorKind::ArityError,
            owned("printf requires at least 1 argument"),
            Ghost(s),
        );
    }
    let mut text = plain_chars(&args[0]);
    let mut n: usize = 1;
    while n < args.len()
        invariant
            1 <= n <= args.len(),
            text@ == positional(plain(args@[0]@), forms(args@), (n - 1) as nat),
        decreases args.len() - n,
    {
        let mut pattern: Vec<char> = Vec::new();
        pattern.push('%');
        let digits = chars_of(decimal_string(n).as_str());
        push_all(&mut pattern, &digits);
        assert(pattern@ =~= placeholder(n as nat));
        let value = plain_chars(&args[n]);
        assert(forms(args@)[n as int] == args@[n as int]@);
        text = replace_all(&text, &pattern, &value);
        n += 1;
    }
    let out = fill(&text, &args);
    let frame = Frame::Discard;
    rest.push(frame, Ghost(s)).to(
        Control::Request(HostRequest::Emit { text: string_of(&out) }),
        Ghost(s.push(frame@)),
    )
}

} // verus!
