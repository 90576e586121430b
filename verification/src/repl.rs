//! What an interactive front end needs to decide: whether the input so far
//! is a complete form.
use vstd::prelude::*;
use crate::text::{chars_of, Text};

verus! {

/// The opening parentheses of `s` minus the closing ones, counted outside
/// string literals. `in_string` says whether `s` starts inside a string
/// literal, `escaped` whether a backslash stands directly before it.
pub open spec fn paren_balance(s: Text, in_string: bool, escaped: bool) -> int
    decreases s.len(),
{
    if s.len() == 0 {
        0
    } else {
        let ch = s[0];
        let rest = s.drop_first();
        if ch == '\\' && in_string {
            paren_balance(rest, in_string, !escaped)
        } else if ch == '"' && !escaped {
            paren_balance(rest, !in_string, false)
        } else if ch == '(' && !in_string {
            paren_balance(rest, in_string, false) + 1
        } else if ch == ')' && !in_string {
            paren_balance(rest, in_string, false) - 1
        } else {
            paren_balance(rest, in_string, false)
        }
    }
}

/// How many more parentheses `s` opens than it closes, string literals
/// left aside. A line is a complete form when the count over all its lines
/// is not positive.
pub fn count_parens(s: &str) -> (count: i32)
    requires
        s@.len() <= i32::MAX,
    ensures
        count == paren_balance(s@, false, false),
{
    let chars = chars_of(s);
    let mut count: i32 = 0;
    let mut in_string = false;
    let mut escaped = false;
    let mut i: usize = 0;
    assert(chars@.skip(0) =~= chars@);
    while i < chars.len()
        invariant
            i <= chars.len(),
            chars@.len() <= i32::MAX,
            -(i as int) <= count <= i as int,
            count + paren_balance(chars@.skip(i as int), in_string, escaped) == paren_balance(
                chars@,
                false,
                false,
            ),
        decreases chars.len() - i,
    {
        let ch = chars[i];
        assert(chars@.skip(i as int).drop_first() =~= chars@.skip(i + 1));
        if ch == '\\' && in_string {
            escaped = !escaped;
        } else {
            if ch == '"' && !escaped {
                in_string = !in_string;
            } else if ch == '(' && !in_string {
                count = count + 1;
            } else if ch == ')' && !in_string {
                count = count - 1;
            }
            escaped = false;
        }
        i += 1;
    }
    count
}

} // verus!
