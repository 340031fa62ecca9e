//! Pascal-case names made from identifiers: words start with a capital
//! letter, the separators `-`, `_` and space are dropped, and a digit ends
//! a word.
use vstd::prelude::*;
use vstd::string::StrSliceExecFns;

verus! {

/// Whether std's `char::is_numeric` holds of `c` (Unicode Nd, Nl or No).
pub uninterp spec fn char_numeric(c: char) -> bool;

/// Whether std's `char::is_lowercase` holds of `c` (Unicode Lowercase).
pub uninterp spec fn char_lowercase(c: char) -> bool;

/// Whether std's `char::is_uppercase` holds of `c` (Unicode Uppercase).
pub uninterp spec fn char_uppercase(c: char) -> bool;

/// `char::is_numeric` of std.
///
/// The contract claims only that the answer is the one named by
/// `char_numeric` for `c`.
#[verifier::external_body]
fn is_numeric(c: char) -> (r: bool)
    ensures
        r == char_numeric(c),
{
    c.is_numeric()
}

/// `char::is_lowercase` of std.
///
/// The contract claims only that the answer is the one named by
/// `char_lowercase` for `c`.
#[verifier::external_body]
fn is_lowercase(c: char) -> (r: bool)
    ensures
        r == char_lowercase(c),
{
    c.is_lowercase()
}

/// `char::is_uppercase` of std.
///
/// The contract claims only that the answer is the one named by
/// `char_uppercase` for `c`.
#[verifier::external_body]
fn is_uppercase(c: char) -> (r: bool)
    ensures
        r == char_uppercase(c),
{
    c.is_uppercase()
}

/// `c` with an ASCII lowercase letter made uppercase.
pub open spec fn ascii_upper(c: char) -> char {
    if 97 <= (c as int) <= 122 {
        ((c as int) - 32) as char
    } else {
        c
    }
}

/// `c` with an ASCII uppercase letter made lowercase.
pub open spec fn ascii_lower(c: char) -> char {
    if 65 <= (c as int) <= 90 {
        ((c as int) + 32) as char
    } else {
        c
    }
}

/// `c` with an ASCII lowercase letter made uppercase, as
/// `char::to_ascii_uppercase` does.
fn to_ascii_uppercase(c: char) -> (r: char)
    ensures
        r == ascii_upper(c),
{
    if 'a' <= c && c <= 'z' {
        let b: u8 = (c as u8) - 32;
        b as char
    } else {
        c
    }
}

/// `c` with an ASCII uppercase letter made lowercase, as
/// `char::to_ascii_lowercase` does.
fn to_ascii_lowercase(c: char) -> (r: char)
    ensures
        r == ascii_lower(c),
{
    if 'A' <= c && c <= 'Z' {
        let b: u8 = (c as u8) + 32;
        b as char
    } else {
        c
    }
}

/// Whether `c` separates words.
pub open spec fn is_separator(c: char) -> bool {
    c == '-' || c == '_' || c == ' '
}

/// The state of the conversion after a character: whether a new word
/// starts, the last character kept in lowercase, and the text so far.
pub open spec fn pascal_step(st: (bool, char, Seq<char>), c: char) -> (bool, char, Seq<char>) {
    let (new_word, last, out) = st;
    if is_separator(c) {
        (true, last, out)
    } else if char_numeric(c) {
        (true, last, out.push(c))
    } else if new_word || (char_lowercase(last) && char_uppercase(c) && last != ' ') {
        (false, last, out.push(ascii_upper(c)))
    } else {
        (new_word, c, out.push(ascii_lower(c)))
    }
}

/// The state of the conversion after the characters of `s`.
pub open spec fn pascal_state(s: Seq<char>) -> (bool, char, Seq<char>)
    decreases s.len(),
{
    if s.len() == 0 {
        (true, ' ', Seq::empty())
    } else {
        pascal_step(pascal_state(s.drop_last()), s.last())
    }
}

/// `s` in Pascal case.
pub open spec fn pascal_case(s: Seq<char>) -> Seq<char> {
    pascal_state(s).2
}

/// `non_pascalized_string` in Pascal case: a word starts after a separator
/// (dropped), after a digit, and at an uppercase letter that follows a
/// lowercase one; its first letter is made uppercase and the others
/// lowercase (ASCII letters only).
pub fn to_pascal_case(non_pascalized_string: String) -> (r: String)
    ensures
        r@ == pascal_case(non_pascalized_string@),
{
    let s = non_pascalized_string.as_str();
    let n = s.unicode_len();
    let mut new_word: bool = true;
    let mut last_char: char = ' ';
    let mut out: Vec<char> = Vec::new();
    let mut i: usize = 0;
    while i < n
        invariant
            0 <= i <= n,
            n == s@.len(),
            s@ == non_pascalized_string@,
            pascal_state(s@.take(i as int)) == (new_word, last_char, out@),
        decreases n - i,
    {
        let c = s.get_char(i);
        assert(s@.take(i + 1).drop_last() =~= s@.take(i as int));
        assert(s@.take(i + 1).last() == c);
        if c == '-' || c == '_' || c == ' ' {
            new_word = true;
        } else if is_numeric(c) {
            new_word = true;
            out.push(c);
        } else if new_word || (is_lowercase(last_char) && is_uppercase(c) && last_char != ' ') {
            new_word = false;
            out.push(to_ascii_uppercase(c));
        } else {
            last_char = c;
            out.push(to_ascii_lowercase(c));
        }
        i = i + 1;
    }
    assert(s@.take(n as int) =~= s@);
    crate::strings::string_from_chars(out.as_slice())
}

} // verus!
