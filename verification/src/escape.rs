//! Escape handling for character literals.
//!
//! Escapes are resolved at emission time, not at scan time: `\n`, `\t`,
//! `\r`, `\\`, `\'` and `\"` map to their control or quote characters, any
//! other backslash-prefixed character is kept verbatim, backslash included,
//! and a trailing backslash is kept as well.

use vstd::prelude::*;
use crate::chars::{chars_of, string_from_chars};

verus! {

/// The character a recognized escape stands for.
pub open spec fn escape_char(c: char) -> Option<char> {
    match c {
        'n' => Some('\n'),
        't' => Some('\t'),
        'r' => Some('\r'),
        '\\' => Some('\\'),
        '\'' => Some('\''),
        '"' => Some('"'),
        _ => None,
    }
}

/// The unescaped form of the input from position `i` on.
pub open spec fn unescape_from(cs: Seq<char>, i: int) -> Seq<char>
    decreases cs.len() - i when 0 <= i <= cs.len()
{
    if i >= cs.len() {
        Seq::empty()
    } else if cs[i] == '\\' {
        if i + 1 >= cs.len() {
            seq!['\\']
        } else {
            match escape_char(cs[i + 1]) {
                Some(e) => seq![e] + unescape_from(cs, i + 2),
                None => seq!['\\', cs[i + 1]] + unescape_from(cs, i + 2),
            }
        }
    } else {
        seq![cs[i]] + unescape_from(cs, i + 1)
    }
}

/// The unescaped form of a whole character sequence.
pub open spec fn unescape(cs: Seq<char>) -> Seq<char> {
    unescape_from(cs, 0)
}

/// Resolves escape sequences in a character literal's raw content.
pub fn unescape_string(s: &str) -> (r: String)
    ensures
        r@ == unescape(s@),
{
    let v = unescape_chars(s);
    string_from_chars(&v)
}

/// [`unescape_string`], as a character vector.
pub fn unescape_chars(s: &str) -> (r: Vec<char>)
    ensures
        r@ == unescape(s@),
{
    let cs = chars_of(s);
    let n = cs.len();
    let mut out: Vec<char> = Vec::new();
    let mut i: usize = 0;
    while i < n
        invariant
            n == cs@.len(),
            cs@ == s@,
            i <= n,
            unescape_from(cs@, 0) =~= out@ + unescape_from(cs@, i as int),
        decreases n - i,
    {
        let c = cs[i];
        if c == '\\' {
            if i + 1 < n {
                let e = cs[i + 1];
                if e == 'n' {
                    out.push('\n');
                } else if e == 't' {
                    out.push('\t');
                } else if e == 'r' {
                    out.push('\r');
                } else if e == '\\' {
                    out.push('\\');
                } else if e == '\'' {
                    out.push('\'');
                } else if e == '"' {
                    out.push('"');
                } else {
                    out.push('\\');
                    out.push(e);
                }
                i = i + 2;
            } else {
                out.push('\\');
                i = i + 1;
            }
        } else {
            out.push(c);
            i = i + 1;
        }
        proof {
            assert(unescape_from(cs@, 0) =~= out@ + unescape_from(cs@, i as int));
        }
    }
    out
}

} // verus!
