//! The lexer: grammar text to a token stream.
//!
//! Single-character operators are recognized directly; `'...'`, `<...>` and
//! `[...]` are delimited forms whose raw content is kept (escapes are resolved
//! later, at emission time); identifiers match `[A-Za-z_][A-Za-z0-9_]*`. Any
//! other character, whitespace included, is silently skipped. An unterminated
//! delimited form is a scan error carrying the position just past the opening
//! delimiter; it swallows the rest of the input.
//!
//! The whole scan is pinned by the spec function [`scan_from`]: what
//! [`Scanner::scan`] returns is exactly `scan_from(input, 0)`.

use vstd::prelude::*;
use crate::chars::string_from_chars;

verus! {

#[derive(Debug, Clone, Copy, PartialEq, Eq, Structural)]
pub enum TokenType {
    /// `+`
    OneOrMore,
    /// `*`
    AnyNo,
    /// `^`
    Infinite,
    /// `?`
    Maybe,
    /// `|`
    Alternative,
    /// `;`
    Padding,
    /// `(`
    BracOpen,
    /// `)`
    BracClose,
    /// `:`
    Colon,
    /// `'...'`
    Character,
    /// `<...>`
    Probability,
    /// `[...]`
    Regex,
    /// rule names
    Identifier,
}

#[derive(Debug, Clone)]
pub struct Token {
    /// Character index of the token's first character in the input.
    pub pos: usize,
    pub typ: TokenType,
    /// Raw content: the text between delimiters, or the identifier itself;
    /// empty for operators.
    pub text: String,
}

impl View for Token {
    type V = (int, TokenType, Seq<char>);

    open spec fn view(&self) -> (int, TokenType, Seq<char>) {
        (self.pos as int, self.typ, self.text@)
    }
}

impl Token {
    pub fn new(pos: usize, typ: TokenType, text: String) -> (r: Token)
        ensures
            r@ == (pos as int, typ, text@),
            r.typ == typ,
            r.pos == pos,
            r.text@ == text@,
    {
        Token { pos, typ, text }
    }
}

#[derive(Debug, Clone)]
pub struct ScanError {
    /// Character index just past the unmatched opening delimiter.
    pub pos: usize,
    pub msg: String,
}

impl View for ScanError {
    type V = (int, Seq<char>);

    open spec fn view(&self) -> (int, Seq<char>) {
        (self.pos as int, self.msg@)
    }
}

impl ScanError {
    pub fn new(pos: usize, msg: String) -> (r: ScanError)
        ensures
            r@ == (pos as int, msg@),
    {
        ScanError { pos, msg }
    }
}

pub open spec fn is_alpha_spec(r: char) -> bool {
    (97 <= r as u32 && r as u32 <= 122) || (65 <= r as u32 && r as u32 <= 90)
}

pub open spec fn is_digit_spec(r: char) -> bool {
    48 <= r as u32 && r as u32 <= 57
}

pub open spec fn is_ident_start_spec(r: char) -> bool {
    is_alpha_spec(r) || r == '_'
}

pub open spec fn is_ident_part_spec(r: char) -> bool {
    is_alpha_spec(r) || is_digit_spec(r) || r == '_'
}

pub fn is_alpha(r: char) -> (b: bool)
    ensures
        b == is_alpha_spec(r),
{
    let c = r as u32;
    (97 <= c && c <= 122) || (65 <= c && c <= 90)
}

pub fn is_digit(r: char) -> (b: bool)
    ensures
        b == is_digit_spec(r),
{
    let c = r as u32;
    48 <= c && c <= 57
}

pub fn is_ident_start(r: char) -> (b: bool)
    ensures
        b == is_ident_start_spec(r),
{
    is_alpha(r) || r == '_'
}

pub fn is_ident_part(r: char) -> (b: bool)
    ensures
        b == is_ident_part_spec(r),
{
    is_alpha(r) || is_digit(r) || r == '_'
}

/// The token type of a single-character operator, if the character is one.
pub open spec fn op_token(c: char) -> Option<TokenType> {
    match c {
        '+' => Some(TokenType::OneOrMore),
        '*' => Some(TokenType::AnyNo),
        '^' => Some(TokenType::Infinite),
        '?' => Some(TokenType::Maybe),
        '|' => Some(TokenType::Alternative),
        ';' => Some(TokenType::Padding),
        '(' => Some(TokenType::BracOpen),
        ')' => Some(TokenType::BracClose),
        ':' => Some(TokenType::Colon),
        _ => None,
    }
}

/// Whether `c` opens a delimited form, and with which closer and token type.
pub open spec fn delim_of(c: char) -> Option<(char, TokenType)> {
    match c {
        '\'' => Some(('\'', TokenType::Character)),
        '<' => Some(('>', TokenType::Probability)),
        '[' => Some((']', TokenType::Regex)),
        _ => None,
    }
}

/// The message a scan error carries for an unterminated form opened by `c`.
pub open spec fn unterminated_msg(c: char) -> Seq<char> {
    if c == '\'' {
        "unterminated '''"@
    } else if c == '<' {
        "unterminated '<'"@
    } else {
        "unterminated '['"@
    }
}

/// The first index at or after `i` holding `close`, if any.
pub open spec fn find_close(cs: Seq<char>, i: int, close: char) -> Option<int>
    decreases cs.len() - i when 0 <= i <= cs.len()
{
    if i >= cs.len() {
        None
    } else if cs[i] == close {
        Some(i)
    } else {
        find_close(cs, i + 1, close)
    }
}

/// The first index at or after `i` whose character is not an identifier
/// part; the input's length if the run reaches the end.
pub open spec fn ident_end(cs: Seq<char>, i: int) -> int
    decreases cs.len() - i when 0 <= i <= cs.len()
{
    if i >= cs.len() {
        i
    } else if is_ident_part_spec(cs[i]) {
        ident_end(cs, i + 1)
    } else {
        i
    }
}

/// A found closer lies between the start of the search and the input's end.
pub proof fn lemma_find_close_bounds(cs: Seq<char>, i: int, close: char)
    requires
        0 <= i <= cs.len(),
    ensures
        (find_close(cs, i, close) is Some) ==> i <= find_close(cs, i, close)->Some_0 < cs.len(),
    decreases cs.len() - i,
{
    if i < cs.len() && cs[i] != close {
        lemma_find_close_bounds(cs, i + 1, close);
    }
}

/// The end of an identifier run lies between its start and the input's end.
pub proof fn lemma_ident_end_bounds(cs: Seq<char>, i: int)
    requires
        0 <= i <= cs.len(),
    ensures
        i <= ident_end(cs, i) <= cs.len(),
    decreases cs.len() - i,
{
    if i < cs.len() && is_ident_part_spec(cs[i]) {
        lemma_ident_end_bounds(cs, i + 1);
    }
}

/// The tokens and scan errors of the input from position `i` on. This is the
/// lexer: one recursive step per token.
pub open spec fn scan_from(cs: Seq<char>, i: int) -> (Seq<(int, TokenType, Seq<char>)>, Seq<
    (int, Seq<char>),
>)
    decreases cs.len() - i when 0 <= i <= cs.len() via scan_from_decreases
{
    if i >= cs.len() {
        (Seq::empty(), Seq::empty())
    } else {
        let c = cs[i];
        if op_token(c) is Some {
            let rest = scan_from(cs, i + 1);
            (seq![(i, op_token(c)->Some_0, Seq::<char>::empty())] + rest.0, rest.1)
        } else if delim_of(c) is Some {
            let close = delim_of(c)->Some_0.0;
            let typ = delim_of(c)->Some_0.1;
            match find_close(cs, i + 1, close) {
                Some(j) => {
                    let rest = scan_from(cs, j + 1);
                    (seq![(i, typ, cs.subrange(i + 1, j))] + rest.0, rest.1)
                },
                None => (Seq::empty(), seq![(i + 1, unterminated_msg(c))]),
            }
        } else if is_ident_start_spec(c) {
            let j = ident_end(cs, i + 1);
            let rest = scan_from(cs, j);
            (seq![(i, TokenType::Identifier, cs.subrange(i, j))] + rest.0, rest.1)
        } else {
            scan_from(cs, i + 1)
        }
    }
}

#[via_fn]
proof fn scan_from_decreases(cs: Seq<char>, i: int) {
    if 0 <= i < cs.len() {
        let c = cs[i];
        if delim_of(c) is Some {
            lemma_find_close_bounds(cs, i + 1, delim_of(c)->Some_0.0);
        } else if op_token(c) is None && is_ident_start_spec(c) {
            lemma_ident_end_bounds(cs, i + 1);
        }
    }
}

/// The views of a token vector, in order.
pub open spec fn token_views(ts: Seq<Token>) -> Seq<(int, TokenType, Seq<char>)> {
    ts.map(|i: int, t: Token| t@)
}

/// The views of a scan-error vector, in order.
pub open spec fn error_views(es: Seq<ScanError>) -> Seq<(int, Seq<char>)> {
    es.map(|i: int, e: ScanError| e@)
}

proof fn lemma_views_push(ts: Seq<Token>, t: Token)
    ensures
        token_views(ts.push(t)) =~= token_views(ts).push(t@),
{
}

proof fn lemma_error_views_push(es: Seq<ScanError>, e: ScanError)
    ensures
        error_views(es.push(e)) =~= error_views(es).push(e@),
{
}

pub struct Scanner {
    chars: Vec<char>,
    pos: usize,
    width: usize,
    curr_r: char,
    tokens: Vec<Token>,
}

impl Scanner {
    /// The input as a character sequence.
    pub closed spec fn input(self) -> Seq<char> {
        self.chars@
    }

    /// A freshly created scanner: nothing consumed, nothing produced.
    pub closed spec fn fresh(self) -> bool {
        self.pos == 0 && self.tokens@ =~= Seq::<Token>::empty()
    }

    pub fn new(input: String) -> (r: Scanner)
        ensures
            r.input() == input@,
            r.fresh(),
    {
        let chars: Vec<char> = crate::chars::chars_of(input.as_str());
        Scanner { chars, pos: 0, width: 0, curr_r: '\0', tokens: Vec::new() }
    }

    fn next(&mut self) -> (r: Option<char>)
        ensures
            final(self).chars == old(self).chars,
            final(self).tokens == old(self).tokens,
            old(self).pos >= old(self).chars@.len() ==> {
                &&& (r is None)
                &&& final(self).pos == old(self).pos
            },
            old(self).pos < old(self).chars@.len() ==> {
                &&& r == Some(old(self).chars@[old(self).pos as int])
                &&& final(self).pos == old(self).pos + 1
                &&& final(self).curr_r == old(self).chars@[old(self).pos as int]
            },
    {
        if self.pos >= self.chars.len() {
            self.width = 0;
            self.curr_r = '\0';
            return None;
        }
        let c = self.chars[self.pos];
        self.width = 1;
        self.pos = self.pos + 1;
        self.curr_r = c;
        Some(c)
    }

    fn peek(&self) -> (r: Option<char>)
        ensures
            self.pos >= self.chars@.len() ==> (r is None),
            self.pos < self.chars@.len() ==> r == Some(self.chars@[self.pos as int]),
    {
        if self.pos >= self.chars.len() {
            return None;
        }
        Some(self.chars[self.pos])
    }

    fn backup(&mut self)
        requires
            old(self).width <= old(self).pos,
        ensures
            final(self).pos == old(self).pos - old(self).width,
            final(self).chars == old(self).chars,
            final(self).tokens == old(self).tokens,
            final(self).width == old(self).width,
            final(self).curr_r == old(self).curr_r,
    {
        if self.width > 0 {
            self.pos = self.pos - self.width;
        }
    }

    fn curr(&self) -> (r: char)
        ensures
            r == self.curr_r,
    {
        self.curr_r
    }

    /// Consumes input until `close` and returns the content between the
    /// delimiters, or a scan error when the input ends first.
    fn scan_delimited(&mut self, open: char, close: char) -> (r: Result<String, ScanError>)
        requires
            old(self).pos <= old(self).chars@.len(),
            (delim_of(open) is Some),
            close == delim_of(open)->Some_0.0,
        ensures
            final(self).chars@ == old(self).chars@,
            final(self).tokens@ == old(self).tokens@,
            (match find_close(old(self).chars@, old(self).pos as int, close) {
                Some(j) => {
                    &&& (r is Ok)
                    &&& r->Ok_0@ == old(self).chars@.subrange(old(self).pos as int, j)
                    &&& final(self).pos == j + 1
                },
                None => {
                    &&& (r is Err)
                    &&& r->Err_0@ == (old(self).pos as int, unterminated_msg(open))
                    &&& final(self).pos == old(self).chars@.len()
                },
            }),
    {
        let start = self.pos;
        let mut buf: Vec<char> = Vec::new();
        let mut found = false;
        let ghost cs = self.chars@;
        let ghost toks0 = self.tokens@;
        loop
            invariant_except_break
                buf@ =~= cs.subrange(start as int, self.pos as int),
                find_close(cs, start as int, close) == find_close(cs, self.pos as int, close),
                !found,
            invariant
                self.chars@ == cs,
                self.tokens@ == toks0,
                start <= self.pos <= cs.len(),
            ensures
                self.chars@ == cs,
                self.tokens@ == toks0,
                start <= self.pos <= cs.len(),
                found ==> {
                    &&& find_close(cs, start as int, close) == Some(self.pos - 1)
                    &&& buf@ == cs.subrange(start as int, self.pos - 1)
                },
                !found ==> {
                    &&& (find_close(cs, start as int, close) is None)
                    &&& self.pos == cs.len()
                },
            decreases cs.len() - self.pos,
        {
            match self.next() {
                None => {
                    break;
                },
                Some(r) => {
                    let ghost pos0 = self.pos - 1;
                    if r == close {
                        found = true;
                        proof {
                            assert(find_close(cs, pos0, close) == Some(pos0));
                        }
                        break;
                    }
                    buf.push(r);
                    proof {
                        assert(buf@ =~= cs.subrange(start as int, self.pos as int));
                        assert(find_close(cs, pos0, close) == find_close(
                            cs,
                            self.pos as int,
                            close,
                        ));
                    }
                },
            }
        }
        if found {
            Ok(string_from_chars(&buf))
        } else {
            let msg: &str = if open == '\'' {
                "unterminated '''"
            } else if open == '<' {
                "unterminated '<'"
            } else {
                "unterminated '['"
            };
            Err(ScanError { pos: start, msg: msg.to_owned() })
        }
    }

    /// Consumes the identifier whose first character was just consumed and
    /// returns the whole identifier text.
    fn scan_identifier(&mut self) -> (r: String)
        requires
            1 <= old(self).pos <= old(self).chars@.len(),
            old(self).curr_r == old(self).chars@[old(self).pos - 1],
        ensures
            final(self).chars@ == old(self).chars@,
            final(self).tokens@ == old(self).tokens@,
            final(self).pos == ident_end(old(self).chars@, old(self).pos as int),
            r@ == old(self).chars@.subrange(
                old(self).pos - 1,
                ident_end(old(self).chars@, old(self).pos as int),
            ),
    {
        let mut buf: Vec<char> = Vec::new();
        buf.push(self.curr());
        let ghost cs = self.chars@;
        let ghost toks0 = self.tokens@;
        let ghost start = self.pos - 1;
        let ghost p0 = self.pos as int;
        loop
            invariant
                self.chars@ == cs,
                self.tokens@ == toks0,
                1 <= self.pos <= cs.len(),
                0 <= start < self.pos,
                start == p0 - 1,
                buf@ =~= cs.subrange(start, self.pos as int),
                ident_end(cs, p0) == ident_end(cs, self.pos as int),
            ensures
                self.chars@ == cs,
                self.tokens@ == toks0,
                self.pos as int == ident_end(cs, p0),
                buf@ =~= cs.subrange(start, self.pos as int),
            decreases cs.len() - self.pos,
        {
            match self.peek() {
                Some(r) => {
                    if is_ident_part(r) {
                        self.next();
                        buf.push(self.curr_r);
                        proof {
                            assert(buf@ =~= cs.subrange(start, self.pos as int));
                        }
                    } else {
                        break;
                    }
                },
                None => {
                    break;
                },
            }
        }
        string_from_chars(&buf)
    }

    /// Scans the whole input: exactly the tokens and errors that
    /// [`scan_from`] names, in order.
    pub fn scan(self) -> (r: (Vec<Token>, Vec<ScanError>))
        requires
            self.fresh(),
        ensures
            token_views(r.0@) == scan_from(self.input(), 0).0,
            error_views(r.1@) == scan_from(self.input(), 0).1,
    {
        let mut s = self;
        let mut errs: Vec<ScanError> = Vec::new();
        let ghost cs = s.chars@;
        loop
            invariant
                s.chars@ == cs,
                s.pos <= cs.len(),
                scan_from(cs, 0).0 =~= token_views(s.tokens@) + scan_from(cs, s.pos as int).0,
                scan_from(cs, 0).1 =~= error_views(errs@) + scan_from(cs, s.pos as int).1,
            ensures
                token_views(s.tokens@) =~= scan_from(cs, 0).0,
                error_views(errs@) =~= scan_from(cs, 0).1,
            decreases cs.len() - s.pos,
        {
            let ghost i = s.pos as int;
            let c = match s.next() {
                None => {
                    break;
                },
                Some(c) => c,
            };
            let start = s.pos - 1;
            let op: Option<TokenType> = match c {
                '+' => Some(TokenType::OneOrMore),
                '*' => Some(TokenType::AnyNo),
                '^' => Some(TokenType::Infinite),
                '?' => Some(TokenType::Maybe),
                '|' => Some(TokenType::Alternative),
                ';' => Some(TokenType::Padding),
                '(' => Some(TokenType::BracOpen),
                ')' => Some(TokenType::BracClose),
                ':' => Some(TokenType::Colon),
                _ => None,
            };
            if let Some(t) = op {
                let tok = Token::new(start, t, String::new());
                proof {
                    lemma_views_push(s.tokens@, tok);
                }
                s.tokens.push(tok);
                proof {
                    assert(op_token(c) == Some(t));
                    assert(scan_from(cs, 0).0 =~= token_views(s.tokens@) + scan_from(
                        cs,
                        s.pos as int,
                    ).0);
                }
            } else if c == '\'' || c == '<' || c == '[' {
                let close: char = if c == '\'' {
                    '\''
                } else if c == '<' {
                    '>'
                } else {
                    ']'
                };
                let typ: TokenType = if c == '\'' {
                    TokenType::Character
                } else if c == '<' {
                    TokenType::Probability
                } else {
                    TokenType::Regex
                };
                proof {
                    assert(delim_of(c) == Some((close, typ)));
                    lemma_find_close_bounds(cs, i + 1, close);
                }
                match s.scan_delimited(c, close) {
                    Ok(val) => {
                        let tok = Token::new(start, typ, val);
                        proof {
                            lemma_views_push(s.tokens@, tok);
                        }
                        s.tokens.push(tok);
                        proof {
                            assert(scan_from(cs, 0).0 =~= token_views(s.tokens@) + scan_from(
                                cs,
                                s.pos as int,
                            ).0);
                        }
                    },
                    Err(err) => {
                        proof {
                            lemma_error_views_push(errs@, err);
                        }
                        errs.push(err);
                        proof {
                            assert(scan_from(cs, 0).0 =~= token_views(s.tokens@) + scan_from(
                                cs,
                                s.pos as int,
                            ).0);
                            assert(scan_from(cs, 0).1 =~= error_views(errs@) + scan_from(
                                cs,
                                s.pos as int,
                            ).1);
                        }
                    },
                }
            } else if is_ident_start(c) {
                proof {
                    lemma_ident_end_bounds(cs, i + 1);
                }
                let buff = s.scan_identifier();
                let tok = Token::new(start, TokenType::Identifier, buff);
                proof {
                    lemma_views_push(s.tokens@, tok);
                }
                s.tokens.push(tok);
                proof {
                    assert(scan_from(cs, 0).0 =~= token_views(s.tokens@) + scan_from(
                        cs,
                        s.pos as int,
                    ).0);
                }
            } else {
                // whitespace and anything else is skipped
                proof {
                    assert(op_token(c) is None && delim_of(c) is None && !is_ident_start_spec(c));
                }
            }
        }
        (s.tokens, errs)
    }
}

/// The whole scan of an input string, as one call.
pub fn extract_tokens(inp: &str) -> (r: (Vec<Token>, Vec<ScanError>))
    ensures
        token_views(r.0@) == scan_from(inp@, 0).0,
        error_views(r.1@) == scan_from(inp@, 0).1,
{
    let scanner = Scanner::new(inp.to_owned());
    scanner.scan()
}

} // verus!
