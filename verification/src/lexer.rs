//! The tokenizer: turns raw text into a pull-based stream of tokens.
//!
//! The stream is absorbing at both ends of its life: after the input is
//! exhausted every further pull yields `Eof`, and at text that cannot be
//! lexed every further pull reports the same invalid characters without
//! advancing.

use vstd::prelude::*;

use crate::ast::{func_of_name, get_function_token, Token, TokenV};
use vstd::string::StrSliceExecFns;
use vstd::string::StringExecFns;

verus! {

/// An ASCII decimal digit.
pub open spec fn is_digit_c(c: char) -> bool {
    '0' <= c && c <= '9'
}

/// An ASCII letter; identifiers and function names are made of these.
pub open spec fn is_alpha_c(c: char) -> bool {
    ('a' <= c && c <= 'z') || ('A' <= c && c <= 'Z')
}

/// Whitespace the tokenizer skips transparently.
pub open spec fn is_space_c(c: char) -> bool {
    c == ' ' || c == '\n' || c == '\t'
}

/// A character that continues a numeric literal.
pub open spec fn is_num_cont(c: char) -> bool {
    is_digit_c(c) || c == '.'
}

/// A character that continues an identifier: a letter or an underscore. An
/// identifier still has to begin with a letter.
pub open spec fn is_ident_cont(c: char) -> bool {
    is_alpha_c(c) || c == '_'
}

/// First index at or after `i` holding a non-whitespace character.
pub open spec fn skip_ws(s: Seq<char>, i: int) -> int
    decreases s.len() - i,
{
    if 0 <= i && i < s.len() && is_space_c(s[i]) {
        skip_ws(s, i + 1)
    } else {
        i
    }
}

/// First index at or after `i` that does not continue a numeric literal.
pub open spec fn scan_num(s: Seq<char>, i: int) -> int
    decreases s.len() - i,
{
    if 0 <= i && i < s.len() && is_num_cont(s[i]) {
        scan_num(s, i + 1)
    } else {
        i
    }
}

/// First index at or after `i` holding a character that does not continue
/// an identifier.
pub open spec fn scan_ident(s: Seq<char>, i: int) -> int
    decreases s.len() - i,
{
    if 0 <= i && i < s.len() && is_ident_cont(s[i]) {
        scan_ident(s, i + 1)
    } else {
        i
    }
}

/// How many decimal points a literal holds.
pub open spec fn count_dots(s: Seq<char>) -> nat
    decreases s.len(),
{
    if s.len() == 0 {
        0
    } else {
        count_dots(s.drop_last()) + if s.last() == '.' {
            1nat
        } else {
            0nat
        }
    }
}

/// One step of the tokenizer: the token found at position `i` of `s`, and the
/// position where the next token starts. `Eof` and `Bad` are absorbing: their
/// next position reproduces them forever.
pub open spec fn lex_one(s: Seq<char>, i: int) -> (TokenV, int) {
    let j = skip_ws(s, i);
    if j >= s.len() {
        (TokenV::Eof, s.len() as int)
    } else {
        let c = s[j];
        if is_digit_c(c) {
            let k = scan_num(s, j);
            let lit = s.subrange(j, k);
            if count_dots(lit) <= 1 {
                (TokenV::Num(lit), k)
            } else {
                (TokenV::Bad(lit), i)
            }
        } else if is_alpha_c(c) {
            let k = scan_ident(s, j);
            let name = s.subrange(j, k);
            match func_of_name(name) {
                Some(f) => (TokenV::Func(f), k),
                None => (TokenV::Ident(name), k),
            }
        } else if c == '=' {
            (TokenV::Equals, j + 1)
        } else if c == '+' {
            (TokenV::Add, j + 1)
        } else if c == '-' {
            (TokenV::Sub, j + 1)
        } else if c == '*' {
            (TokenV::Mul, j + 1)
        } else if c == '/' {
            (TokenV::Div, j + 1)
        } else if c == '^' {
            (TokenV::Pow, j + 1)
        } else if c == '(' {
            (TokenV::LParen, j + 1)
        } else if c == ')' {
            (TokenV::RParen, j + 1)
        } else {
            (TokenV::Bad(seq![c]), i)
        }
    }
}

/// A token that ends the stream: the end of input, or unlexable text.
pub open spec fn is_terminal(t: TokenV) -> bool {
    t is Eof || t is Bad
}

proof fn lemma_skip_ws(s: Seq<char>, i: int)
    requires
        0 <= i <= s.len(),
    ensures
        i <= skip_ws(s, i) <= s.len(),
        skip_ws(s, i) < s.len() ==> !is_space_c(s[skip_ws(s, i)]),
    decreases s.len() - i,
{
    if i < s.len() && is_space_c(s[i]) {
        lemma_skip_ws(s, i + 1);
    }
}

proof fn lemma_scan_num(s: Seq<char>, i: int)
    requires
        0 <= i <= s.len(),
    ensures
        i <= scan_num(s, i) <= s.len(),
        forall|m: int| i <= m < scan_num(s, i) ==> is_num_cont(s[m]),
    decreases s.len() - i,
{
    if i < s.len() && is_num_cont(s[i]) {
        lemma_scan_num(s, i + 1);
    }
}

proof fn lemma_scan_ident(s: Seq<char>, i: int)
    requires
        0 <= i <= s.len(),
    ensures
        i <= scan_ident(s, i) <= s.len(),
        forall|m: int| i <= m < scan_ident(s, i) ==> is_ident_cont(s[m]),
    decreases s.len() - i,
{
    if i < s.len() && is_ident_cont(s[i]) {
        lemma_scan_ident(s, i + 1);
    }
}

/// Bounds, progress, and stability of one tokenizer step: a real token moves
/// the position forward; a terminal one is a fixed point.
pub proof fn lemma_lex_one(s: Seq<char>, i: int)
    requires
        0 <= i <= s.len(),
    ensures
        ({
            let (t, j) = lex_one(s, i);
            &&& 0 <= j <= s.len()
            &&& (!is_terminal(t) ==> i < j)
            &&& (is_terminal(t) ==> lex_one(s, j) == (t, j))
        }),
{
    lemma_skip_ws(s, i);
    let j0 = skip_ws(s, i);
    if j0 < s.len() {
        let c = s[j0];
        assert(skip_ws(s, j0) == j0);
        if is_digit_c(c) {
            assert(scan_num(s, j0) == scan_num(s, j0 + 1));
            lemma_scan_num(s, j0 + 1);
        } else if is_alpha_c(c) {
            assert(scan_ident(s, j0) == scan_ident(s, j0 + 1));
            lemma_scan_ident(s, j0 + 1);
        } else if c == '=' || c == '+' || c == '-' || c == '*' || c == '/' || c == '^' || c == '('
            || c == ')' {
        }
    }
}

/// The finite stream of tokens starting at position `i`: real tokens up to
/// and including the first terminal.
pub open spec fn lex_rec(s: Seq<char>, i: int) -> Seq<TokenV>
    decreases s.len() - i,
{
    let (t, j) = lex_one(s, i);
    if is_terminal(t) {
        seq![t]
    } else if i < j && j <= s.len() {
        seq![t] + lex_rec(s, j)
    } else {
        seq![t, TokenV::Eof]
    }
}

/// The full token stream of a text.
pub open spec fn lex_full(s: Seq<char>) -> Seq<TokenV> {
    lex_rec(s, 0)
}

/// Well-formedness of a token stream: nonempty, ending in exactly one
/// terminal token.
pub open spec fn stream_wf(toks: Seq<TokenV>) -> bool {
    &&& toks.len() >= 1
    &&& is_terminal(toks.last())
    &&& forall|j: int| 0 <= j < toks.len() - 1 ==> !is_terminal(#[trigger] toks[j])
}

/// The token a pull-based reader sees at index `n`: past the end, the
/// terminal repeats forever.
pub open spec fn tok_at(toks: Seq<TokenV>, n: nat) -> TokenV {
    if toks.len() == 0 {
        TokenV::Eof
    } else if n < toks.len() {
        toks[n as int]
    } else {
        toks.last()
    }
}

pub proof fn lemma_lex_rec_wf(s: Seq<char>, i: int)
    requires
        0 <= i <= s.len(),
    ensures
        stream_wf(lex_rec(s, i)),
    decreases s.len() - i,
{
    lemma_lex_one(s, i);
    let (t, j) = lex_one(s, i);
    if !is_terminal(t) {
        lemma_lex_rec_wf(s, j);
        let rest = lex_rec(s, j);
        assert(lex_rec(s, i) == seq![t] + rest);
        assert forall|m: int| 0 <= m < (seq![t] + rest).len() - 1 implies !is_terminal(
            #[trigger] (seq![t] + rest)[m],
        ) by {
            if m >= 1 {
                assert((seq![t] + rest)[m] == rest[m - 1]);
            }
        }
    }
}

/// Position of the reader after `n` pulls that began at position `i`.
pub open spec fn pos_n(s: Seq<char>, i: int, n: nat) -> int
    decreases n,
{
    if n == 0 {
        i
    } else {
        pos_n(s, lex_one(s, i).1, (n - 1) as nat)
    }
}

proof fn lemma_chain_fixed(s: Seq<char>, p: int, n: nat)
    requires
        lex_one(s, p).1 == p,
    ensures
        pos_n(s, p, n) == p,
    decreases n,
{
    if n > 0 {
        lemma_chain_fixed(s, p, (n - 1) as nat);
    }
}

/// The n-th pull of a reader that began at `i` returns exactly the n-th
/// element of the token stream (with the terminal repeating), and moves the
/// position along the chain.
pub proof fn lemma_pull(s: Seq<char>, i: int, n: nat)
    requires
        0 <= i <= s.len(),
    ensures
        0 <= pos_n(s, i, n) <= s.len(),
        lex_one(s, pos_n(s, i, n)).0 == tok_at(lex_rec(s, i), n),
        lex_one(s, pos_n(s, i, n)).1 == pos_n(s, i, n + 1),
    decreases n,
{
    lemma_lex_one(s, i);
    lemma_lex_rec_wf(s, i);
    let (t, j) = lex_one(s, i);
    if n == 0 {
        assert(pos_n(s, i, 1) == pos_n(s, j, 0));
    } else {
        if is_terminal(t) {
            lemma_chain_fixed(s, j, n);
            lemma_chain_fixed(s, j, (n - 1) as nat);
            assert(pos_n(s, i, n) == pos_n(s, j, (n - 1) as nat));
            assert(pos_n(s, i, n + 1) == pos_n(s, j, n));
            assert(lex_rec(s, i) == seq![t]);
            assert(tok_at(lex_rec(s, i), n) == t);
        } else {
            let rest = lex_rec(s, j);
            lemma_lex_rec_wf(s, j);
            lemma_pull(s, j, (n - 1) as nat);
            assert(pos_n(s, i, n) == pos_n(s, j, (n - 1) as nat));
            assert(pos_n(s, i, n + 1) == pos_n(s, j, n));
            assert(lex_rec(s, i) == seq![t] + rest);
            assert(tok_at(lex_rec(s, i), n) == tok_at(rest, (n - 1) as nat)) by {
                let whole = seq![t] + rest;
                if n < whole.len() {
                    assert(whole[n as int] == rest[n - 1]);
                } else {
                    assert(whole.last() == rest.last());
                }
            }
        }
    }
}

/// Defines the error that can occur during tokenization: text that is not
/// part of any token, carried verbatim.
#[derive(Debug, PartialEq)]
pub enum LexError {
    InvalidChar(String),
}

/// A pull-based tokenizer over a borrowed source text.
pub struct Lexer<'a> {
    src: &'a str,
    pos: usize,
    len: usize,
}

impl<'a> Lexer<'a> {
    /// The text being tokenized.
    pub closed spec fn text(&self) -> Seq<char> {
        self.src@
    }

    /// The character position the next pull starts from.
    pub closed spec fn at(&self) -> int {
        self.pos as int
    }

    /// Well-formedness: the cached length is the text's, and the cursor is
    /// inside the text.
    pub closed spec fn wf(&self) -> bool {
        self.len == self.src@.len() && self.pos <= self.len
    }

    /// A tokenizer over `source`, positioned at its start.
    pub fn new(source: &'a str) -> (r: Self)
        ensures
            r.text() == source@,
            r.at() == 0,
            r.wf(),
    {
        let len = source.unicode_len();
        Lexer { src: source, pos: 0, len }
    }

    /// Re-seats the tokenizer on a new source, restarting at its beginning.
    pub fn set_source(&mut self, source: &'a str)
        ensures
            final(self).text() == source@,
            final(self).at() == 0,
            final(self).wf(),
    {
        self.src = source;
        self.pos = 0;
        self.len = source.unicode_len();
    }

    /// Pulls the next token: exactly one tokenizer step from the current
    /// position. Whitespace is skipped; after the end of the text the result
    /// stays `Eof`; on unlexable text the error repeats without advancing.
    pub fn next_token(&mut self) -> (r: Result<Token, LexError>)
        requires
            old(self).wf(),
        ensures
            final(self).wf(),
            final(self).text() == old(self).text(),
            ({
                let (t, j) = lex_one(old(self).text(), old(self).at());
                &&& final(self).at() == j
                &&& match r {
                    Ok(tok) => tok@ == t,
                    Err(e) => t matches TokenV::Bad(cs) && e matches LexError::InvalidChar(m)
                        && m@ == cs,
                }
                &&& (r is Err <==> t is Bad)
                &&& (r is Err ==> *final(self) == *old(self))
            }),
    {
        let ghost s = self.src@;
        let ghost i0 = self.pos as int;
        proof {
            lemma_skip_ws(s, i0);
        }
        let mut p = self.pos;
        while p < self.len
            invariant
                self == old(self),
                self.wf(),
                s == self.src@,
                i0 <= p <= self.len,
                skip_ws(s, i0) == skip_ws(s, p as int),
            ensures
                self == old(self),
                i0 <= p <= self.len,
                skip_ws(s, i0) == p as int,
            decreases self.len - p,
        {
            let c = self.src.get_char(p);
            if !(c == ' ' || c == '\n' || c == '\t') {
                break ;
            }
            p = p + 1;
        }
        if p == self.len {
            self.pos = p;
            return Ok(Token::Eof);
        }
        let c = self.src.get_char(p);
        if '0' <= c && c <= '9' {
            proof {
                lemma_scan_num(s, p as int);
            }
            let mut k = p;
            while k < self.len
                invariant
                    self == old(self),
                    self.wf(),
                    s == self.src@,
                    p <= k <= self.len,
                    scan_num(s, p as int) == scan_num(s, k as int),
                ensures
                    self == old(self),
                    p <= k <= self.len,
                    scan_num(s, p as int) == k as int,
                decreases self.len - k,
            {
                let d = self.src.get_char(k);
                if !(('0' <= d && d <= '9') || d == '.') {
                    break ;
                }
                k = k + 1;
            }
            let lit = self.src.substring_char(p, k);
            let mut dots: usize = 0;
            let mut m = p;
            while m < k
                invariant
                    self == old(self),
                    self.wf(),
                    p <= m <= k <= self.len,
                    s == self.src@,
                    dots <= m - p,
                    dots == count_dots(s.subrange(p as int, m as int)),
                decreases k - m,
            {
                let d = self.src.get_char(m);
                proof {
                    assert(s.subrange(p as int, m + 1).drop_last() =~= s.subrange(
                        p as int,
                        m as int,
                    ));
                    assert(s.subrange(p as int, m + 1).last() == s[m as int]);
                }
                if d == '.' {
                    dots = dots + 1;
                }
                m = m + 1;
            }
            assert(dots == count_dots(s.subrange(p as int, k as int)));
            if dots <= 1 {
                self.pos = k;
                Ok(Token::Num(String::from_str(lit)))
            } else {
                Err(LexError::InvalidChar(String::from_str(lit)))
            }
        } else if ('a' <= c && c <= 'z') || ('A' <= c && c <= 'Z') {
            proof {
                lemma_scan_ident(s, p as int);
            }
            let mut k = p;
            while k < self.len
                invariant
                    self == old(self),
                    self.wf(),
                    s == self.src@,
                    p <= k <= self.len,
                    scan_ident(s, p as int) == scan_ident(s, k as int),
                ensures
                    self == old(self),
                    p <= k <= self.len,
                    scan_ident(s, p as int) == k as int,
                decreases self.len - k,
            {
                let d = self.src.get_char(k);
                if !(('a' <= d && d <= 'z') || ('A' <= d && d <= 'Z') || d == '_') {
                    break ;
                }
                k = k + 1;
            }
            let name = self.src.substring_char(p, k);
            self.pos = k;
            match get_function_token(name) {
                Some(t) => Ok(t),
                None => Ok(Token::Ident(String::from_str(name))),
            }
        } else if c == '=' {
            self.pos = p + 1;
            Ok(Token::Equals)
        } else if c == '+' {
            self.pos = p + 1;
            Ok(Token::Add)
        } else if c == '-' {
            self.pos = p + 1;
            Ok(Token::Sub)
        } else if c == '*' {
            self.pos = p + 1;
            Ok(Token::Mul)
        } else if c == '/' {
            self.pos = p + 1;
            Ok(Token::Div)
        } else if c == '^' {
            self.pos = p + 1;
            Ok(Token::Pow)
        } else if c == '(' {
            self.pos = p + 1;
            Ok(Token::LParen)
        } else if c == ')' {
            self.pos = p + 1;
            Ok(Token::RParen)
        } else {
            let bad = self.src.substring_char(p, p + 1);
            assert(bad@ =~= seq![c]);
            Err(LexError::InvalidChar(String::from_str(bad)))
        }
    }
}

} // verus!
