//! The maximal-munch tokenizing engine: a cursor over the decoded source
//! characters, the dispatch on each character class, and the three literal
//! sub-scanners, each proved against the model in `model`.

use crate::errors::ScannerError;
use crate::model::{
    combine, comment_end, ident_end, is_ascii_alphanumeric, is_digit, is_ident_start,
    is_unicode_alphanumeric, eof_token, keyword_kind, lemma_combine_assoc, lemma_combine_nil,
    lemma_push_decomp, lemma_tokens_view_empty, lemma_tokens_view_push, newlines_between,
    number_end, op_kind, spec_scan, spec_scan_from, spec_token, string_end, tokens_view,
};
use crate::token::{push_char, SpecToken, Token, TokenType};
use vstd::prelude::*;
use vstd::string::StrSliceExecFns;

verus! {

broadcast use vstd::string::group_string_axioms;

/// Relies on char::is_alphanumeric: true exactly on Unicode-alphanumeric
/// characters; on ASCII characters it agrees with char::is_ascii_alphanumeric.
#[verifier::external_body]
fn char_is_alphanumeric(c: char) -> (r: bool)
    ensures
        r == is_unicode_alphanumeric(c),
        is_ascii_alphanumeric(c) ==> r,
        (c as u32) < 128 && !is_ascii_alphanumeric(c) ==> !r,
{
    c.is_alphanumeric()
}

fn is_digit_char(c: char) -> (r: bool)
    ensures
        r == is_digit(c),
{
    48 <= (c as u32) && (c as u32) <= 57
}

fn is_ident_start_char(c: char) -> (r: bool)
    ensures
        r == is_ident_start(c),
{
    (97 <= (c as u32) && (c as u32) <= 122) || (65 <= (c as u32) && (c as u32) <= 90) || c == '_'
}

/// The scanner: the decoded source text, the tokens accumulated so far, the
/// offset of the lexeme being scanned, the offset of the next unconsumed
/// character, and the current 1-based line.
pub struct Scanner {
    source: Vec<char>,
    tokens: Vec<Token>,
    start: usize,
    current: usize,
    line: usize,
}

impl Scanner {
    /// The source text under scan, as a character sequence.
    pub closed spec fn src(self) -> Seq<char> {
        self.source@
    }

    /// The cursor's well-formedness: the lexeme start never passes the read
    /// position, the read position never passes the end, and the line counter
    /// stays 1-based and bounded by the characters consumed.
    pub closed spec fn wf(self) -> bool {
        &&& self.start <= self.current <= self.source@.len()
        &&& self.source@.len() < usize::MAX
        &&& 1 <= self.line
        &&& self.line <= self.current + 1
    }

    /// A scanner that has not consumed anything yet.
    pub closed spec fn ready(self) -> bool {
        &&& self.start == 0
        &&& self.current == 0
        &&& self.line == 1
        &&& self.tokens@.len() == 0
    }

    /// A scanner at the start of the given source text.
    pub fn new(source: String) -> (s: Scanner)
        requires
            source@.len() < usize::MAX,
        ensures
            s.wf(),
            s.ready(),
            s.src() == source@,
    {
        let mut chars: Vec<char> = Vec::new();
        for c in it: source.as_str().chars()
            invariant
                it.seq() == source@,
                chars@ == it.seq().take(it.index() as int),
        {
            chars.push(c);
        }
        proof {
            assert(source@.take(source@.len() as int) =~= source@);
        }
        Scanner { source: chars, tokens: Vec::new(), start: 0, current: 0, line: 1 }
    }

    fn is_at_end(&self) -> (r: bool)
        ensures
            r == (self.current >= self.src().len()),
    {
        self.current >= self.source.len()
    }

    fn peek(&self) -> (c: char)
        ensures
            c == (if self.current < self.src().len() {
                self.src()[self.current as int]
            } else {
                '\0'
            }),
    {
        if self.is_at_end() {
            '\0'
        } else {
            self.source[self.current]
        }
    }

    fn peek_next(&self) -> (c: char)
        requires
            self.current <= self.src().len(),
            self.src().len() < usize::MAX,
        ensures
            c == (if self.current + 1 < self.src().len() {
                self.src()[self.current + 1]
            } else {
                '\0'
            }),
    {
        if self.current + 1 >= self.source.len() {
            '\0'
        } else {
            self.source[self.current + 1]
        }
    }

    fn advance(&mut self) -> (c: char)
        requires
            old(self).current < old(self).src().len(),
            old(self).src().len() < usize::MAX,
        ensures
            c == old(self).src()[old(self).current as int],
            *final(self) == (Scanner { current: (old(self).current + 1) as usize, ..*old(self) }),
    {
        let c = self.source[self.current];
        self.current = self.current + 1;
        c
    }

    fn match_char(&mut self, expected: char) -> (r: bool)
        requires
            old(self).current <= old(self).src().len(),
            old(self).src().len() < usize::MAX,
        ensures
            r == (old(self).current < old(self).src().len() && old(self).src()[old(
                self,
            ).current as int] == expected),
            *final(self) == (Scanner {
                current: if r {
                    (old(self).current + 1) as usize
                } else {
                    old(self).current
                },
                ..*old(self)
            }),
    {
        if self.is_at_end() {
            return false;
        }
        if self.source[self.current] != expected {
            return false;
        }
        self.current = self.current + 1;
        true
    }

    fn substring(source: &Vec<char>, from: usize, to: usize) -> (r: String)
        requires
            from <= to <= source@.len(),
        ensures
            r@ == source@.subrange(from as int, to as int),
    {
        let mut r = String::new();
        let mut i: usize = from;
        while i < to
            invariant
                from <= i <= to <= source@.len(),
                r@ == source@.subrange(from as int, i as int),
            decreases to - i,
        {
            push_char(&mut r, source[i]);
            i = i + 1;
            proof {
                assert(r@ =~= source@.subrange(from as int, i as int));
            }
        }
        r
    }

    fn add_token_on_line(&mut self, kind: TokenType, literal: String, line: usize)
        requires
            old(self).start <= old(self).current <= old(self).src().len(),
        ensures
            tokens_view(final(self).tokens@) == tokens_view(old(self).tokens@).push(
                spec_token(
                    kind,
                    old(self).src().subrange(old(self).start as int, old(self).current as int),
                    literal@,
                    line as nat,
                ),
            ),
            final(self).tokens@.len() == old(self).tokens@.len() + 1,
            *final(self) == (Scanner { tokens: final(self).tokens, ..*old(self) }),
    {
        let lexeme = Self::substring(&self.source, self.start, self.current);
        let t = Token { kind, lexeme, literal, line };
        let ghost before = self.tokens@;
        self.tokens.push(t);
        proof {
            lemma_tokens_view_push(before, t);
        }
    }

    fn add_token_literal(&mut self, kind: TokenType, literal: String)
        requires
            old(self).start <= old(self).current <= old(self).src().len(),
        ensures
            tokens_view(final(self).tokens@) == tokens_view(old(self).tokens@).push(
                spec_token(
                    kind,
                    old(self).src().subrange(old(self).start as int, old(self).current as int),
                    literal@,
                    old(self).line as nat,
                ),
            ),
            final(self).tokens@.len() == old(self).tokens@.len() + 1,
            *final(self) == (Scanner { tokens: final(self).tokens, ..*old(self) }),
    {
        let line = self.line;
        self.add_token_on_line(kind, literal, line)
    }

    fn number(&mut self) -> (r: Result<(), ScannerError>)
        requires
            old(self).wf(),
            old(self).current == old(self).start + 1,
            old(self).start < old(self).src().len(),
        ensures
            final(self).wf(),
            final(self).src() == old(self).src(),
            final(self).line == old(self).line,
            final(self).start == old(self).start,
            final(self).current == number_end(old(self).src(), old(self).current as int),
            old(self).current <= final(self).current <= final(self).src().len(),
            r is Ok,
            ({
                let lex = old(self).src().subrange(
                    old(self).start as int,
                    final(self).current as int,
                );
                tokens_view(final(self).tokens@) == tokens_view(old(self).tokens@).push(
                    spec_token(TokenType::Number, lex, lex, old(self).line as nat),
                )
            }),
            final(self).tokens@.len() == old(self).tokens@.len() + 1,
    {
        let ghost s = self.src();
        let ghost i0 = self.current as int;
        while is_digit_char(self.peek())
            invariant
                self.src() == s,
                self.start == old(self).start,
                self.line == old(self).line,
                self.tokens == old(self).tokens,
                i0 <= self.current <= s.len(),
                s.len() < usize::MAX,
                crate::model::digits_end(s, i0) == crate::model::digits_end(
                    s,
                    self.current as int,
                ),
            decreases s.len() - self.current,
        {
            self.advance();
        }
        if self.peek() == '.' && is_digit_char(self.peek_next()) {
            self.advance();  // the dot
            let ghost j1 = self.current as int;
            while is_digit_char(self.peek())
                invariant
                    self.src() == s,
                    self.start == old(self).start,
                    self.line == old(self).line,
                    self.tokens == old(self).tokens,
                    j1 <= self.current <= s.len(),
                    s.len() < usize::MAX,
                    crate::model::digits_end(s, j1) == crate::model::digits_end(
                        s,
                        self.current as int,
                    ),
                decreases s.len() - self.current,
            {
                self.advance();
            }
        }
        let lit = Self::substring(&self.source, self.start, self.current);
        self.add_token_literal(TokenType::Number, lit);
        Ok(())
    }

    fn identifier(&mut self) -> (r: Result<(), ScannerError>)
        requires
            old(self).wf(),
            old(self).current == old(self).start + 1,
            old(self).start < old(self).src().len(),
        ensures
            final(self).wf(),
            final(self).src() == old(self).src(),
            final(self).line == old(self).line,
            final(self).start == old(self).start,
            final(self).current == ident_end(old(self).src(), old(self).current as int),
            old(self).current <= final(self).current <= final(self).src().len(),
            r is Ok,
            ({
                let text = old(self).src().subrange(
                    old(self).start as int,
                    final(self).current as int,
                );
                match keyword_kind(text) {
                    Some(kind) => tokens_view(final(self).tokens@) == tokens_view(
                        old(self).tokens@,
                    ).push(spec_token(kind, text, Seq::empty(), old(self).line as nat)),
                    None => tokens_view(final(self).tokens@) == tokens_view(
                        old(self).tokens@,
                    ).push(
                        spec_token(TokenType::Identifier, text, text, old(self).line as nat),
                    ),
                }
            }),
            final(self).tokens@.len() == old(self).tokens@.len() + 1,
    {
        let ghost s = self.src();
        let ghost i0 = self.current as int;
        while char_is_alphanumeric(self.peek())
            invariant
                self.src() == s,
                self.start == old(self).start,
                self.line == old(self).line,
                self.tokens == old(self).tokens,
                i0 <= self.current <= s.len(),
                s.len() < usize::MAX,
                ident_end(s, i0) == ident_end(s, self.current as int),
            decreases s.len() - self.current,
        {
            self.advance();
        }
        let from = self.start;
        let to = self.current;
        if Self::text_is(&self.source, from, to, "and") {
            self.add_token(TokenType::And);
        } else if Self::text_is(&self.source, from, to, "class") {
            self.add_token(TokenType::Class);
        } else if Self::text_is(&self.source, from, to, "else") {
            self.add_token(TokenType::Else);
        } else if Self::text_is(&self.source, from, to, "false") {
            self.add_token(TokenType::False);
        } else if Self::text_is(&self.source, from, to, "for") {
            self.add_token(TokenType::For);
        } else if Self::text_is(&self.source, from, to, "fun") {
            self.add_token(TokenType::Fun);
        } else if Self::text_is(&self.source, from, to, "if") {
            self.add_token(TokenType::If);
        } else if Self::text_is(&self.source, from, to, "nil") {
            self.add_token(TokenType::Nil);
        } else if Self::text_is(&self.source, from, to, "or") {
            self.add_token(TokenType::Or);
        } else if Self::text_is(&self.source, from, to, "print") {
            self.add_token(TokenType::Print);
        } else if Self::text_is(&self.source, from, to, "return") {
            self.add_token(TokenType::Return);
        } else if Self::text_is(&self.source, from, to, "super") {
            self.add_token(TokenType::Super);
        } else if Self::text_is(&self.source, from, to, "this") {
            self.add_token(TokenType::This);
        } else if Self::text_is(&self.source, from, to, "true") {
            self.add_token(TokenType::True);
        } else if Self::text_is(&self.source, from, to, "var") {
            self.add_token(TokenType::Var);
        } else if Self::text_is(&self.source, from, to, "while") {
            self.add_token(TokenType::While);
        } else {
            let text = Self::substring(&self.source, from, to);
            self.add_token_literal(TokenType::Identifier, text);
        }
        Ok(())
    }

    /// Whether the characters of `source` in `[from, to)` spell exactly `w`.
    fn text_is(source: &Vec<char>, from: usize, to: usize, w: &str) -> (r: bool)
        requires
            from <= to <= source@.len(),
        ensures
            r == (source@.subrange(from as int, to as int) == w@),
    {
        let n = w.unicode_len();
        if to - from != n {
            proof {
                assert(source@.subrange(from as int, to as int).len() == to - from);
            }
            return false;
        }
        let mut i: usize = 0;
        while i < n
            invariant
                from <= to <= source@.len(),
                to - from == n == w@.len(),
                i <= n,
                forall|k: int| 0 <= k < i ==> source@.subrange(from as int, to as int)[k] == w@[k],
            decreases n - i,
        {
            if source[from + i] != w.get_char(i) {
                proof {
                    assert(source@.subrange(from as int, to as int)[i as int] != w@[i as int]);
                }
                return false;
            }
            i = i + 1;
        }
        proof {
            assert(source@.subrange(from as int, to as int) =~= w@);
        }
        true
    }

    fn string(&mut self) -> (r: Result<(), ScannerError>)
        requires
            old(self).wf(),
            old(self).current == old(self).start + 1,
            old(self).start < old(self).src().len(),
        ensures
            final(self).wf(),
            final(self).src() == old(self).src(),
            final(self).start == old(self).start,
            final(self).line as nat == old(self).line as nat + newlines_between(
                old(self).src(),
                old(self).current as int,
                string_end(old(self).src(), old(self).current as int),
            ),
            ({
                let s = old(self).src();
                let i = old(self).current as int;
                let j = string_end(s, i);
                if j >= s.len() {
                    &&& r == Err::<(), ScannerError>(
                        ScannerError::UnterminatedString(final(self).line),
                    )
                    &&& final(self).tokens == old(self).tokens
                    &&& final(self).current == j
                } else {
                    &&& r is Ok
                    &&& final(self).current == j + 1
                    &&& tokens_view(final(self).tokens@) == tokens_view(old(self).tokens@).push(
                        spec_token(
                            TokenType::String,
                            s.subrange(old(self).start as int, j + 1),
                            s.subrange(i, j),
                            old(self).line as nat,
                        ),
                    )
                    &&& final(self).tokens@.len() == old(self).tokens@.len() + 1
                }
            }),
    {
        let ghost s = self.src();
        let ghost i0 = self.current as int;
        let start_line = self.line;
        while self.peek() != '"' && !self.is_at_end()
            invariant
                self.src() == s,
                self.start == old(self).start,
                self.tokens == old(self).tokens,
                i0 <= self.current <= s.len(),
                s.len() < usize::MAX,
                1 <= self.line <= self.current + 1,
                string_end(s, i0) == string_end(s, self.current as int),
                self.line as nat == old(self).line as nat + newlines_between(
                    s,
                    i0,
                    self.current as int,
                ),
            decreases s.len() - self.current,
        {
            if self.peek() == '\n' {
                self.line = self.line + 1;
            }
            self.advance();
        }
        proof {
            crate::model::lemma_string_end_bounds(s, i0);
        }
        if self.is_at_end() {
            return Err(ScannerError::UnterminatedString(self.line));
        }
        // the closing quote
        self.advance();
        let lit = Self::substring(&self.source, self.start + 1, self.current - 1);
        self.add_token_on_line(TokenType::String, lit, start_line);
        Ok(())
    }

    fn scan_token(&mut self) -> (r: Result<(), ScannerError>)
        requires
            old(self).wf(),
            old(self).start == old(self).current,
            old(self).current < old(self).src().len(),
        ensures
            final(self).wf(),
            final(self).src() == old(self).src(),
            old(self).current < final(self).current <= final(self).src().len(),
            final(self).tokens@.len() >= old(self).tokens@.len(),
            tokens_view(final(self).tokens@).subrange(0, old(self).tokens@.len() as int)
                == tokens_view(old(self).tokens@),
            match r {
                Ok(_) => spec_scan_from(
                    old(self).src(),
                    old(self).current as int,
                    old(self).line as nat,
                ) == combine(
                    tokens_view(final(self).tokens@).skip(old(self).tokens@.len() as int),
                    spec_scan_from(
                        final(self).src(),
                        final(self).current as int,
                        final(self).line as nat,
                    ),
                ),
                Err(e) => spec_scan_from(
                    old(self).src(),
                    old(self).current as int,
                    old(self).line as nat,
                ) == Err::<Seq<SpecToken>, ScannerError>(e),
            },
    {
        let ghost s = old(self).src();
        let ghost i = old(self).current as int;
        let ghost ln = old(self).line as nat;
        let ghost pre_tokens = tokens_view(old(self).tokens@);
        let c = self.advance();
        if c == '(' {
            self.add_token(TokenType::LeftParen);
            proof {
                lemma_push_decomp(pre_tokens, spec_token(TokenType::LeftParen, s.subrange(i, i + 1), Seq::empty(), ln));
            }
        } else if c == ')' {
            self.add_token(TokenType::RightParen);
            proof {
                lemma_push_decomp(pre_tokens, spec_token(TokenType::RightParen, s.subrange(i, i + 1), Seq::empty(), ln));
            }
        } else if c == '{' {
            self.add_token(TokenType::LeftBrace);
            proof {
                lemma_push_decomp(pre_tokens, spec_token(TokenType::LeftBrace, s.subrange(i, i + 1), Seq::empty(), ln));
            }
        } else if c == '}' {
            self.add_token(TokenType::RightBrace);
            proof {
                lemma_push_decomp(pre_tokens, spec_token(TokenType::RightBrace, s.subrange(i, i + 1), Seq::empty(), ln));
            }
        } else if c == ',' {
            self.add_token(TokenType::Comma);
            proof {
                lemma_push_decomp(pre_tokens, spec_token(TokenType::Comma, s.subrange(i, i + 1), Seq::empty(), ln));
            }
        } else if c == '.' {
            self.add_token(TokenType::Dot);
            proof {
                lemma_push_decomp(pre_tokens, spec_token(TokenType::Dot, s.subrange(i, i + 1), Seq::empty(), ln));
            }
        } else if c == '-' {
            self.add_token(TokenType::Minus);
            proof {
                lemma_push_decomp(pre_tokens, spec_token(TokenType::Minus, s.subrange(i, i + 1), Seq::empty(), ln));
            }
        } else if c == '+' {
            self.add_token(TokenType::Plus);
            proof {
                lemma_push_decomp(pre_tokens, spec_token(TokenType::Plus, s.subrange(i, i + 1), Seq::empty(), ln));
            }
        } else if c == ';' {
            self.add_token(TokenType::Semicolon);
            proof {
                lemma_push_decomp(pre_tokens, spec_token(TokenType::Semicolon, s.subrange(i, i + 1), Seq::empty(), ln));
            }
        } else if c == '*' {
            self.add_token(TokenType::Star);
            proof {
                lemma_push_decomp(pre_tokens, spec_token(TokenType::Star, s.subrange(i, i + 1), Seq::empty(), ln));
            }
        } else if c == '!' || c == '=' || c == '<' || c == '>' {
            let with_equal = self.match_char('=');
            let kind = if c == '!' {
                if with_equal {
                    TokenType::BangEqual
                } else {
                    TokenType::Bang
                }
            } else if c == '=' {
                if with_equal {
                    TokenType::EqualEqual
                } else {
                    TokenType::Equal
                }
            } else if c == '<' {
                if with_equal {
                    TokenType::LessEqual
                } else {
                    TokenType::Less
                }
            } else {
                if with_equal {
                    TokenType::GreaterEqual
                } else {
                    TokenType::Greater
                }
            };
            self.add_token(kind);
            proof {
                let j = if with_equal { i + 2 } else { i + 1 };
                lemma_push_decomp(pre_tokens, spec_token(op_kind(c, with_equal), s.subrange(i, j), Seq::empty(), ln));
            }
        } else if c == '/' {
            if self.match_char('/') {
                while self.peek() != '\n' && !self.is_at_end()
                    invariant
                        self.src() == s,
                        self.start == old(self).start,
                        self.line == old(self).line,
                        self.tokens == old(self).tokens,
                        i + 2 <= self.current <= s.len(),
                        s.len() < usize::MAX,
                        comment_end(s, i + 2) == comment_end(s, self.current as int),
                    decreases s.len() - self.current,
                {
                    self.advance();
                }
                proof {
                    assert(tokens_view(self.tokens@).subrange(0, pre_tokens.len() as int)
                        =~= pre_tokens);
                    assert(tokens_view(self.tokens@).skip(pre_tokens.len() as int)
                        =~= Seq::<SpecToken>::empty());
                    lemma_combine_nil(
                        spec_scan_from(s, self.current as int, self.line as nat),
                    );
                }
            } else {
                self.add_token(TokenType::Slash);
                proof {
                    lemma_push_decomp(pre_tokens, spec_token(TokenType::Slash, s.subrange(i, i + 1), Seq::empty(), ln));
                }
            }
        } else if c == ' ' || c == '\r' || c == '\t' {
            proof {
                assert(tokens_view(self.tokens@).subrange(0, pre_tokens.len() as int)
                    =~= pre_tokens);
                assert(tokens_view(self.tokens@).skip(pre_tokens.len() as int)
                    =~= Seq::<SpecToken>::empty());
                lemma_combine_nil(
                    spec_scan_from(s, self.current as int, self.line as nat),
                );
            }
        } else if c == '\n' {
            self.line = self.line + 1;
            proof {
                assert(tokens_view(self.tokens@).subrange(0, pre_tokens.len() as int)
                    =~= pre_tokens);
                assert(tokens_view(self.tokens@).skip(pre_tokens.len() as int)
                    =~= Seq::<SpecToken>::empty());
                lemma_combine_nil(
                    spec_scan_from(s, self.current as int, self.line as nat),
                );
            }
        } else if c == '"' {
            let res = self.string();
            proof {
                crate::model::lemma_string_end_bounds(s, i + 1);
            }
            match res {
                Ok(_) => {
                    proof {
                        let j = string_end(s, i + 1);
                        lemma_push_decomp(
                            pre_tokens,
                            spec_token(TokenType::String, s.subrange(i, j + 1), s.subrange(i + 1, j), ln),
                        );
                    }
                },
                Err(e) => {
                    proof {
                        assert(tokens_view(self.tokens@).subrange(
                            0,
                            pre_tokens.len() as int,
                        ) =~= pre_tokens);
                    }
                    return Err(e);
                },
            }
        } else if is_digit_char(c) {
            let _ = self.number();
            proof {
                let k = number_end(s, i + 1);
                let lex = s.subrange(i, k);
                lemma_push_decomp(pre_tokens, spec_token(TokenType::Number, lex, lex, ln));
            }
        } else if is_ident_start_char(c) {
            let _ = self.identifier();
            proof {
                let j = ident_end(s, i + 1);
                let text = s.subrange(i, j);
                match keyword_kind(text) {
                    Some(kind) => lemma_push_decomp(
                        pre_tokens,
                        spec_token(kind, text, Seq::empty(), ln),
                    ),
                    None => lemma_push_decomp(
                        pre_tokens,
                        spec_token(TokenType::Identifier, text, text, ln),
                    ),
                }
            }
        } else {
            let line = self.line;
            proof {
                assert(tokens_view(self.tokens@).subrange(0, pre_tokens.len() as int)
                    =~= pre_tokens);
            }
            return Err(ScannerError::UnexpectedCharacter(c, line));
        }
        Ok(())
    }

    /// Scans the whole source text and returns the token sequence the model
    /// assigns to it, ending in the terminal token, or its first lexical
    /// error.
    pub fn scan_tokens(&mut self) -> (r: Result<Vec<Token>, ScannerError>)
        requires
            old(self).wf(),
            old(self).ready(),
        ensures
            match r {
                Ok(toks) => spec_scan(old(self).src()) == Ok::<Seq<SpecToken>, ScannerError>(
                    tokens_view(toks@),
                ),
                Err(e) => spec_scan(old(self).src()) == Err::<Seq<SpecToken>, ScannerError>(e),
            },
    {
        proof {
            lemma_tokens_view_empty(self.tokens@);
            lemma_combine_nil(spec_scan_from(self.src(), 0, 1));
        }
        while !self.is_at_end()
            invariant
                self.wf(),
                self.src() == old(self).src(),
                spec_scan(old(self).src()) == combine(
                    tokens_view(self.tokens@),
                    spec_scan_from(self.src(), self.current as int, self.line as nat),
                ),
            decreases self.src().len() - self.current,
        {
            self.start = self.current;
            let ghost pre = *self;
            let res = self.scan_token();
            match res {
                Ok(_) => {
                    proof {
                        let delta = tokens_view(self.tokens@).skip(pre.tokens@.len() as int);
                        lemma_combine_assoc(
                            tokens_view(pre.tokens@),
                            delta,
                            spec_scan_from(self.src(), self.current as int, self.line as nat),
                        );
                        assert(tokens_view(pre.tokens@) + delta =~= tokens_view(self.tokens@));
                    }
                },
                Err(e) => {
                    return Err(e);
                },
            }
        }
        let line = self.line;
        let t = Token {
            kind: TokenType::EndOfInput,
            lexeme: String::new(),
            literal: String::new(),
            line,
        };
        let ghost before = self.tokens@;
        self.tokens.push(t);
        proof {
            lemma_tokens_view_push(before, t);
            assert(t@ =~= eof_token(self.line as nat));
            assert(tokens_view(self.tokens@) =~= tokens_view(before) + seq![eof_token(
                self.line as nat,
            )]);
        }
        let mut out: Vec<Token> = Vec::new();
        core::mem::swap(&mut out, &mut self.tokens);
        Ok(out)
    }

    fn add_token(&mut self, kind: TokenType)
        requires
            old(self).start <= old(self).current <= old(self).src().len(),
        ensures
            tokens_view(final(self).tokens@) == tokens_view(old(self).tokens@).push(
                spec_token(
                    kind,
                    old(self).src().subrange(old(self).start as int, old(self).current as int),
                    Seq::empty(),
                    old(self).line as nat,
                ),
            ),
            final(self).tokens@.len() == old(self).tokens@.len() + 1,
            *final(self) == (Scanner { tokens: final(self).tokens, ..*old(self) }),
    {
        self.add_token_literal(kind, String::new())
    }
}

} // verus!
