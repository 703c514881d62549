//! The mathematical model of the scan: character classes, the maximal runs
//! the sub-scanners consume, and a recursive specification of the whole
//! token sequence a source text scans to.

use crate::errors::ScannerError;
use crate::token::{SpecToken, Token, TokenType};
use vstd::prelude::*;

verus! {

/// Whether a character is Unicode-alphanumeric, as `char::is_alphanumeric`
/// classifies it; identifier continuation characters are exactly these.
pub uninterp spec fn is_unicode_alphanumeric(c: char) -> bool;

/// Whitespace the scanner skips without counting lines.
pub open spec fn is_blank(c: char) -> bool {
    c == ' ' || c == '\r' || c == '\t'
}

/// An ASCII decimal digit.
pub open spec fn is_digit(c: char) -> bool {
    ('0' as u32) <= (c as u32) && (c as u32) <= ('9' as u32)
}

/// An ASCII letter or underscore: the characters an identifier may start with.
pub open spec fn is_ident_start(c: char) -> bool {
    (('a' as u32) <= (c as u32) && (c as u32) <= ('z' as u32)) || (('A' as u32) <= (c as u32) && (c
        as u32) <= ('Z' as u32)) || c == '_'
}

/// An ASCII digit or letter.
pub open spec fn is_ascii_alphanumeric(c: char) -> bool {
    is_digit(c) || (('a' as u32) <= (c as u32) && (c as u32) <= ('z' as u32)) || (('A' as u32) <= (c
        as u32) && (c as u32) <= ('Z' as u32))
}

/// The kind of a token made of this single character, if there is one.
pub open spec fn single_kind(c: char) -> Option<TokenType> {
    if c == '(' {
        Some(TokenType::LeftParen)
    } else if c == ')' {
        Some(TokenType::RightParen)
    } else if c == '{' {
        Some(TokenType::LeftBrace)
    } else if c == '}' {
        Some(TokenType::RightBrace)
    } else if c == ',' {
        Some(TokenType::Comma)
    } else if c == '.' {
        Some(TokenType::Dot)
    } else if c == '-' {
        Some(TokenType::Minus)
    } else if c == '+' {
        Some(TokenType::Plus)
    } else if c == ';' {
        Some(TokenType::Semicolon)
    } else if c == '*' {
        Some(TokenType::Star)
    } else {
        None
    }
}

/// The kind of an operator that may pair with a following `=`.
pub open spec fn op_kind(c: char, with_equal: bool) -> TokenType {
    if c == '!' {
        if with_equal {
            TokenType::BangEqual
        } else {
            TokenType::Bang
        }
    } else if c == '=' {
        if with_equal {
            TokenType::EqualEqual
        } else {
            TokenType::Equal
        }
    } else if c == '<' {
        if with_equal {
            TokenType::LessEqual
        } else {
            TokenType::Less
        }
    } else {
        if with_equal {
            TokenType::GreaterEqual
        } else {
            TokenType::Greater
        }
    }
}

/// The first position at or after `i` that does not continue a digit run.
pub open spec fn digits_end(s: Seq<char>, i: int) -> int
    decreases s.len() - i,
{
    if 0 <= i < s.len() && is_digit(s[i]) {
        digits_end(s, i + 1)
    } else {
        i
    }
}

/// The first position at or after `i` that does not continue an identifier.
pub open spec fn ident_end(s: Seq<char>, i: int) -> int
    decreases s.len() - i,
{
    if 0 <= i < s.len() && is_unicode_alphanumeric(s[i]) {
        ident_end(s, i + 1)
    } else {
        i
    }
}

/// The first position at or after `i` holding a line feed, or the length of
/// the source: where a line comment ends.
pub open spec fn comment_end(s: Seq<char>, i: int) -> int
    decreases s.len() - i,
{
    if 0 <= i < s.len() && s[i] != '\n' {
        comment_end(s, i + 1)
    } else {
        i
    }
}

/// The first position at or after `i` holding a closing quote, or the length
/// of the source if the string literal is unterminated.
pub open spec fn string_end(s: Seq<char>, i: int) -> int
    decreases s.len() - i,
{
    if 0 <= i < s.len() && s[i] != '"' {
        string_end(s, i + 1)
    } else {
        i
    }
}

/// How many line feeds `s` holds at positions in `[i, j)`.
pub open spec fn newlines_between(s: Seq<char>, i: int, j: int) -> nat
    decreases j - i,
{
    if i < j {
        newlines_between(s, i, j - 1) + (if 0 <= j - 1 < s.len() && s[j - 1] == '\n' {
            1nat
        } else {
            0nat
        })
    } else {
        0nat
    }
}

/// The end of a number token whose digit run restarts at `i` (the first digit
/// is already consumed): the maximal digit run, extended over a fractional
/// part only when a dot is directly followed by a further digit.
pub open spec fn number_end(s: Seq<char>, i: int) -> int {
    let j = digits_end(s, i);
    if j < s.len() && s[j] == '.' && j + 1 < s.len() && is_digit(s[j + 1]) {
        digits_end(s, j + 2)
    } else {
        j
    }
}

/// The keyword kind reserved for exactly this text, if any.
pub open spec fn keyword_kind(text: Seq<char>) -> Option<TokenType> {
    if text == "and"@ {
        Some(TokenType::And)
    } else if text == "class"@ {
        Some(TokenType::Class)
    } else if text == "else"@ {
        Some(TokenType::Else)
    } else if text == "false"@ {
        Some(TokenType::False)
    } else if text == "for"@ {
        Some(TokenType::For)
    } else if text == "fun"@ {
        Some(TokenType::Fun)
    } else if text == "if"@ {
        Some(TokenType::If)
    } else if text == "nil"@ {
        Some(TokenType::Nil)
    } else if text == "or"@ {
        Some(TokenType::Or)
    } else if text == "print"@ {
        Some(TokenType::Print)
    } else if text == "return"@ {
        Some(TokenType::Return)
    } else if text == "super"@ {
        Some(TokenType::Super)
    } else if text == "this"@ {
        Some(TokenType::This)
    } else if text == "true"@ {
        Some(TokenType::True)
    } else if text == "var"@ {
        Some(TokenType::Var)
    } else if text == "while"@ {
        Some(TokenType::While)
    } else {
        None
    }
}

/// A token of the model.
pub open spec fn spec_token(kind: TokenType, lexeme: Seq<char>, literal: Seq<char>, line: nat) -> SpecToken {
    SpecToken { kind, lexeme, literal, line }
}

/// The terminal token of a scan that ended on the given line.
pub open spec fn eof_token(line: nat) -> SpecToken {
    spec_token(TokenType::EndOfInput, Seq::empty(), Seq::empty(), line)
}

/// Prepends already-scanned tokens to the outcome of scanning the rest.
pub open spec fn combine(
    ts: Seq<SpecToken>,
    rest: Result<Seq<SpecToken>, ScannerError>,
) -> Result<Seq<SpecToken>, ScannerError> {
    match rest {
        Ok(more) => Ok(ts + more),
        Err(e) => Err(e),
    }
}

/// The views of a sequence of tokens.
pub open spec fn tokens_view(ts: Seq<Token>) -> Seq<SpecToken> {
    ts.map_values(|t: Token| t@)
}

/// The outcome of scanning `s` from position `i` with the line counter at
/// `line`: the remaining tokens ending in the terminal token, or the first
/// lexical error.
pub open spec fn spec_scan_from(s: Seq<char>, i: int, line: nat) -> Result<
    Seq<SpecToken>,
    ScannerError,
>
    decreases s.len() - i
        via spec_scan_from_decreases
{
    if !(0 <= i < s.len()) {
        Ok(seq![eof_token(line)])
    } else {
        let c = s[i];
        if single_kind(c) is Some {
            combine(
                seq![spec_token(single_kind(c)->Some_0, s.subrange(i, i + 1), Seq::empty(), line)],
                spec_scan_from(s, i + 1, line),
            )
        } else if c == '!' || c == '=' || c == '<' || c == '>' {
            let with_equal = i + 1 < s.len() && s[i + 1] == '=';
            let j = if with_equal {
                i + 2
            } else {
                i + 1
            };
            combine(
                seq![spec_token(op_kind(c, with_equal), s.subrange(i, j), Seq::empty(), line)],
                spec_scan_from(s, j, line),
            )
        } else if c == '/' {
            if i + 1 < s.len() && s[i + 1] == '/' {
                spec_scan_from(s, comment_end(s, i + 2), line)
            } else {
                combine(
                    seq![spec_token(TokenType::Slash, s.subrange(i, i + 1), Seq::empty(), line)],
                    spec_scan_from(s, i + 1, line),
                )
            }
        } else if is_blank(c) {
            spec_scan_from(s, i + 1, line)
        } else if c == '\n' {
            spec_scan_from(s, i + 1, line + 1)
        } else if c == '"' {
            let j = string_end(s, i + 1);
            let after_line = line + newlines_between(s, i + 1, j);
            if j >= s.len() {
                Err(ScannerError::UnterminatedString(after_line as usize))
            } else {
                combine(
                    seq![
                        spec_token(TokenType::String, s.subrange(i, j + 1), s.subrange(i + 1, j), line),
                    ],
                    spec_scan_from(s, j + 1, after_line),
                )
            }
        } else if is_digit(c) {
            let k = number_end(s, i + 1);
            combine(
                seq![spec_token(TokenType::Number, s.subrange(i, k), s.subrange(i, k), line)],
                spec_scan_from(s, k, line),
            )
        } else if is_ident_start(c) {
            let j = ident_end(s, i + 1);
            let text = s.subrange(i, j);
            match keyword_kind(text) {
                Some(kind) => combine(
                    seq![spec_token(kind, text, Seq::empty(), line)],
                    spec_scan_from(s, j, line),
                ),
                None => combine(
                    seq![spec_token(TokenType::Identifier, text, text, line)],
                    spec_scan_from(s, j, line),
                ),
            }
        } else {
            Err(ScannerError::UnexpectedCharacter(c, line as usize))
        }
    }
}

#[via_fn]
proof fn spec_scan_from_decreases(s: Seq<char>, i: int, line: nat) {
    if 0 <= i < s.len() {
        if i + 2 <= s.len() {
            lemma_comment_end_bounds(s, i + 2);
        }
        lemma_string_end_bounds(s, i + 1);
        lemma_digits_end_bounds(s, i + 1);
        let j = digits_end(s, i + 1);
        if j < s.len() && s[j] == '.' && j + 1 < s.len() && is_digit(s[j + 1]) {
            lemma_digits_end_bounds(s, j + 2);
        }
        lemma_ident_end_bounds(s, i + 1);
    }
}

/// The outcome of scanning a whole source text.
pub open spec fn spec_scan(s: Seq<char>) -> Result<Seq<SpecToken>, ScannerError> {
    spec_scan_from(s, 0, 1)
}

pub proof fn lemma_digits_end_bounds(s: Seq<char>, i: int)
    requires
        0 <= i <= s.len(),
    ensures
        i <= digits_end(s, i) <= s.len(),
    decreases s.len() - i,
{
    if i < s.len() && is_digit(s[i]) {
        lemma_digits_end_bounds(s, i + 1);
    }
}

pub proof fn lemma_ident_end_bounds(s: Seq<char>, i: int)
    requires
        0 <= i <= s.len(),
    ensures
        i <= ident_end(s, i) <= s.len(),
    decreases s.len() - i,
{
    if i < s.len() && is_unicode_alphanumeric(s[i]) {
        lemma_ident_end_bounds(s, i + 1);
    }
}

pub proof fn lemma_comment_end_bounds(s: Seq<char>, i: int)
    requires
        0 <= i <= s.len(),
    ensures
        i <= comment_end(s, i) <= s.len(),
        comment_end(s, i) < s.len() ==> s[comment_end(s, i)] == '\n',
    decreases s.len() - i,
{
    if i < s.len() && s[i] != '\n' {
        lemma_comment_end_bounds(s, i + 1);
    }
}

pub proof fn lemma_string_end_bounds(s: Seq<char>, i: int)
    requires
        0 <= i <= s.len(),
    ensures
        i <= string_end(s, i) <= s.len(),
        string_end(s, i) < s.len() ==> s[string_end(s, i)] == '"',
    decreases s.len() - i,
{
    if i < s.len() && s[i] != '"' {
        lemma_string_end_bounds(s, i + 1);
    }
}

/// Prepending nothing leaves an outcome as it is.
pub proof fn lemma_combine_nil(rest: Result<Seq<SpecToken>, ScannerError>)
    ensures
        combine(Seq::empty(), rest) == rest,
{
    match rest {
        Ok(more) => {
            assert(Seq::<SpecToken>::empty() + more =~= more);
        },
        Err(_) => {},
    }
}

/// Prepending twice is prepending the concatenation.
pub proof fn lemma_combine_assoc(
    a: Seq<SpecToken>,
    b: Seq<SpecToken>,
    rest: Result<Seq<SpecToken>, ScannerError>,
)
    ensures
        combine(a, combine(b, rest)) == combine(a + b, rest),
{
    match rest {
        Ok(more) => {
            assert(a + (b + more) =~= (a + b) + more);
        },
        Err(_) => {},
    }
}

/// A pushed token stands alone behind the unchanged prefix.
pub proof fn lemma_push_decomp(a: Seq<SpecToken>, t: SpecToken)
    ensures
        a.push(t).subrange(0, a.len() as int) == a,
        a.push(t).skip(a.len() as int) == seq![t],
        a.push(t) == a + seq![t],
{
    assert(a.push(t).subrange(0, a.len() as int) =~= a);
    assert(a.push(t).skip(a.len() as int) =~= seq![t]);
    assert(a.push(t) =~= a + seq![t]);
}

/// The views of tokens distribute over push.
pub proof fn lemma_tokens_view_push(ts: Seq<Token>, t: Token)
    ensures
        tokens_view(ts.push(t)) == tokens_view(ts).push(t@),
{
    assert(tokens_view(ts.push(t)) =~= tokens_view(ts).push(t@));
}

/// The views of no tokens are no views.
pub proof fn lemma_tokens_view_empty(ts: Seq<Token>)
    requires
        ts.len() == 0,
    ensures
        tokens_view(ts) == Seq::<SpecToken>::empty(),
{
    assert(tokens_view(ts) =~= Seq::<SpecToken>::empty());
}

} // verus!
