//! Laws of the scan model: every successful scan ends in exactly one
//! terminal token, and its token lexemes, interleaved with the skipped
//! whitespace and comment spans, reconstruct the source exactly.

use crate::errors::ScannerError;
use crate::model::{
    comment_end, eof_token, is_blank, is_digit, is_ident_start, keyword_kind,
    lemma_comment_end_bounds, lemma_digits_end_bounds, lemma_ident_end_bounds,
    lemma_string_end_bounds, number_end, single_kind, spec_scan, spec_scan_from, string_end,
};
use crate::token::{SpecToken, TokenType};
use vstd::prelude::*;

verus! {

/// A character the scanner may skip between tokens without reading it as
/// part of one: blank whitespace or a line feed.
pub open spec fn is_skippable_char(c: char) -> bool {
    is_blank(c) || c == '\n'
}

/// The source from position `i` on decomposes into the lexemes of `toks` in
/// order, interleaved with skipped whitespace characters and line comments,
/// with the terminal token's empty lexeme closing the decomposition at the
/// end of the source.
pub open spec fn rebuilds_from(s: Seq<char>, i: int, toks: Seq<SpecToken>) -> bool
    decreases s.len() - i, toks.len()
        via rebuilds_from_decreases
{
    if !(0 <= i <= s.len()) || toks.len() == 0 {
        false
    } else {
        ||| (toks.len() == 1 && toks[0].lexeme.len() == 0 && i == s.len())
        ||| (toks[0].lexeme.len() > 0 && i + toks[0].lexeme.len() <= s.len() && toks[0].lexeme
            == s.subrange(i, i + toks[0].lexeme.len() as int) && rebuilds_from(
            s,
            i + toks[0].lexeme.len() as int,
            toks.drop_first(),
        ))
        ||| (i < s.len() && is_skippable_char(s[i]) && rebuilds_from(s, i + 1, toks))
        ||| (i + 1 < s.len() && s[i] == '/' && s[i + 1] == '/' && rebuilds_from(
            s,
            comment_end(s, i + 2),
            toks,
        ))
    }
}

#[via_fn]
proof fn rebuilds_from_decreases(s: Seq<char>, i: int, toks: Seq<SpecToken>) {
    if 0 <= i <= s.len() && toks.len() > 0 {
        if i + 2 <= s.len() {
            lemma_comment_end_bounds(s, i + 2);
        }
    }
}

proof fn lemma_cons_parts(t: SpecToken, more: Seq<SpecToken>)
    ensures
        (seq![t] + more).len() == 1 + more.len(),
        (seq![t] + more)[0] == t,
        (seq![t] + more).drop_first() == more,
        forall|k: int| 0 <= k < more.len() ==> (seq![t] + more)[k + 1] == more[k],
        more.len() >= 1 ==> (seq![t] + more).last() == more.last(),
{
    assert((seq![t] + more).drop_first() =~= more);
}

/// Every successful scan from any position yields at least one token, ends
/// in the terminal token with an empty lexeme, and holds no other terminal
/// token.
proof fn lemma_scan_from_terminal(s: Seq<char>, i: int, line: nat, toks: Seq<SpecToken>)
    requires
        0 <= i <= s.len(),
        spec_scan_from(s, i, line) == Ok::<Seq<SpecToken>, ScannerError>(toks),
    ensures
        toks.len() >= 1,
        toks.last().kind == TokenType::EndOfInput,
        toks.last().lexeme.len() == 0,
        forall|k: int| 0 <= k < toks.len() - 1 ==> toks[k].kind != TokenType::EndOfInput,
    decreases s.len() - i, 0int,
{
    if i >= s.len() {
        assert(toks == seq![eof_token(line)]);
    } else {
        let c = s[i];
        if single_kind(c) is Some {
            let t = crate::model::spec_token(
                single_kind(c)->Some_0,
                s.subrange(i, i + 1),
                Seq::empty(),
                line,
            );
            terminal_step(s, i, line, toks, t, i + 1, line);
        } else if c == '!' || c == '=' || c == '<' || c == '>' {
            let with_equal = i + 1 < s.len() && s[i + 1] == '=';
            let j = if with_equal {
                i + 2
            } else {
                i + 1
            };
            let t = crate::model::spec_token(
                crate::model::op_kind(c, with_equal),
                s.subrange(i, j),
                Seq::empty(),
                line,
            );
            terminal_step(s, i, line, toks, t, j, line);
        } else if c == '/' {
            if i + 1 < s.len() && s[i + 1] == '/' {
                lemma_comment_end_bounds(s, i + 2);
                lemma_scan_from_terminal(s, comment_end(s, i + 2), line, toks);
            } else {
                let t = crate::model::spec_token(
                    TokenType::Slash,
                    s.subrange(i, i + 1),
                    Seq::empty(),
                    line,
                );
                terminal_step(s, i, line, toks, t, i + 1, line);
            }
        } else if is_blank(c) {
            lemma_scan_from_terminal(s, i + 1, line, toks);
        } else if c == '\n' {
            lemma_scan_from_terminal(s, i + 1, line + 1, toks);
        } else if c == '"' {
            let j = string_end(s, i + 1);
            lemma_string_end_bounds(s, i + 1);
            let after_line = line + crate::model::newlines_between(s, i + 1, j);
            let t = crate::model::spec_token(
                TokenType::String,
                s.subrange(i, j + 1),
                s.subrange(i + 1, j),
                line,
            );
            terminal_step(s, i, line, toks, t, j + 1, after_line);
        } else if is_digit(c) {
            let k = number_end(s, i + 1);
            lemma_digits_end_bounds(s, i + 1);
            let j0 = crate::model::digits_end(s, i + 1);
            if j0 < s.len() && s[j0] == '.' && j0 + 1 < s.len() && is_digit(s[j0 + 1]) {
                lemma_digits_end_bounds(s, j0 + 2);
            }
            let t = crate::model::spec_token(
                TokenType::Number,
                s.subrange(i, k),
                s.subrange(i, k),
                line,
            );
            terminal_step(s, i, line, toks, t, k, line);
        } else if is_ident_start(c) {
            let j = crate::model::ident_end(s, i + 1);
            lemma_ident_end_bounds(s, i + 1);
            let text = s.subrange(i, j);
            let t = match keyword_kind(text) {
                Some(kind) => crate::model::spec_token(kind, text, Seq::empty(), line),
                None => crate::model::spec_token(TokenType::Identifier, text, text, line),
            };
            terminal_step(s, i, line, toks, t, j, line);
        }
    }
}

/// One dispatch step of the terminal-token law: the branch emitted `t` and
/// went on at `next`.
proof fn terminal_step(
    s: Seq<char>,
    i: int,
    line: nat,
    toks: Seq<SpecToken>,
    t: SpecToken,
    next: int,
    next_line: nat,
)
    requires
        0 <= i < s.len(),
        i < next <= s.len(),
        t.kind != TokenType::EndOfInput,
        spec_scan_from(s, i, line) == Ok::<Seq<SpecToken>, ScannerError>(toks),
        spec_scan_from(s, i, line) == crate::model::combine(
            seq![t],
            spec_scan_from(s, next, next_line),
        ),
    ensures
        toks.len() >= 1,
        toks.last().kind == TokenType::EndOfInput,
        toks.last().lexeme.len() == 0,
        forall|k: int| 0 <= k < toks.len() - 1 ==> toks[k].kind != TokenType::EndOfInput,
    decreases s.len() - next, 1int,
{
    let rest = spec_scan_from(s, next, next_line);
    match rest {
        Ok(more) => {
            lemma_scan_from_terminal(s, next, next_line, more);
            lemma_cons_parts(t, more);
            assert(toks == seq![t] + more);
            assert(toks.last() == more.last());
            assert forall|k: int| 0 <= k < toks.len() - 1 implies toks[k].kind
                != TokenType::EndOfInput by {
                if k >= 1 {
                    assert(toks[k] == more[k - 1]);
                }
            }
        },
        Err(_) => {
            assert(false);
        },
    }
}

/// Termination law: scanning any finite source yields either exactly one
/// error or a token sequence that is never empty and ends in exactly one
/// terminal token.
pub proof fn lemma_scan_terminal(s: Seq<char>, toks: Seq<SpecToken>)
    requires
        spec_scan(s) == Ok::<Seq<SpecToken>, ScannerError>(toks),
    ensures
        toks.len() >= 1,
        toks.last().kind == TokenType::EndOfInput,
        toks.last().lexeme.len() == 0,
        forall|k: int| 0 <= k < toks.len() - 1 ==> toks[k].kind != TokenType::EndOfInput,
{
    lemma_scan_from_terminal(s, 0, 1, toks);
}

proof fn lemma_scan_from_rebuilds(s: Seq<char>, i: int, line: nat, toks: Seq<SpecToken>)
    requires
        0 <= i <= s.len(),
        spec_scan_from(s, i, line) == Ok::<Seq<SpecToken>, ScannerError>(toks),
    ensures
        rebuilds_from(s, i, toks),
    decreases s.len() - i, 0int,
{
    if i >= s.len() {
        assert(toks == seq![eof_token(line)]);
    } else {
        let c = s[i];
        if single_kind(c) is Some {
            let t = crate::model::spec_token(
                single_kind(c)->Some_0,
                s.subrange(i, i + 1),
                Seq::empty(),
                line,
            );
            rebuilds_step(s, i, line, toks, t, i + 1, line);
        } else if c == '!' || c == '=' || c == '<' || c == '>' {
            let with_equal = i + 1 < s.len() && s[i + 1] == '=';
            let j = if with_equal {
                i + 2
            } else {
                i + 1
            };
            let t = crate::model::spec_token(
                crate::model::op_kind(c, with_equal),
                s.subrange(i, j),
                Seq::empty(),
                line,
            );
            rebuilds_step(s, i, line, toks, t, j, line);
        } else if c == '/' {
            if i + 1 < s.len() && s[i + 1] == '/' {
                lemma_comment_end_bounds(s, i + 2);
                lemma_scan_from_rebuilds(s, comment_end(s, i + 2), line, toks);
            } else {
                let t = crate::model::spec_token(
                    TokenType::Slash,
                    s.subrange(i, i + 1),
                    Seq::empty(),
                    line,
                );
                rebuilds_step(s, i, line, toks, t, i + 1, line);
            }
        } else if is_blank(c) {
            lemma_scan_from_rebuilds(s, i + 1, line, toks);
        } else if c == '\n' {
            lemma_scan_from_rebuilds(s, i + 1, line + 1, toks);
        } else if c == '"' {
            let j = string_end(s, i + 1);
            lemma_string_end_bounds(s, i + 1);
            let after_line = line + crate::model::newlines_between(s, i + 1, j);
            let t = crate::model::spec_token(
                TokenType::String,
                s.subrange(i, j + 1),
                s.subrange(i + 1, j),
                line,
            );
            rebuilds_step(s, i, line, toks, t, j + 1, after_line);
        } else if is_digit(c) {
            let k = number_end(s, i + 1);
            lemma_digits_end_bounds(s, i + 1);
            let j0 = crate::model::digits_end(s, i + 1);
            if j0 < s.len() && s[j0] == '.' && j0 + 1 < s.len() && is_digit(s[j0 + 1]) {
                lemma_digits_end_bounds(s, j0 + 2);
            }
            let t = crate::model::spec_token(
                TokenType::Number,
                s.subrange(i, k),
                s.subrange(i, k),
                line,
            );
            rebuilds_step(s, i, line, toks, t, k, line);
        } else if is_ident_start(c) {
            let j = crate::model::ident_end(s, i + 1);
            lemma_ident_end_bounds(s, i + 1);
            let text = s.subrange(i, j);
            let t = match keyword_kind(text) {
                Some(kind) => crate::model::spec_token(kind, text, Seq::empty(), line),
                None => crate::model::spec_token(TokenType::Identifier, text, text, line),
            };
            rebuilds_step(s, i, line, toks, t, j, line);
        }
    }
}

/// One dispatch step of the round-trip law: the branch emitted `t`, whose
/// lexeme is the source span `[i, next)`, and went on at `next`.
proof fn rebuilds_step(
    s: Seq<char>,
    i: int,
    line: nat,
    toks: Seq<SpecToken>,
    t: SpecToken,
    next: int,
    next_line: nat,
)
    requires
        0 <= i < s.len(),
        i < next <= s.len(),
        t.lexeme == s.subrange(i, next),
        spec_scan_from(s, i, line) == Ok::<Seq<SpecToken>, ScannerError>(toks),
        spec_scan_from(s, i, line) == crate::model::combine(
            seq![t],
            spec_scan_from(s, next, next_line),
        ),
    ensures
        rebuilds_from(s, i, toks),
    decreases s.len() - next, 1int,
{
    let rest = spec_scan_from(s, next, next_line);
    match rest {
        Ok(more) => {
            lemma_scan_from_rebuilds(s, next, next_line, more);
            lemma_cons_parts(t, more);
            assert(toks == seq![t] + more);
            assert(toks[0] == t);
            assert(t.lexeme.len() == next - i);
            assert(toks.drop_first() == more);
            assert(rebuilds_from(s, i, toks));
        },
        Err(_) => {
            assert(false);
        },
    }
}

/// Every successful scan from any position yields tokens whose lines start
/// no earlier than the line the scan began on and never decrease in source
/// order.
proof fn lemma_scan_from_lines(s: Seq<char>, i: int, line: nat, toks: Seq<SpecToken>)
    requires
        0 <= i <= s.len(),
        spec_scan_from(s, i, line) == Ok::<Seq<SpecToken>, ScannerError>(toks),
    ensures
        forall|k: int| 0 <= k < toks.len() ==> line <= toks[k].line,
        forall|k: int, l: int| 0 <= k <= l < toks.len() ==> toks[k].line <= toks[l].line,
    decreases s.len() - i, 0int,
{
    if i >= s.len() {
        assert(toks == seq![eof_token(line)]);
    } else {
        let c = s[i];
        if single_kind(c) is Some {
            let t = crate::model::spec_token(
                single_kind(c)->Some_0,
                s.subrange(i, i + 1),
                Seq::empty(),
                line,
            );
            lines_step(s, i, line, toks, t, i + 1, line);
        } else if c == '!' || c == '=' || c == '<' || c == '>' {
            let with_equal = i + 1 < s.len() && s[i + 1] == '=';
            let j = if with_equal {
                i + 2
            } else {
                i + 1
            };
            let t = crate::model::spec_token(
                crate::model::op_kind(c, with_equal),
                s.subrange(i, j),
                Seq::empty(),
                line,
            );
            lines_step(s, i, line, toks, t, j, line);
        } else if c == '/' {
            if i + 1 < s.len() && s[i + 1] == '/' {
                lemma_comment_end_bounds(s, i + 2);
                lemma_scan_from_lines(s, comment_end(s, i + 2), line, toks);
            } else {
                let t = crate::model::spec_token(
                    TokenType::Slash,
                    s.subrange(i, i + 1),
                    Seq::empty(),
                    line,
                );
                lines_step(s, i, line, toks, t, i + 1, line);
            }
        } else if is_blank(c) {
            lemma_scan_from_lines(s, i + 1, line, toks);
        } else if c == '\n' {
            lemma_scan_from_lines(s, i + 1, line + 1, toks);
        } else if c == '"' {
            let j = string_end(s, i + 1);
            lemma_string_end_bounds(s, i + 1);
            let after_line = line + crate::model::newlines_between(s, i + 1, j);
            let t = crate::model::spec_token(
                TokenType::String,
                s.subrange(i, j + 1),
                s.subrange(i + 1, j),
                line,
            );
            lines_step(s, i, line, toks, t, j + 1, after_line);
        } else if is_digit(c) {
            let k = number_end(s, i + 1);
            lemma_digits_end_bounds(s, i + 1);
            let j0 = crate::model::digits_end(s, i + 1);
            if j0 < s.len() && s[j0] == '.' && j0 + 1 < s.len() && is_digit(s[j0 + 1]) {
                lemma_digits_end_bounds(s, j0 + 2);
            }
            let t = crate::model::spec_token(
                TokenType::Number,
                s.subrange(i, k),
                s.subrange(i, k),
                line,
            );
            lines_step(s, i, line, toks, t, k, line);
        } else if is_ident_start(c) {
            let j = crate::model::ident_end(s, i + 1);
            lemma_ident_end_bounds(s, i + 1);
            let text = s.subrange(i, j);
            let t = match keyword_kind(text) {
                Some(kind) => crate::model::spec_token(kind, text, Seq::empty(), line),
                None => crate::model::spec_token(TokenType::Identifier, text, text, line),
            };
            lines_step(s, i, line, toks, t, j, line);
        }
    }
}

/// One dispatch step of the line-order law: the branch emitted `t` on the
/// current line and went on at `next` with a line no earlier than it.
proof fn lines_step(
    s: Seq<char>,
    i: int,
    line: nat,
    toks: Seq<SpecToken>,
    t: SpecToken,
    next: int,
    next_line: nat,
)
    requires
        0 <= i < s.len(),
        i < next <= s.len(),
        t.line == line,
        line <= next_line,
        spec_scan_from(s, i, line) == Ok::<Seq<SpecToken>, ScannerError>(toks),
        spec_scan_from(s, i, line) == crate::model::combine(
            seq![t],
            spec_scan_from(s, next, next_line),
        ),
    ensures
        forall|k: int| 0 <= k < toks.len() ==> line <= toks[k].line,
        forall|k: int, l: int| 0 <= k <= l < toks.len() ==> toks[k].line <= toks[l].line,
    decreases s.len() - next, 1int,
{
    let rest = spec_scan_from(s, next, next_line);
    match rest {
        Ok(more) => {
            lemma_scan_from_lines(s, next, next_line, more);
            lemma_cons_parts(t, more);
            assert(toks == seq![t] + more);
            assert forall|k: int| 0 <= k < toks.len() implies line <= toks[k].line by {
                if k >= 1 {
                    assert(toks[k] == more[k - 1]);
                }
            }
            assert forall|k: int, l: int| 0 <= k <= l < toks.len() implies toks[k].line
                <= toks[l].line by {
                if k >= 1 {
                    assert(toks[k] == more[k - 1]);
                    assert(toks[l] == more[l - 1]);
                } else if l >= 1 {
                    assert(toks[l] == more[l - 1]);
                    assert(next_line <= more[l - 1].line);
                }
            }
        },
        Err(_) => {
            assert(false);
        },
    }
}

/// Line-order law: the tokens of a successful scan carry 1-based line
/// numbers that never decrease in source order.
pub proof fn lemma_scan_lines_monotone(s: Seq<char>, toks: Seq<SpecToken>)
    requires
        spec_scan(s) == Ok::<Seq<SpecToken>, ScannerError>(toks),
    ensures
        forall|k: int| 0 <= k < toks.len() ==> 1 <= toks[k].line,
        forall|k: int, l: int| 0 <= k <= l < toks.len() ==> toks[k].line <= toks[l].line,
{
    lemma_scan_from_lines(s, 0, 1, toks);
}

/// Round-trip law: on any input with no lexical error, the lexemes of the
/// returned tokens, taken in order and interleaved with the whitespace and
/// comment spans the scanner skipped, reconstruct the source exactly.
pub proof fn lemma_scan_round_trip(s: Seq<char>, toks: Seq<SpecToken>)
    requires
        spec_scan(s) == Ok::<Seq<SpecToken>, ScannerError>(toks),
    ensures
        rebuilds_from(s, 0, toks),
{
    lemma_scan_from_rebuilds(s, 0, 1, toks);
}

} // verus!
