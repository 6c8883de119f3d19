//! The lexer: converts raw source text into an ordered sequence of
//! classified tokens.  It operates strictly line by line — no token spans
//! multiple lines — and runs a single lexical mode per position,
//! re-initialized at the beginning of every line.  An invalid character
//! for the current mode is a fatal error reported with its 1-based line
//! number and 0-based column.

use vstd::prelude::*;
use crate::chars::{
    CARRIAGE, COLON, DOT, NEWLINE, SEMICOLON, UNDERSCORE, alnum_char, is_alnum, is_name_char,
    is_operand_char, is_space, name_char, operand_char, space_char,
};
use crate::error::{AsmError, AsmErrorView};
use crate::token::{Token, TokenType, TokenView, views_of};

verus! {

/// The lexical mode of the state machine that scans one line.
#[derive(Clone, Copy, Debug, PartialEq, Eq, Structural)]
pub enum LexState {
    /// At the beginning of a line, before any non-blank character.
    StartOfLine,
    /// Inside a section name, after its leading `.`.
    InSection,
    /// Inside a label name.
    InLabel,
    /// Inside an operand body.
    InOperand,
    /// Between tokens.
    InWhitespace,
    /// Inside a `;` comment: the rest of the line is consumed.
    InComment,
}

/// Prepends an emitted token to the rest of a line's tokens.
pub open spec fn prepend_token(t: TokenView, r: Result<Seq<TokenView>, (int, u8)>) -> Result<
    Seq<TokenView>,
    (int, u8),
> {
    match r {
        Ok(ts) => Ok(seq![t] + ts),
        Err(e) => Err(e),
    }
}

/// Prepends already-emitted tokens to the rest of a lexing result.
pub open spec fn lex_combine(pre: Seq<TokenView>, r: Result<Seq<TokenView>, (int, u8)>) -> Result<
    Seq<TokenView>,
    (int, u8),
> {
    match r {
        Ok(ts) => Ok(pre + ts),
        Err(e) => Err(e),
    }
}

/// The tokens of one line from position `i` on, in mode `state`, where
/// `mark` is the start of the token being scanned.  An error is the
/// 0-based column of the offending character, with that character.  If the
/// line ends while a section name or an operand is pending, the remainder
/// of the line is its span; a pending label lacking its `:` terminator is
/// silently dropped.
pub open spec fn lex_line_from(line: Seq<u8>, i: int, state: LexState, mark: int) -> Result<
    Seq<TokenView>,
    (int, u8),
>
    decreases line.len() - i,
{
    if i < 0 || i >= line.len() {
        match state {
            LexState::InSection => Ok(
                seq![
                    TokenView {
                        token_type: TokenType::Section,
                        text: line.subrange(mark, line.len() as int),
                    },
                ],
            ),
            LexState::InOperand => Ok(
                seq![
                    TokenView {
                        token_type: TokenType::Operand,
                        text: line.subrange(mark, line.len() as int),
                    },
                ],
            ),
            _ => Ok(Seq::empty()),
        }
    } else {
        let c = line[i];
        match state {
            LexState::StartOfLine => {
                if is_space(c) {
                    lex_line_from(line, i + 1, LexState::InWhitespace, mark)
                } else if c == SEMICOLON {
                    lex_line_from(line, i + 1, LexState::InComment, mark)
                } else if is_alnum(c) || c == UNDERSCORE {
                    lex_line_from(line, i + 1, LexState::InLabel, i)
                } else if c == DOT {
                    lex_line_from(line, i + 1, LexState::InSection, i + 1)
                } else {
                    Err((i, c))
                }
            },
            LexState::InSection => {
                if is_space(c) {
                    prepend_token(
                        TokenView { token_type: TokenType::Section, text: line.subrange(mark, i) },
                        lex_line_from(line, i + 1, LexState::InWhitespace, mark),
                    )
                } else if is_name_char(c) {
                    lex_line_from(line, i + 1, LexState::InSection, mark)
                } else {
                    Err((i, c))
                }
            },
            LexState::InLabel => {
                if c == COLON {
                    prepend_token(
                        TokenView { token_type: TokenType::Label, text: line.subrange(mark, i) },
                        lex_line_from(line, i + 1, LexState::InWhitespace, mark),
                    )
                } else if is_name_char(c) {
                    lex_line_from(line, i + 1, LexState::InLabel, mark)
                } else {
                    Err((i, c))
                }
            },
            LexState::InOperand => {
                if is_space(c) {
                    prepend_token(
                        TokenView { token_type: TokenType::Operand, text: line.subrange(mark, i) },
                        lex_line_from(line, i + 1, LexState::InWhitespace, mark),
                    )
                } else if c == SEMICOLON {
                    prepend_token(
                        TokenView { token_type: TokenType::Operand, text: line.subrange(mark, i) },
                        lex_line_from(line, i + 1, LexState::InComment, mark),
                    )
                } else if is_operand_char(c) {
                    lex_line_from(line, i + 1, LexState::InOperand, mark)
                } else {
                    Err((i, c))
                }
            },
            LexState::InWhitespace => {
                if is_space(c) {
                    lex_line_from(line, i + 1, LexState::InWhitespace, mark)
                } else if c == SEMICOLON {
                    lex_line_from(line, i + 1, LexState::InComment, mark)
                } else if is_operand_char(c) {
                    lex_line_from(line, i + 1, LexState::InOperand, i)
                } else {
                    Err((i, c))
                }
            },
            LexState::InComment => Ok(Seq::empty()),
        }
    }
}

/// The number of bytes before the first line feed of `s` (the length of
/// `s` when it holds none).
pub open spec fn dist_to_nl(s: Seq<u8>) -> int
    decreases s.len(),
{
    if s.len() == 0 {
        0
    } else if s[0] == NEWLINE {
        0
    } else {
        1 + dist_to_nl(s.skip(1))
    }
}

/// The distance to the first line feed never runs past the sequence.
pub proof fn lemma_dist_to_nl_bounds(s: Seq<u8>)
    ensures
        0 <= dist_to_nl(s) <= s.len(),
    decreases s.len(),
{
    if s.len() > 0 && s[0] != NEWLINE {
        lemma_dist_to_nl_bounds(s.skip(1));
    }
}

/// If no line feed stands before position `k` and one stands at `k` (or
/// `k` is the end), then `k` is the distance to the first line feed.
pub proof fn lemma_dist_to_nl_at(s: Seq<u8>, k: int)
    requires
        0 <= k <= s.len(),
        forall|l: int| 0 <= l < k ==> s[l] != NEWLINE,
        k < s.len() ==> s[k] == NEWLINE,
    ensures
        dist_to_nl(s) == k,
    decreases k,
{
    if k > 0 {
        assert(s[0] != NEWLINE);
        assert forall|l: int| 0 <= l < k - 1 implies s.skip(1)[l] != NEWLINE by {
            assert(s.skip(1)[l] == s[l + 1]);
        }
        if k - 1 < s.skip(1).len() {
            assert(s.skip(1)[k - 1] == s[k]);
        }
        lemma_dist_to_nl_at(s.skip(1), k - 1);
    }
}

/// The tokens of the whole remaining source, whose first line is numbered
/// `line_no`.  Lines are split at line feeds; a carriage return standing
/// immediately before a line feed belongs to the line ending, not to the
/// line.  The final line ending is optional, and an error on an earlier
/// line preempts everything after it.
pub open spec fn lex_lines(rest: Seq<u8>, line_no: int) -> Result<Seq<TokenView>, AsmErrorView>
    decreases rest.len(),
    via lex_lines_dec
{
    if rest.len() == 0 {
        Ok(Seq::empty())
    } else {
        let k = dist_to_nl(rest);
        let raw = rest.subrange(0, k);
        let has_more = k < rest.len();
        let line = if has_more && raw.len() > 0 && raw.last() == CARRIAGE {
            raw.drop_last()
        } else {
            raw
        };
        match lex_line_from(line, 0, LexState::StartOfLine, 0) {
            Err(e) => Err(
                AsmErrorView::Lexical { line: line_no, column: e.0, character: e.1 },
            ),
            Ok(toks) => {
                if has_more {
                    match lex_lines(rest.skip(k + 1), line_no + 1) {
                        Ok(more) => Ok(toks + more),
                        Err(e2) => Err(e2),
                    }
                } else {
                    Ok(toks)
                }
            },
        }
    }
}

#[via_fn]
proof fn lex_lines_dec(rest: Seq<u8>, line_no: int) {
    lemma_dist_to_nl_bounds(rest);
}

/// The token stream of a whole source text, or its first lexical error.
pub open spec fn lex_spec(src: Seq<u8>) -> Result<Seq<TokenView>, AsmErrorView> {
    lex_lines(src, 1)
}

/// An owned copy of the bytes `src[a..b]`.
fn copy_range(src: &[u8], a: usize, b: usize) -> (v: Vec<u8>)
    requires
        a <= b <= src@.len(),
    ensures
        v@ == src@.subrange(a as int, b as int),
{
    vstd::slice::slice_to_vec(vstd::slice::slice_subrange(src, a, b))
}

/// Scans the single line `src[start..end]` (already stripped of its line
/// ending) and returns its tokens, or the offending character and its
/// column relative to `start`.
#[verifier::loop_isolation(false)]
fn scan_line(src: &[u8], start: usize, end: usize) -> (r: Result<Vec<Token>, (usize, u8)>)
    requires
        start <= end <= src@.len(),
    ensures
        ({
            let line = src@.subrange(start as int, end as int);
            match r {
                Ok(toks) => lex_line_from(line, 0, LexState::StartOfLine, 0) == Ok::<
                    _,
                    (int, u8),
                >(views_of(toks@)),
                Err(e) => lex_line_from(line, 0, LexState::StartOfLine, 0) == Err::<
                    Seq<TokenView>,
                    _,
                >((e.0 as int, e.1)),
            }
        }),
{
    let ghost line = src@.subrange(start as int, end as int);
    let mut line_tokens: Vec<Token> = Vec::new();
    let mut state = LexState::StartOfLine;
    let mut mark: usize = start;
    let mut i: usize = start;
    proof {
        if lex_line_from(line, 0, LexState::StartOfLine, 0) is Ok {
            let ts = lex_line_from(line, 0, LexState::StartOfLine, 0)->Ok_0;
            assert(views_of(line_tokens@) + ts =~= ts);
        }
    }
    while i < end
        invariant
            start <= mark <= i <= end,
            lex_line_from(line, 0, LexState::StartOfLine, 0) == lex_combine(
                views_of(line_tokens@),
                lex_line_from(line, i - start, state, mark - start),
            ),
        decreases end - i,
    {
        let c = src[i];
        proof {
            assert(line[i - start] == src@[i as int]);
        }
        match state {
            LexState::StartOfLine => {
                if space_char(c) {
                    state = LexState::InWhitespace;
                } else if c == SEMICOLON {
                    state = LexState::InComment;
                } else if alnum_char(c) || c == UNDERSCORE {
                    mark = i;
                    state = LexState::InLabel;
                } else if c == DOT {
                    mark = i + 1;
                    state = LexState::InSection;
                } else {
                    return Err((i - start, c));
                }
            },
            LexState::InSection => {
                if space_char(c) {
                    let tok = Token {
                        token_type: TokenType::Section,
                        text: copy_range(src, mark, i),
                    };
                    let ghost before = views_of(line_tokens@);
                    let ghost tv = tok@;
                    line_tokens.push(tok);
                    state = LexState::InWhitespace;
                    proof {
                        assert(tv.text =~= line.subrange(mark - start, i - start));
                        assert(views_of(line_tokens@) =~= before + seq![tv]);
                        if lex_line_from(line, i + 1 - start, state, mark - start) is Ok {
                            let ts = lex_line_from(line, i + 1 - start, state, mark - start)->Ok_0;
                            assert((before + seq![tv]) + ts =~= before + (seq![tv] + ts));
                        }
                    }
                } else if name_char(c) {
                } else {
                    return Err((i - start, c));
                }
            },
            LexState::InLabel => {
                if c == COLON {
                    let tok = Token { token_type: TokenType::Label, text: copy_range(src, mark, i) };
                    let ghost before = views_of(line_tokens@);
                    let ghost tv = tok@;
                    line_tokens.push(tok);
                    state = LexState::InWhitespace;
                    proof {
                        assert(tv.text =~= line.subrange(mark - start, i - start));
                        assert(views_of(line_tokens@) =~= before + seq![tv]);
                        if lex_line_from(line, i + 1 - start, state, mark - start) is Ok {
                            let ts = lex_line_from(line, i + 1 - start, state, mark - start)->Ok_0;
                            assert((before + seq![tv]) + ts =~= before + (seq![tv] + ts));
                        }
                    }
                } else if name_char(c) {
                } else {
                    return Err((i - start, c));
                }
            },
            LexState::InOperand => {
                if space_char(c) || c == SEMICOLON {
                    let tok = Token {
                        token_type: TokenType::Operand,
                        text: copy_range(src, mark, i),
                    };
                    let ghost before = views_of(line_tokens@);
                    let ghost tv = tok@;
                    line_tokens.push(tok);
                    state = if c == SEMICOLON {
                        LexState::InComment
                    } else {
                        LexState::InWhitespace
                    };
                    proof {
                        assert(tv.text =~= line.subrange(mark - start, i - start));
                        assert(views_of(line_tokens@) =~= before + seq![tv]);
                        if lex_line_from(line, i + 1 - start, state, mark - start) is Ok {
                            let ts = lex_line_from(line, i + 1 - start, state, mark - start)->Ok_0;
                            assert((before + seq![tv]) + ts =~= before + (seq![tv] + ts));
                        }
                    }
                } else if operand_char(c) {
                } else {
                    return Err((i - start, c));
                }
            },
            LexState::InWhitespace => {
                if space_char(c) {
                } else if c == SEMICOLON {
                    state = LexState::InComment;
                } else if operand_char(c) {
                    mark = i;
                    state = LexState::InOperand;
                } else {
                    return Err((i - start, c));
                }
            },
            LexState::InComment => {},
        }
        i = i + 1;
    }
    match state {
        LexState::InSection => {
            let tok = Token { token_type: TokenType::Section, text: copy_range(src, mark, end) };
            let ghost before = views_of(line_tokens@);
            let ghost tv = tok@;
            line_tokens.push(tok);
            proof {
                assert(tv.text =~= line.subrange(mark - start, line.len() as int));
                assert(views_of(line_tokens@) =~= before + seq![tv]);
            }
        },
        LexState::InOperand => {
            let tok = Token { token_type: TokenType::Operand, text: copy_range(src, mark, end) };
            let ghost before = views_of(line_tokens@);
            let ghost tv = tok@;
            line_tokens.push(tok);
            proof {
                assert(tv.text =~= line.subrange(mark - start, line.len() as int));
                assert(views_of(line_tokens@) =~= before + seq![tv]);
            }
        },
        _ => {
            proof {
                assert(views_of(line_tokens@) + Seq::<TokenView>::empty() =~= views_of(
                    line_tokens@,
                ));
            }
        },
    }
    Ok(line_tokens)
}

/// Converts the source text into its token stream, line by line, or stops
/// at the first lexical error.
#[verifier::loop_isolation(false)]
#[verifier::rlimit(60)]
pub fn scanner(src: &[u8]) -> (r: Result<Vec<Token>, AsmError>)
    ensures
        r matches Ok(toks) ==> lex_spec(src@) == Ok::<_, AsmErrorView>(views_of(toks@)),
        r matches Err(e) ==> lex_spec(src@) == Err::<Seq<TokenView>, _>(e@),
{
    let n = src.len();
    let mut token_stream: Vec<Token> = Vec::new();
    let mut pos: usize = 0;
    let mut line_no: usize = 0;
    proof {
        assert(src@.skip(0) =~= src@);
        if lex_lines(src@, 1) is Ok {
            let ts = lex_lines(src@, 1)->Ok_0;
            assert(views_of(token_stream@) + ts =~= ts);
        }
    }
    while pos < n
        invariant
            pos <= n,
            line_no <= pos,
            lex_lines(src@, 1) == (match lex_lines(src@.skip(pos as int), line_no as int + 1) {
                Ok(ts) => Ok::<_, AsmErrorView>(views_of(token_stream@) + ts),
                Err(e) => Err::<Seq<TokenView>, _>(e),
            }),
        decreases n - pos,
    {
        line_no = line_no + 1;
        let mut j: usize = pos;
        while j < n && src[j] != NEWLINE
            invariant
                pos <= j <= n,
                forall|l: int| pos <= l < j ==> src@[l] != NEWLINE,
            decreases n - j,
        {
            j = j + 1;
        }
        let has_nl = j < n;
        let line_end = if has_nl && j > pos && src[j - 1] == CARRIAGE {
            j - 1
        } else {
            j
        };
        let ghost rest = src@.skip(pos as int);
        proof {
            assert forall|l: int| 0 <= l < j - pos implies rest[l] != NEWLINE by {
                assert(rest[l] == src@[pos + l]);
            }
            if j < n {
                assert(rest[j - pos] == src@[j as int]);
            }
            lemma_dist_to_nl_at(rest, j as int - pos as int);
            assert(rest.subrange(0, j - pos) =~= src@.subrange(pos as int, j as int));
            if has_nl && line_end < j {
                assert(rest.subrange(0, j - pos).drop_last() =~= src@.subrange(
                    pos as int,
                    line_end as int,
                ));
            }
        }
        let scanned = scan_line(src, pos, line_end);
        match scanned {
            Err(e) => {
                return Err(
                    AsmError::Lexical { line: line_no, column: e.0, character: e.1 },
                );
            },
            Ok(mut line_tokens) => {
                let ghost before = views_of(token_stream@);
                let ghost lv = views_of(line_tokens@);
                token_stream.append(&mut line_tokens);
                proof {
                    assert(views_of(token_stream@) =~= before + lv);
                }
                if has_nl {
                    proof {
                        assert(rest.skip(j - pos + 1) =~= src@.skip(j as int + 1));
                        if lex_lines(src@.skip(j as int + 1), line_no as int + 1) is Ok {
                            let more = lex_lines(src@.skip(j as int + 1), line_no as int + 1)->Ok_0;
                            assert((before + lv) + more =~= before + (lv + more));
                        }
                    }
                    pos = j + 1;
                } else {
                    proof {
                        assert((before + lv) + Seq::<TokenView>::empty() =~= before + lv);
                        assert(src@.skip(n as int) =~= Seq::<u8>::empty());
                    }
                    pos = n;
                }
            },
        }
    }
    proof {
        assert(src@.skip(pos as int) =~= Seq::<u8>::empty());
        assert(views_of(token_stream@) + Seq::<TokenView>::empty() =~= views_of(token_stream@));
    }
    Ok(token_stream)
}

} // verus!
