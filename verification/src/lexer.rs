//! The lexer: turns source text into a sequence of tokens (punctuation,
//! identifiers, and description lines), skipping whitespace and line
//! comments, or fails at the first character no token starts with.

use vstd::prelude::*;

use crate::error::{
    lemma_line_end_bounds, spec_line_end, spec_line_text, spec_position, CompilerError,
    SpecCompilerError, line_end_of, line_text_of, position_of,
};

verus! {

/// The kinds of token the grammar is made of.
#[derive(Debug, Clone, Copy, PartialEq, Eq, Structural)]
pub enum TokenKind {
    LBrace,
    RBrace,
    LParen,
    RParen,
    Comma,
    Semi,
    Equals,
    Ident,
    Description,
}

/// The mathematical value of a token: its kind, its text, and the character
/// indices it spans in the source.
pub ghost struct SpecToken {
    pub kind: TokenKind,
    pub text: Seq<char>,
    pub start: int,
    pub end: int,
}

/// One token of the source text. `text` is the identifier for `Ident`, the
/// comment body for `Description`, and the punctuation character otherwise;
/// `start` and `end` are character indices into the source.
#[derive(Debug, Clone, PartialEq)]
pub struct Token {
    pub kind: TokenKind,
    pub text: String,
    pub start: usize,
    pub end: usize,
}

impl View for Token {
    type V = SpecToken;

    open spec fn view(&self) -> SpecToken {
        SpecToken {
            kind: self.kind,
            text: self.text@,
            start: self.start as int,
            end: self.end as int,
        }
    }
}

/// The views of a sequence of tokens.
pub open spec fn spec_token_views(ts: Seq<Token>) -> Seq<SpecToken> {
    Seq::new(ts.len(), |k: int| ts[k]@)
}

/// Whitespace separates tokens and is otherwise ignored.
pub open spec fn is_space_char(c: char) -> bool {
    c == ' ' || c == '\t' || c == '\r' || c == '\n'
}

/// Identifier characters: ASCII letters, digits and `_`. State and library
/// names are non-empty runs of these.
pub open spec fn is_ident_char(c: char) -> bool {
    ('a' as u32 <= c as u32 && c as u32 <= 'z' as u32) || ('A' as u32 <= c as u32 && c as u32
        <= 'Z' as u32) || ('0' as u32 <= c as u32 && c as u32 <= '9' as u32) || c == '_'
}

/// The token kind a punctuation character denotes, if any.
pub open spec fn spec_punct_kind(c: char) -> Option<TokenKind> {
    if c == '{' {
        Some(TokenKind::LBrace)
    } else if c == '}' {
        Some(TokenKind::RBrace)
    } else if c == '(' {
        Some(TokenKind::LParen)
    } else if c == ')' {
        Some(TokenKind::RParen)
    } else if c == ',' {
        Some(TokenKind::Comma)
    } else if c == ';' {
        Some(TokenKind::Semi)
    } else if c == '=' {
        Some(TokenKind::Equals)
    } else {
        None
    }
}

/// The index just past the identifier run that starts at `i`.
pub open spec fn spec_ident_end(s: Seq<char>, i: int) -> int
    decreases s.len() - i,
{
    if 0 <= i < s.len() && is_ident_char(s[i]) {
        spec_ident_end(s, i + 1)
    } else {
        i
    }
}

/// The identifier run that starts at `i` ends exactly at `j` when the
/// characters up to `j` are identifier characters and the one at `j`, if
/// any, is not.
pub proof fn lemma_ident_end_run(s: Seq<char>, i: int, j: int)
    requires
        0 <= i <= j <= s.len(),
        forall|k: int| i <= k < j ==> is_ident_char(#[trigger] s[k]),
        j == s.len() || !is_ident_char(s[j]),
    ensures
        spec_ident_end(s, i) == j,
    decreases j - i,
{
    if i < j {
        lemma_ident_end_run(s, i + 1, j);
    }
}

pub proof fn lemma_ident_end_bounds(s: Seq<char>, i: int)
    requires
        0 <= i <= s.len(),
    ensures
        i <= spec_ident_end(s, i) <= s.len(),
    decreases s.len() - i,
{
    if i < s.len() && is_ident_char(s[i]) {
        lemma_ident_end_bounds(s, i + 1);
    }
}

/// The index just past the line break at `j`, where `\r\n` counts as one
/// break.
pub open spec fn spec_newline_after(s: Seq<char>, j: int) -> int {
    if 0 <= j && j + 1 < s.len() && s[j] == '\r' && s[j + 1] == '\n' {
        j + 2
    } else if 0 <= j < s.len() && (s[j] == '\r' || s[j] == '\n') {
        j + 1
    } else {
        j
    }
}

/// Prepend a token to the result of lexing the rest, keeping an error.
pub open spec fn spec_cons_token(
    t: SpecToken,
    rest: Result<Seq<SpecToken>, int>,
) -> Result<Seq<SpecToken>, int> {
    match rest {
        Ok(ts) => Ok(seq![t] + ts),
        Err(e) => Err(e),
    }
}

/// The tokens of `s` from index `i` on; an error carries the index of the
/// first character no token starts with.
pub open spec fn spec_lex_from(s: Seq<char>, i: int) -> Result<Seq<SpecToken>, int>
    decreases s.len() - i,
    via spec_lex_from_decreases
{
    if i < 0 || i >= s.len() {
        Ok(Seq::empty())
    } else {
        let c = s[i];
        if is_space_char(c) {
            spec_lex_from(s, i + 1)
        } else if c == '/' {
            if i + 1 < s.len() && s[i + 1] == '/' {
                if i + 2 < s.len() && s[i + 2] == '/' {
                    let text_end = spec_line_end(s, i + 3);
                    let tok_end = spec_newline_after(s, text_end);
                    spec_cons_token(
                        SpecToken {
                            kind: TokenKind::Description,
                            text: s.subrange(i + 3, text_end),
                            start: i,
                            end: tok_end,
                        },
                        spec_lex_from(s, tok_end),
                    )
                } else {
                    spec_lex_from(s, spec_line_end(s, i + 2))
                }
            } else {
                Err(i)
            }
        } else if spec_punct_kind(c) is Some {
            spec_cons_token(
                SpecToken {
                    kind: spec_punct_kind(c)->Some_0,
                    text: seq![c],
                    start: i,
                    end: i + 1,
                },
                spec_lex_from(s, i + 1),
            )
        } else if is_ident_char(c) {
            let j = spec_ident_end(s, i);
            spec_cons_token(
                SpecToken { kind: TokenKind::Ident, text: s.subrange(i, j), start: i, end: j },
                spec_lex_from(s, j),
            )
        } else {
            Err(i)
        }
    }
}

#[via_fn]
proof fn spec_lex_from_decreases(s: Seq<char>, i: int) {
    if 0 <= i < s.len() {
        if s[i] == '/' && i + 1 < s.len() && s[i + 1] == '/' {
            if i + 2 < s.len() && s[i + 2] == '/' {
                lemma_line_end_bounds(s, i + 3);
            } else {
                lemma_line_end_bounds(s, i + 2);
            }
        }
        if is_ident_char(s[i]) {
            lemma_ident_end_bounds(s, i + 1);
        }
    }
}

/// The error a failed lexing reports: the unexpected character, its
/// position, and its line.
pub open spec fn spec_lex_error(s: Seq<char>, e: int) -> SpecCompilerError {
    SpecCompilerError::SyntaxError {
        expected: "a token"@,
        found: s.subrange(e, e + 1),
        position: spec_position(s, e, Some(e + 1)),
        line: spec_line_text(s, e),
    }
}

/// Whether two string slices hold the same characters.
pub fn str_eq(a: &str, b: &str) -> (r: bool)
    ensures
        r == (a@ == b@),
{
    let la = a.unicode_len();
    let lb = b.unicode_len();
    if la != lb {
        return false;
    }
    let mut k: usize = 0;
    while k < la
        invariant
            k <= la,
            la == a@.len() == lb == b@.len(),
            forall|j: int| 0 <= j < k ==> a@[j] == b@[j],
        decreases la - k,
    {
        if a.get_char(k) != b.get_char(k) {
            return false;
        }
        k = k + 1;
    }
    proof {
        assert(a@ =~= b@);
    }
    true
}

/// Whether `c` is an identifier character.
pub fn is_ident_char_exec(c: char) -> (r: bool)
    ensures
        r == is_ident_char(c),
{
    let u = c as u32;
    ('a' as u32 <= u && u <= 'z' as u32) || ('A' as u32 <= u && u <= 'Z' as u32) || ('0' as u32 <= u
        && u <= '9' as u32) || c == '_'
}

/// The token kind `c` denotes, if it is punctuation.
fn punct_kind(c: char) -> (r: Option<TokenKind>)
    ensures
        r == spec_punct_kind(c),
{
    if c == '{' {
        Some(TokenKind::LBrace)
    } else if c == '}' {
        Some(TokenKind::RBrace)
    } else if c == '(' {
        Some(TokenKind::LParen)
    } else if c == ')' {
        Some(TokenKind::RParen)
    } else if c == ',' {
        Some(TokenKind::Comma)
    } else if c == ';' {
        Some(TokenKind::Semi)
    } else if c == '=' {
        Some(TokenKind::Equals)
    } else {
        None
    }
}

/// The index just past the identifier run that starts at `i`.
fn ident_end_of(code: &str, i: usize) -> (j: usize)
    requires
        i <= code@.len(),
    ensures
        j as int == spec_ident_end(code@, i as int),
        i <= j <= code@.len(),
{
    let ghost s = code@;
    proof {
        lemma_ident_end_bounds(s, i as int);
    }
    let mut j: usize = i;
    let len = code.unicode_len();
    loop
        invariant
            s == code@,
            i as int <= j <= s.len() == len,
            spec_ident_end(s, j as int) == spec_ident_end(s, i as int),
        ensures
            spec_ident_end(s, i as int) == j as int,
            j <= s.len(),
        decreases len - j,
    {
        if j >= len {
            break ;
        }
        if !is_ident_char_exec(code.get_char(j)) {
            break ;
        }
        j = j + 1;
    }
    j
}

/// How lexing from the start relates to the tokens gathered so far and the
/// lexing of the rest: the gathered tokens are prepended to a success, and
/// an error stands.
pub open spec fn spec_lex_join(
    done: Seq<SpecToken>,
    rest: Result<Seq<SpecToken>, int>,
) -> Result<Seq<SpecToken>, int> {
    match rest {
        Ok(more) => Ok(done + more),
        Err(e) => Err(e),
    }
}

proof fn lemma_lex_join_push(ts: Seq<Token>, t: Token, rest: Result<Seq<SpecToken>, int>)
    ensures
        spec_lex_join(spec_token_views(ts), spec_cons_token(t@, rest)) == spec_lex_join(
            spec_token_views(ts.push(t)),
            rest,
        ),
{
    match rest {
        Ok(more) => {
            assert(spec_token_views(ts) + (seq![t@] + more) =~= spec_token_views(ts.push(t))
                + more);
        },
        Err(_) => {
        },
    }
}

/// Lex the whole source text. Returns the token sequence, or a syntax error
/// at the first character no token starts with.
pub fn lex(code: &str) -> (r: Result<Vec<Token>, CompilerError>)
    requires
        code@.len() < usize::MAX,
    ensures
        match spec_lex_from(code@, 0) {
            Ok(ts) => r is Ok && spec_token_views(r->Ok_0@) == ts,
            Err(e) => r is Err && r->Err_0@ == spec_lex_error(code@, e),
        },
{
    let ghost s = code@;
    let len = code.unicode_len();
    let mut toks: Vec<Token> = Vec::new();
    let mut i: usize = 0;
    loop
        invariant
            s == code@,
            s.len() < usize::MAX,
            i <= len == s.len(),
            spec_lex_from(s, 0) == spec_lex_join(spec_token_views(toks@), spec_lex_from(s, i as int)),
        ensures
            i == len,
            spec_lex_from(s, 0) == Ok::<Seq<SpecToken>, int>(spec_token_views(toks@)),
        decreases len - i,
    {
        if i >= len {
            proof {
                assert(spec_lex_from(s, i as int) == Ok::<Seq<SpecToken>, int>(
                    Seq::<SpecToken>::empty(),
                ));
                assert(spec_token_views(toks@) + Seq::<SpecToken>::empty() =~= spec_token_views(
                    toks@,
                ));
            }
            break ;
        }
        let ghost pre = spec_lex_from(s, i as int);
        let c = code.get_char(i);
        if c == ' ' || c == '\t' || c == '\r' || c == '\n' {
            proof {
                assert(pre == spec_lex_from(s, i + 1));
            }
            i = i + 1;
        } else if c == '/' {
            if i + 1 < len && code.get_char(i + 1) == '/' {
                if i + 2 < len && code.get_char(i + 2) == '/' {
                    let text_end = line_end_of(code, i + 3);
                    proof {
                        lemma_line_end_bounds(s, i + 3);
                    }
                    let tok_end = if text_end + 1 < len && code.get_char(text_end) == '\r'
                        && code.get_char(text_end + 1) == '\n' {
                        text_end + 2
                    } else if text_end < len {
                        text_end + 1
                    } else {
                        text_end
                    };
                    proof {
                        assert(tok_end as int == spec_newline_after(s, text_end as int));
                    }
                    let text = String::from_str(code.substring_char(i + 3, text_end));
                    let t = Token { kind: TokenKind::Description, text, start: i, end: tok_end };
                    proof {
                        assert(pre == spec_cons_token(t@, spec_lex_from(s, tok_end as int)));
                        lemma_lex_join_push(toks@, t, spec_lex_from(s, tok_end as int));
                    }
                    toks.push(t);
                    i = tok_end;
                } else {
                    let j = line_end_of(code, i + 2);
                    proof {
                        assert(pre == spec_lex_from(s, j as int));
                    }
                    i = j;
                }
            } else {
                proof {
                    assert(pre == Err::<Seq<SpecToken>, int>(i as int));
                }
                let found = String::from_str(code.substring_char(i, i + 1));
                let expected = String::from_str("a token");
                let position = position_of(code, i, Some(i + 1));
                let line = line_text_of(code, i);
                proof {
                    assert(found@ =~= s.subrange(i as int, i + 1));
                }
                return Err(CompilerError::SyntaxError { expected, found, position, line });
            }
        } else {
            let pk = punct_kind(c);
            if let Some(kind) = pk {
                let text = String::from_str(code.substring_char(i, i + 1));
                let t = Token { kind, text, start: i, end: i + 1 };
                proof {
                    assert(t@.text =~= seq![c]);
                    assert(pre == spec_cons_token(t@, spec_lex_from(s, i + 1)));
                    lemma_lex_join_push(toks@, t, spec_lex_from(s, i + 1));
                }
                toks.push(t);
                i = i + 1;
            } else if is_ident_char_exec(c) {
                let j = ident_end_of(code, i);
                proof {
                    lemma_ident_end_bounds(s, i + 1);
                    assert(spec_ident_end(s, i as int) == spec_ident_end(s, i + 1));
                    assert(j > i);
                }
                let text = String::from_str(code.substring_char(i, j));
                let t = Token { kind: TokenKind::Ident, text, start: i, end: j };
                proof {
                    assert(pre == spec_cons_token(t@, spec_lex_from(s, j as int)));
                    lemma_lex_join_push(toks@, t, spec_lex_from(s, j as int));
                }
                toks.push(t);
                i = j;
            } else {
                proof {
                    assert(pre == Err::<Seq<SpecToken>, int>(i as int));
                }
                let found = String::from_str(code.substring_char(i, i + 1));
                let expected = String::from_str("a token");
                let position = position_of(code, i, Some(i + 1));
                let line = line_text_of(code, i);
                proof {
                    assert(found@ =~= s.subrange(i as int, i + 1));
                }
                return Err(CompilerError::SyntaxError { expected, found, position, line });
            }
        }
    }
    Ok(toks)
}

} // verus!
