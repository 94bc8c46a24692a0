//! The grammar: turns the token sequence into typed top-level records
//! (description, tape literal, initial and final state declarations,
//! composition declarations, and instruction tuples), or fails with a
//! syntax error naming what was expected and what was found.

use vstd::prelude::*;

use crate::error::{
    lemma_line_end_bounds, spec_line_end, spec_line_text, spec_position, CompilerError,
    SpecCompilerError,
};
use crate::instruction::{spec_movement_of, Movement, SpecInstruction, TuringInstruction};
use crate::error::{line_text_of, position_of};
use crate::lexer::{
    is_ident_char, is_space_char, lemma_ident_end_bounds, lex, spec_cons_token, spec_ident_end,
    spec_lex_error, spec_lex_from, spec_newline_after, spec_punct_kind, spec_token_views, str_eq,
    SpecToken, Token, TokenKind,
};

verus! {

/// The mathematical value of a top-level record.
pub ghost enum SpecRecordKind {
    Description(Seq<char>),
    Tape(Seq<bool>),
    InitialState(Seq<char>),
    FinalStates(Seq<Seq<char>>),
    Compose(Seq<Seq<char>>),
    Instruction(SpecInstruction),
}

/// The mathematical value of a record together with the character indices
/// it spans in the source.
pub ghost struct SpecRecord {
    pub kind: SpecRecordKind,
    pub start: int,
    pub end: int,
}

/// One top-level record of a machine description.
#[derive(Debug, Clone, PartialEq)]
pub enum RecordKind {
    Description(String),
    Tape(Vec<bool>),
    InitialState(String),
    FinalStates(Vec<String>),
    Compose(Vec<String>),
    Instruction(TuringInstruction),
}

/// A top-level record with the character indices it spans in the source.
#[derive(Debug, Clone, PartialEq)]
pub struct Record {
    pub kind: RecordKind,
    pub start: usize,
    pub end: usize,
}

/// The views of a sequence of strings.
pub open spec fn spec_string_views(v: Seq<String>) -> Seq<Seq<char>> {
    Seq::new(v.len(), |k: int| v[k]@)
}

impl View for RecordKind {
    type V = SpecRecordKind;

    open spec fn view(&self) -> SpecRecordKind {
        match self {
            RecordKind::Description(t) => SpecRecordKind::Description(t@),
            RecordKind::Tape(bits) => SpecRecordKind::Tape(bits@),
            RecordKind::InitialState(st) => SpecRecordKind::InitialState(st@),
            RecordKind::FinalStates(sts) => SpecRecordKind::FinalStates(spec_string_views(sts@)),
            RecordKind::Compose(names) => SpecRecordKind::Compose(spec_string_views(names@)),
            RecordKind::Instruction(i) => SpecRecordKind::Instruction(i@),
        }
    }
}

impl View for Record {
    type V = SpecRecord;

    open spec fn view(&self) -> SpecRecord {
        SpecRecord { kind: self.kind@, start: self.start as int, end: self.end as int }
    }
}

/// The views of a sequence of records.
pub open spec fn spec_record_views(rs: Seq<Record>) -> Seq<SpecRecord> {
    Seq::new(rs.len(), |k: int| rs[k]@)
}

/// A not-yet-positioned syntax error: what was expected, and the index of
/// the token (or, at the token count, the end of file) where it was missed.
pub ghost struct SpecParseErr {
    pub expected: Seq<char>,
    pub at: int,
}

/// The index of the first non-whitespace character of `t` at or after `i`.
pub open spec fn spec_trim_start(t: Seq<char>, i: int) -> int
    decreases t.len() - i,
{
    if 0 <= i < t.len() && is_space_char(t[i]) {
        spec_trim_start(t, i + 1)
    } else {
        i
    }
}

/// The index just past the last non-whitespace character of `t` before `j`.
pub open spec fn spec_trim_end(t: Seq<char>, j: int) -> int
    decreases j,
{
    if 0 < j <= t.len() && is_space_char(t[j - 1]) {
        spec_trim_end(t, j - 1)
    } else {
        j
    }
}

/// `t` without leading and trailing whitespace.
pub open spec fn spec_trim(t: Seq<char>) -> Seq<char> {
    let a = spec_trim_start(t, 0);
    let b = spec_trim_end(t, t.len() as int);
    if a <= b {
        t.subrange(a, b)
    } else {
        Seq::empty()
    }
}

pub proof fn lemma_trim_start_bounds(t: Seq<char>, i: int)
    requires
        0 <= i <= t.len(),
    ensures
        i <= spec_trim_start(t, i) <= t.len(),
    decreases t.len() - i,
{
    if i < t.len() && is_space_char(t[i]) {
        lemma_trim_start_bounds(t, i + 1);
    }
}

pub proof fn lemma_trim_end_bounds(t: Seq<char>, j: int)
    requires
        0 <= j <= t.len(),
    ensures
        0 <= spec_trim_end(t, j) <= j,
    decreases j,
{
    if 0 < j && is_space_char(t[j - 1]) {
        lemma_trim_end_bounds(t, j - 1);
    }
}

/// The tape symbol a token text denotes, if any.
pub open spec fn spec_bit_of(t: Seq<char>) -> Option<bool> {
    if t.len() == 1 && t[0] == '1' {
        Some(true)
    } else if t.len() == 1 && t[0] == '0' {
        Some(false)
    } else {
        None
    }
}

/// Whether every character of `t` is a tape symbol.
pub open spec fn spec_all_bits(t: Seq<char>) -> bool {
    forall|k: int| 0 <= k < t.len() ==> t[k] == '0' || t[k] == '1'
}

/// The tape symbols a run of `0`/`1` characters denotes.
pub open spec fn spec_text_bits(t: Seq<char>) -> Seq<bool> {
    Seq::new(t.len(), |k: int| t[k] == '1')
}

/// The tape symbols of consecutive symbol-run tokens from `p` on, and the
/// index of the first token after them. A non-symbol identifier is an
/// error; anything but an identifier stops the run.
pub open spec fn spec_parse_tape_items(ts: Seq<SpecToken>, p: int) -> Result<
    (Seq<bool>, int),
    SpecParseErr,
>
    decreases ts.len() - p,
{
    if p < 0 || p >= ts.len() || ts[p].kind != TokenKind::Ident {
        Ok((Seq::empty(), p))
    } else if spec_all_bits(ts[p].text) {
        match spec_parse_tape_items(ts, p + 1) {
            Ok((bits, q)) => Ok((spec_text_bits(ts[p].text) + bits, q)),
            Err(e) => Err(e),
        }
    } else {
        Err(SpecParseErr { expected: "a tape symbol `0` or `1`"@, at: p })
    }
}

pub proof fn lemma_tape_items_bounds(ts: Seq<SpecToken>, p: int)
    requires
        0 <= p <= ts.len(),
        spec_parse_tape_items(ts, p) is Ok,
    ensures
        p <= spec_parse_tape_items(ts, p)->Ok_0.1 <= ts.len(),
    decreases ts.len() - p,
{
    if !(p >= ts.len() || ts[p].kind != TokenKind::Ident) && spec_all_bits(ts[p].text) {
        lemma_tape_items_bounds(ts, p + 1);
    }
}

/// A comma-separated list of names from `p` on, and the index of the first
/// token after it. `what` names the kind of name an error reports.
pub open spec fn spec_parse_name_list(ts: Seq<SpecToken>, p: int, what: Seq<char>) -> Result<
    (Seq<Seq<char>>, int),
    SpecParseErr,
>
    decreases ts.len() - p,
{
    if p < 0 || p >= ts.len() || ts[p].kind != TokenKind::Ident {
        Err(SpecParseErr { expected: what, at: if p < 0 { 0 } else { p } })
    } else if p + 1 < ts.len() && ts[p + 1].kind == TokenKind::Comma {
        match spec_parse_name_list(ts, p + 2, what) {
            Ok((names, q)) => Ok((seq![ts[p].text] + names, q)),
            Err(e) => Err(e),
        }
    } else {
        Ok((seq![ts[p].text], p + 1))
    }
}

pub proof fn lemma_name_list_bounds(ts: Seq<SpecToken>, p: int, what: Seq<char>)
    requires
        0 <= p <= ts.len(),
        spec_parse_name_list(ts, p, what) is Ok,
    ensures
        p < spec_parse_name_list(ts, p, what)->Ok_0.1 <= ts.len(),
    decreases ts.len() - p,
{
    if p < ts.len() && ts[p].kind == TokenKind::Ident && p + 1 < ts.len() && ts[p + 1].kind
        == TokenKind::Comma {
        lemma_name_list_bounds(ts, p + 2, what);
    }
}

/// Whether the token at `p` exists and has kind `k`.
pub open spec fn spec_at(ts: Seq<SpecToken>, p: int, k: TokenKind) -> bool {
    0 <= p < ts.len() && ts[p].kind == k
}

/// The tape record that starts at the `{` at `p`, and the index of the
/// first token after it.
pub open spec fn spec_parse_tape(ts: Seq<SpecToken>, p: int) -> Result<
    (SpecRecord, int),
    SpecParseErr,
> {
    match spec_parse_tape_items(ts, p + 1) {
        Ok((bits, q)) => {
            if !spec_at(ts, q, TokenKind::RBrace) {
                Err(SpecParseErr { expected: "a tape symbol `0` or `1`, or `}`"@, at: q })
            } else if !spec_at(ts, q + 1, TokenKind::Semi) {
                Err(SpecParseErr { expected: "`;`"@, at: q + 1 })
            } else {
                Ok(
                    (
                        SpecRecord {
                            kind: SpecRecordKind::Tape(bits),
                            start: ts[p].start,
                            end: ts[q + 1].end,
                        },
                        q + 2,
                    ),
                )
            }
        },
        Err(e) => Err(e),
    }
}

/// The initial-state record `I = { state };` that starts at `p`, and the
/// index of the first token after it.
pub open spec fn spec_parse_initial(ts: Seq<SpecToken>, p: int) -> Result<
    (SpecRecord, int),
    SpecParseErr,
> {
    if !spec_at(ts, p + 1, TokenKind::Equals) {
        Err(SpecParseErr { expected: "`=`"@, at: p + 1 })
    } else if !spec_at(ts, p + 2, TokenKind::LBrace) {
        Err(SpecParseErr { expected: "`{`"@, at: p + 2 })
    } else if !spec_at(ts, p + 3, TokenKind::Ident) {
        Err(SpecParseErr { expected: "a state name"@, at: p + 3 })
    } else if !spec_at(ts, p + 4, TokenKind::RBrace) {
        Err(SpecParseErr { expected: "`}`"@, at: p + 4 })
    } else if !spec_at(ts, p + 5, TokenKind::Semi) {
        Err(SpecParseErr { expected: "`;`"@, at: p + 5 })
    } else {
        Ok(
            (
                SpecRecord {
                    kind: SpecRecordKind::InitialState(ts[p + 3].text),
                    start: ts[p].start,
                    end: ts[p + 5].end,
                },
                p + 6,
            ),
        )
    }
}

/// A record of the shape `NAME = { name, ... };` that starts at `p`: the
/// final-state declaration or a composition declaration.
pub open spec fn spec_parse_name_group(ts: Seq<SpecToken>, p: int, what: Seq<char>) -> Result<
    (Seq<Seq<char>>, int, int),
    SpecParseErr,
> {
    if !spec_at(ts, p + 1, TokenKind::Equals) {
        Err(SpecParseErr { expected: "`=`"@, at: p + 1 })
    } else if !spec_at(ts, p + 2, TokenKind::LBrace) {
        Err(SpecParseErr { expected: "`{`"@, at: p + 2 })
    } else {
        match spec_parse_name_list(ts, p + 3, what) {
            Ok((names, q)) => {
                if !spec_at(ts, q, TokenKind::RBrace) {
                    Err(SpecParseErr { expected: "`,` or `}`"@, at: q })
                } else if !spec_at(ts, q + 1, TokenKind::Semi) {
                    Err(SpecParseErr { expected: "`;`"@, at: q + 1 })
                } else {
                    Ok((names, ts[q + 1].end, q + 2))
                }
            },
            Err(e) => Err(e),
        }
    }
}

/// The instruction record `(state, symbol, symbol, movement, state);` that
/// starts at the `(` at `p`, and the index of the first token after it.
pub open spec fn spec_parse_instruction(ts: Seq<SpecToken>, p: int) -> Result<
    (SpecRecord, int),
    SpecParseErr,
> {
    if !spec_at(ts, p + 1, TokenKind::Ident) {
        Err(SpecParseErr { expected: "a state name"@, at: p + 1 })
    } else if !spec_at(ts, p + 2, TokenKind::Comma) {
        Err(SpecParseErr { expected: "`,`"@, at: p + 2 })
    } else if !spec_at(ts, p + 3, TokenKind::Ident) || spec_bit_of(ts[p + 3].text) is None {
        Err(SpecParseErr { expected: "`0` or `1`"@, at: p + 3 })
    } else if !spec_at(ts, p + 4, TokenKind::Comma) {
        Err(SpecParseErr { expected: "`,`"@, at: p + 4 })
    } else if !spec_at(ts, p + 5, TokenKind::Ident) || spec_bit_of(ts[p + 5].text) is None {
        Err(SpecParseErr { expected: "`0` or `1`"@, at: p + 5 })
    } else if !spec_at(ts, p + 6, TokenKind::Comma) {
        Err(SpecParseErr { expected: "`,`"@, at: p + 6 })
    } else if !spec_at(ts, p + 7, TokenKind::Ident) {
        Err(SpecParseErr { expected: "a movement letter"@, at: p + 7 })
    } else if !spec_at(ts, p + 8, TokenKind::Comma) {
        Err(SpecParseErr { expected: "`,`"@, at: p + 8 })
    } else if !spec_at(ts, p + 9, TokenKind::Ident) {
        Err(SpecParseErr { expected: "a state name"@, at: p + 9 })
    } else if !spec_at(ts, p + 10, TokenKind::RParen) {
        Err(SpecParseErr { expected: "`)`"@, at: p + 10 })
    } else if !spec_at(ts, p + 11, TokenKind::Semi) {
        Err(SpecParseErr { expected: "`;`"@, at: p + 11 })
    } else {
        Ok(
            (
                SpecRecord {
                    kind: SpecRecordKind::Instruction(
                        SpecInstruction {
                            from_state: ts[p + 1].text,
                            from_value: spec_bit_of(ts[p + 3].text)->Some_0,
                            to_value: spec_bit_of(ts[p + 5].text)->Some_0,
                            movement: spec_movement_of(ts[p + 7].text),
                            to_state: ts[p + 9].text,
                        },
                    ),
                    start: ts[p].start,
                    end: ts[p + 11].end,
                },
                p + 12,
            ),
        )
    }
}

/// Prepend a record to the result of parsing the rest, keeping an error.
pub open spec fn spec_cons_record(
    r: SpecRecord,
    rest: Result<Seq<SpecRecord>, SpecParseErr>,
) -> Result<Seq<SpecRecord>, SpecParseErr> {
    match rest {
        Ok(rs) => Ok(seq![r] + rs),
        Err(e) => Err(e),
    }
}

/// The records of the token sequence from `p` on. An unrecognized
/// top-level token is an error, never silently skipped.
pub open spec fn spec_parse_records(ts: Seq<SpecToken>, p: int) -> Result<
    Seq<SpecRecord>,
    SpecParseErr,
>
    decreases ts.len() - p,
    via spec_parse_records_decreases
{
    if p < 0 || p >= ts.len() {
        Ok(Seq::empty())
    } else {
        let t = ts[p];
        if t.kind == TokenKind::Description {
            spec_cons_record(
                SpecRecord {
                    kind: SpecRecordKind::Description(spec_trim(t.text)),
                    start: t.start,
                    end: t.end,
                },
                spec_parse_records(ts, p + 1),
            )
        } else if t.kind == TokenKind::LBrace {
            match spec_parse_tape(ts, p) {
                Ok((r, q)) => spec_cons_record(r, spec_parse_records(ts, q)),
                Err(e) => Err(e),
            }
        } else if t.kind == TokenKind::LParen {
            match spec_parse_instruction(ts, p) {
                Ok((r, q)) => spec_cons_record(r, spec_parse_records(ts, q)),
                Err(e) => Err(e),
            }
        } else if t.kind == TokenKind::Ident && t.text == "I"@ {
            match spec_parse_initial(ts, p) {
                Ok((r, q)) => spec_cons_record(r, spec_parse_records(ts, q)),
                Err(e) => Err(e),
            }
        } else if t.kind == TokenKind::Ident && t.text == "F"@ {
            match spec_parse_name_group(ts, p, "a state name"@) {
                Ok((names, end, q)) => spec_cons_record(
                    SpecRecord {
                        kind: SpecRecordKind::FinalStates(names),
                        start: t.start,
                        end: end,
                    },
                    spec_parse_records(ts, q),
                ),
                Err(e) => Err(e),
            }
        } else if t.kind == TokenKind::Ident && t.text == "compose"@ {
            match spec_parse_name_group(ts, p, "a library name"@) {
                Ok((names, end, q)) => spec_cons_record(
                    SpecRecord { kind: SpecRecordKind::Compose(names), start: t.start, end: end },
                    spec_parse_records(ts, q),
                ),
                Err(e) => Err(e),
            }
        } else {
            Err(SpecParseErr { expected: "a record"@, at: p })
        }
    }
}

#[via_fn]
proof fn spec_parse_records_decreases(ts: Seq<SpecToken>, p: int) {
    if 0 <= p < ts.len() {
        let t = ts[p];
        if t.kind == TokenKind::LBrace {
            if spec_parse_tape_items(ts, p + 1) is Ok {
                lemma_tape_items_bounds(ts, p + 1);
            }
        } else if t.kind == TokenKind::Ident && (t.text == "F"@ || t.text == "compose"@) {
            let what = if t.text == "F"@ {
                "a state name"@
            } else {
                "a library name"@
            };
            if 0 <= p + 3 <= ts.len() && spec_parse_name_list(ts, p + 3, what) is Ok {
                lemma_name_list_bounds(ts, p + 3, what);
            }
        }
    }
}

/// The syntax error a failed parse reports, placed at the token (or the end
/// of the file) where something was missed.
pub open spec fn spec_parse_error(
    s: Seq<char>,
    ts: Seq<SpecToken>,
    pe: SpecParseErr,
) -> SpecCompilerError {
    if 0 <= pe.at < ts.len() {
        SpecCompilerError::SyntaxError {
            expected: pe.expected,
            found: ts[pe.at].text,
            position: spec_position(s, ts[pe.at].start, Some(ts[pe.at].end)),
            line: spec_line_text(s, ts[pe.at].start),
        }
    } else {
        SpecCompilerError::SyntaxError {
            expected: pe.expected,
            found: "end of file"@,
            position: spec_position(s, s.len() as int, None),
            line: spec_line_text(s, s.len() as int),
        }
    }
}

/// What parsing the whole source yields: the records, or the first error,
/// already positioned.
pub open spec fn spec_parse(s: Seq<char>) -> Result<Seq<SpecRecord>, SpecCompilerError> {
    match spec_lex_from(s, 0) {
        Err(e) => Err(spec_lex_error(s, e)),
        Ok(ts) => match spec_parse_records(ts, 0) {
            Ok(rs) => Ok(rs),
            Err(pe) => Err(spec_parse_error(s, ts, pe)),
        },
    }
}

/// Whether every token's span lies inside a source of `n` characters.
pub open spec fn spec_tokens_wf(ts: Seq<SpecToken>, n: int) -> bool {
    forall|k: int| 0 <= k < ts.len() ==> 0 <= #[trigger] ts[k].start <= ts[k].end <= n
}

proof fn lemma_cons_wf(t: SpecToken, rest: Result<Seq<SpecToken>, int>, n: int)
    requires
        0 <= t.start <= t.end <= n,
        rest is Ok ==> spec_tokens_wf(rest->Ok_0, n),
    ensures
        spec_cons_token(t, rest) is Ok ==> spec_tokens_wf(spec_cons_token(t, rest)->Ok_0, n),
{
    match rest {
        Ok(ts) => {
            let all = seq![t] + ts;
            assert forall|k: int| 0 <= k < all.len() implies 0 <= #[trigger] all[k].start
                <= all[k].end <= n by {
                if k > 0 {
                    assert(0 <= ts[k - 1].start <= ts[k - 1].end <= n);
                }
            }
        },
        Err(_) => {
        },
    }
}

/// Every token a successful lexing yields spans source indices within the
/// source's length.
pub proof fn lemma_lex_tokens_wf(s: Seq<char>, i: int)
    requires
        0 <= i <= s.len(),
    ensures
        spec_lex_from(s, i) is Ok ==> spec_tokens_wf(spec_lex_from(s, i)->Ok_0, s.len() as int),
    decreases s.len() - i,
{
    if 0 <= i < s.len() {
        let c = s[i];
        if is_space_char(c) {
            lemma_lex_tokens_wf(s, i + 1);
        } else if c == '/' {
            if i + 1 < s.len() && s[i + 1] == '/' {
                if i + 2 < s.len() && s[i + 2] == '/' {
                    lemma_line_end_bounds(s, i + 3);
                    let text_end = spec_line_end(s, i + 3);
                    let tok_end = spec_newline_after(s, text_end);
                    lemma_lex_tokens_wf(s, tok_end);
                    let t = SpecToken {
                        kind: TokenKind::Description,
                        text: s.subrange(i + 3, text_end),
                        start: i,
                        end: tok_end,
                    };
                    lemma_cons_wf(t, spec_lex_from(s, tok_end), s.len() as int);
                } else {
                    lemma_line_end_bounds(s, i + 2);
                    lemma_lex_tokens_wf(s, spec_line_end(s, i + 2));
                }
            }
        } else if spec_punct_kind(c) is Some {
            lemma_lex_tokens_wf(s, i + 1);
            let t = SpecToken {
                kind: spec_punct_kind(c)->Some_0,
                text: seq![c],
                start: i,
                end: i + 1,
            };
            lemma_cons_wf(t, spec_lex_from(s, i + 1), s.len() as int);
        } else if is_ident_char(c) {
            lemma_ident_end_bounds(s, i + 1);
            let j = spec_ident_end(s, i);
            assert(j == spec_ident_end(s, i + 1));
            lemma_lex_tokens_wf(s, j);
            let t = SpecToken { kind: TokenKind::Ident, text: s.subrange(i, j), start: i, end: j };
            lemma_cons_wf(t, spec_lex_from(s, j), s.len() as int);
        }
    }
}

/// Whether every record's span lies inside a source of `n` characters.
pub open spec fn spec_records_wf(rs: Seq<SpecRecord>, n: int) -> bool {
    forall|k: int| 0 <= k < rs.len() ==> 0 <= #[trigger] rs[k].start <= n && 0 <= rs[k].end <= n
}

proof fn lemma_cons_record_wf(r: SpecRecord, rest: Result<Seq<SpecRecord>, SpecParseErr>, n: int)
    requires
        0 <= r.start <= n,
        0 <= r.end <= n,
        rest is Ok ==> spec_records_wf(rest->Ok_0, n),
    ensures
        spec_cons_record(r, rest) is Ok ==> spec_records_wf(spec_cons_record(r, rest)->Ok_0, n),
{
    match rest {
        Ok(rs) => {
            let all = seq![r] + rs;
            assert forall|k: int| 0 <= k < all.len() implies 0 <= #[trigger] all[k].start <= n && 0
                <= all[k].end <= n by {
                if k > 0 {
                    assert(0 <= rs[k - 1].start <= n && 0 <= rs[k - 1].end <= n);
                }
            }
        },
        Err(_) => {
        },
    }
}

/// Every record a successful parse yields spans source indices within the
/// source's length.
pub proof fn lemma_parse_records_wf(ts: Seq<SpecToken>, p: int, n: int)
    requires
        spec_tokens_wf(ts, n),
        0 <= p,
    ensures
        spec_parse_records(ts, p) is Ok ==> spec_records_wf(spec_parse_records(ts, p)->Ok_0, n),
    decreases ts.len() - p,
{
    if 0 <= p < ts.len() {
        let t = ts[p];
        assert(0 <= t.start <= t.end <= n);
        if t.kind == TokenKind::Description {
            lemma_parse_records_wf(ts, p + 1, n);
            let r = SpecRecord {
                kind: SpecRecordKind::Description(spec_trim(t.text)),
                start: t.start,
                end: t.end,
            };
            lemma_cons_record_wf(r, spec_parse_records(ts, p + 1), n);
        } else if t.kind == TokenKind::LBrace {
            match spec_parse_tape(ts, p) {
                Ok((r, q)) => {
                    lemma_tape_items_bounds(ts, p + 1);
                    let q0 = spec_parse_tape_items(ts, p + 1)->Ok_0.1;
                    assert(0 <= ts[q0 + 1].start <= ts[q0 + 1].end <= n);
                    lemma_parse_records_wf(ts, q, n);
                    lemma_cons_record_wf(r, spec_parse_records(ts, q), n);
                },
                Err(_) => {
                },
            }
        } else if t.kind == TokenKind::LParen {
            match spec_parse_instruction(ts, p) {
                Ok((r, q)) => {
                    assert(spec_at(ts, p + 11, TokenKind::Semi));
                    let j = p + 11;
                    assert(0 <= j < ts.len());
                    assert(0 <= ts[j].start <= ts[j].end <= n);
                    lemma_parse_records_wf(ts, q, n);
                    lemma_cons_record_wf(r, spec_parse_records(ts, q), n);
                },
                Err(_) => {
                },
            }
        } else if t.kind == TokenKind::Ident && t.text == "I"@ {
            match spec_parse_initial(ts, p) {
                Ok((r, q)) => {
                    assert(0 <= ts[p + 5].start <= ts[p + 5].end <= n);
                    lemma_parse_records_wf(ts, q, n);
                    lemma_cons_record_wf(r, spec_parse_records(ts, q), n);
                },
                Err(_) => {
                },
            }
        } else if t.kind == TokenKind::Ident && t.text == "F"@ {
            match spec_parse_name_group(ts, p, "a state name"@) {
                Ok((names, end, q)) => {
                    lemma_name_list_bounds(ts, p + 3, "a state name"@);
                    let q0 = spec_parse_name_list(ts, p + 3, "a state name"@)->Ok_0.1;
                    assert(0 <= ts[q0 + 1].start <= ts[q0 + 1].end <= n);
                    let r = SpecRecord {
                        kind: SpecRecordKind::FinalStates(names),
                        start: t.start,
                        end: end,
                    };
                    lemma_parse_records_wf(ts, q, n);
                    lemma_cons_record_wf(r, spec_parse_records(ts, q), n);
                },
                Err(_) => {
                },
            }
        } else if t.kind == TokenKind::Ident && t.text == "compose"@ {
            match spec_parse_name_group(ts, p, "a library name"@) {
                Ok((names, end, q)) => {
                    lemma_name_list_bounds(ts, p + 3, "a library name"@);
                    let q0 = spec_parse_name_list(ts, p + 3, "a library name"@)->Ok_0.1;
                    assert(0 <= ts[q0 + 1].start <= ts[q0 + 1].end <= n);
                    let r = SpecRecord {
                        kind: SpecRecordKind::Compose(names),
                        start: t.start,
                        end: end,
                    };
                    lemma_parse_records_wf(ts, q, n);
                    lemma_cons_record_wf(r, spec_parse_records(ts, q), n);
                },
                Err(_) => {
                },
            }
        }
    }
}

/// The grammar's entry point.
pub struct TuringParser;

/// Trim leading and trailing whitespace.
fn trim_str(t: &str) -> (r: String)
    ensures
        r@ == spec_trim(t@),
{
    let ghost s = t@;
    let n = t.unicode_len();
    proof {
        lemma_trim_start_bounds(s, 0);
        lemma_trim_end_bounds(s, n as int);
    }
    let mut a: usize = 0;
    loop
        invariant
            s == t@,
            a <= n == s.len(),
            spec_trim_start(s, 0) == spec_trim_start(s, a as int),
        ensures
            a as int == spec_trim_start(s, 0),
            a <= n,
        decreases n - a,
    {
        if a >= n {
            break ;
        }
        let c = t.get_char(a);
        if !(c == ' ' || c == '\t' || c == '\r' || c == '\n') {
            break ;
        }
        a = a + 1;
    }
    let mut b: usize = n;
    loop
        invariant
            s == t@,
            b <= n == s.len(),
            spec_trim_end(s, n as int) == spec_trim_end(s, b as int),
        ensures
            b as int == spec_trim_end(s, n as int),
            b <= n,
        decreases b,
    {
        if b == 0 {
            break ;
        }
        let c = t.get_char(b - 1);
        if !(c == ' ' || c == '\t' || c == '\r' || c == '\n') {
            break ;
        }
        b = b - 1;
    }
    if a <= b {
        String::from_str(t.substring_char(a, b))
    } else {
        proof {
            assert(spec_trim(s) =~= Seq::<char>::empty());
        }
        String::new()
    }
}

/// Whether every character of `s` is `0` or `1`.
fn is_bits(s: &str) -> (r: bool)
    ensures
        r == spec_all_bits(s@),
{
    let n = s.unicode_len();
    let mut k: usize = 0;
    while k < n
        invariant
            k <= n == s@.len(),
            forall|j: int| 0 <= j < k ==> s@[j] == '0' || s@[j] == '1',
        decreases n - k,
    {
        let c = s.get_char(k);
        if c != '0' && c != '1' {
            return false;
        }
        k = k + 1;
    }
    true
}

/// Append the tape symbols a run of `0`/`1` characters denotes.
fn push_bits(bits: &mut Vec<bool>, s: &str)
    ensures
        final(bits)@ == old(bits)@ + spec_text_bits(s@),
{
    let n = s.unicode_len();
    let mut k: usize = 0;
    while k < n
        invariant
            k <= n == s@.len(),
            bits@ == old(bits)@ + spec_text_bits(s@).subrange(0, k as int),
        decreases n - k,
    {
        let c = s.get_char(k);
        bits.push(c == '1');
        proof {
            assert(spec_text_bits(s@).subrange(0, k + 1) =~= spec_text_bits(s@).subrange(
                0,
                k as int,
            ).push(s@[k as int] == '1'));
        }
        k = k + 1;
    }
    proof {
        assert(spec_text_bits(s@).subrange(0, n as int) =~= spec_text_bits(s@));
    }
}

/// The tape symbol the text denotes, if any.
fn bit_of(s: &str) -> (r: Option<bool>)
    ensures
        r == spec_bit_of(s@),
{
    if s.unicode_len() == 1 {
        let c = s.get_char(0);
        if c == '1' {
            Some(true)
        } else if c == '0' {
            Some(false)
        } else {
            None
        }
    } else {
        None
    }
}

/// Build the syntax error that reports `expected` at token `at` (or, at the
/// token count, at the end of the file).
fn syntax_error(code: &str, tokens: &Vec<Token>, at: usize, expected: &str) -> (e: CompilerError)
    requires
        code@.len() < usize::MAX,
        at <= tokens@.len(),
        spec_tokens_wf(spec_token_views(tokens@), code@.len() as int),
    ensures
        e@ == spec_parse_error(
            code@,
            spec_token_views(tokens@),
            SpecParseErr { expected: expected@, at: at as int },
        ),
{
    let ghost tsv = spec_token_views(tokens@);
    let exp = String::from_str(expected);
    if at < tokens.len() {
        proof {
            assert(0 <= tsv[at as int].start <= tsv[at as int].end <= code@.len());
        }
        let t = &tokens[at];
        let position = position_of(code, t.start, Some(t.end));
        let line = line_text_of(code, t.start);
        CompilerError::SyntaxError { expected: exp, found: t.text.clone(), position, line }
    } else {
        let len = code.unicode_len();
        let position = position_of(code, len, None);
        let line = line_text_of(code, len);
        let found = String::from_str("end of file");
        CompilerError::SyntaxError { expected: exp, found, position, line }
    }
}

/// Parse the tape record that starts at the `{` at `p`.
fn parse_tape(code: &str, tokens: &Vec<Token>, p: usize) -> (r: Result<
    (Record, usize),
    CompilerError,
>)
    requires
        code@.len() < usize::MAX,
        spec_tokens_wf(spec_token_views(tokens@), code@.len() as int),
        p < tokens@.len(),
    ensures
        ({
            let tsv = spec_token_views(tokens@);
            match spec_parse_tape(tsv, p as int) {
                Ok(rq) => r is Ok && r->Ok_0.0@ == rq.0 && r->Ok_0.1 as int == rq.1 && p < rq.1
                    <= tsv.len(),
                Err(pe) => r is Err && r->Err_0@ == spec_parse_error(code@, tsv, pe),
            }
        }),
{
    let ghost tsv = spec_token_views(tokens@);
    let n = tokens.len();
    let mut bits: Vec<bool> = Vec::new();
    let mut q: usize = p + 1;
    loop
        invariant
            tsv == spec_token_views(tokens@),
            code@.len() < usize::MAX,
            spec_tokens_wf(tsv, code@.len() as int),
            p + 1 <= q <= n == tokens@.len(),
            p < n,
            spec_parse_tape_items(tsv, p + 1) == (match spec_parse_tape_items(tsv, q as int) {
                Ok(mq) => Ok::<(Seq<bool>, int), SpecParseErr>((bits@ + mq.0, mq.1)),
                Err(e) => Err::<(Seq<bool>, int), SpecParseErr>(e),
            }),
        ensures
            p + 1 <= q <= n,
            spec_parse_tape_items(tsv, p + 1) == Ok::<(Seq<bool>, int), SpecParseErr>(
                (bits@, q as int),
            ),
        decreases n - q,
    {
        if q >= n {
            proof {
                assert(bits@ + Seq::<bool>::empty() =~= bits@);
            }
            break ;
        }
        if tokens[q].kind != TokenKind::Ident {
            proof {
                assert(bits@ + Seq::<bool>::empty() =~= bits@);
            }
            break ;
        }
        if !is_bits(tokens[q].text.as_str()) {
            return Err(syntax_error(code, tokens, q, "a tape symbol `0` or `1`"));
        }
        let ghost bits_pre = bits@;
        push_bits(&mut bits, tokens[q].text.as_str());
        proof {
            let txt = tsv[q as int].text;
            match spec_parse_tape_items(tsv, q + 1) {
                Ok((more, qq)) => {
                    assert(spec_parse_tape_items(tsv, q as int) == Ok::<
                        (Seq<bool>, int),
                        SpecParseErr,
                    >((spec_text_bits(txt) + more, qq)));
                    assert(bits_pre + (spec_text_bits(txt) + more) =~= (bits_pre + spec_text_bits(
                        txt,
                    )) + more);
                },
                Err(_) => {
                },
            }
        }
        q = q + 1;
    }
    if q >= n || tokens[q].kind != TokenKind::RBrace {
        return Err(syntax_error(code, tokens, q, "a tape symbol `0` or `1`, or `}`"));
    }
    if q + 1 >= n || tokens[q + 1].kind != TokenKind::Semi {
        return Err(syntax_error(code, tokens, q + 1, "`;`"));
    }
    let rec = Record {
        kind: RecordKind::Tape(bits),
        start: tokens[p].start,
        end: tokens[q + 1].end,
    };
    Ok((rec, q + 2))
}

/// Parse the initial-state record `I = { state };` that starts at `p`.
fn parse_initial(code: &str, tokens: &Vec<Token>, p: usize) -> (r: Result<
    (Record, usize),
    CompilerError,
>)
    requires
        code@.len() < usize::MAX,
        spec_tokens_wf(spec_token_views(tokens@), code@.len() as int),
        p < tokens@.len(),
    ensures
        ({
            let tsv = spec_token_views(tokens@);
            match spec_parse_initial(tsv, p as int) {
                Ok(rq) => r is Ok && r->Ok_0.0@ == rq.0 && r->Ok_0.1 as int == rq.1 && p < rq.1
                    <= tsv.len(),
                Err(pe) => r is Err && r->Err_0@ == spec_parse_error(code@, tsv, pe),
            }
        }),
{
    let n = tokens.len();
    if p + 1 >= n || tokens[p + 1].kind != TokenKind::Equals {
        return Err(syntax_error(code, tokens, p + 1, "`=`"));
    }
    if p + 2 >= n || tokens[p + 2].kind != TokenKind::LBrace {
        return Err(syntax_error(code, tokens, p + 2, "`{`"));
    }
    if p + 3 >= n || tokens[p + 3].kind != TokenKind::Ident {
        return Err(syntax_error(code, tokens, p + 3, "a state name"));
    }
    if p + 4 >= n || tokens[p + 4].kind != TokenKind::RBrace {
        return Err(syntax_error(code, tokens, p + 4, "`}`"));
    }
    if p + 5 >= n || tokens[p + 5].kind != TokenKind::Semi {
        return Err(syntax_error(code, tokens, p + 5, "`;`"));
    }
    let rec = Record {
        kind: RecordKind::InitialState(tokens[p + 3].text.clone()),
        start: tokens[p].start,
        end: tokens[p + 5].end,
    };
    Ok((rec, p + 6))
}

/// Parse a record of the shape `NAME = { name, ... };` from the name token
/// at `p`: the names, the record's end index in the source, and the index
/// of the first token after it.
fn parse_name_group(code: &str, tokens: &Vec<Token>, p: usize, what: &str) -> (r: Result<
    (Vec<String>, usize, usize),
    CompilerError,
>)
    requires
        code@.len() < usize::MAX,
        spec_tokens_wf(spec_token_views(tokens@), code@.len() as int),
        p < tokens@.len(),
    ensures
        ({
            let tsv = spec_token_views(tokens@);
            match spec_parse_name_group(tsv, p as int, what@) {
                Ok(nq) => r is Ok && spec_string_views(r->Ok_0.0@) == nq.0 && r->Ok_0.1 as int
                    == nq.1 && r->Ok_0.2 as int == nq.2 && p < nq.2 <= tsv.len(),
                Err(pe) => r is Err && r->Err_0@ == spec_parse_error(code@, tsv, pe),
            }
        }),
{
    let ghost tsv = spec_token_views(tokens@);
    let n = tokens.len();
    if p + 1 >= n || tokens[p + 1].kind != TokenKind::Equals {
        return Err(syntax_error(code, tokens, p + 1, "`=`"));
    }
    if p + 2 >= n || tokens[p + 2].kind != TokenKind::LBrace {
        return Err(syntax_error(code, tokens, p + 2, "`{`"));
    }
    let mut names: Vec<String> = Vec::new();
    let mut q: usize = p + 3;
    loop
        invariant_except_break
            spec_parse_name_list(tsv, p + 3, what@) == (match spec_parse_name_list(
                tsv,
                q as int,
                what@,
            ) {
                Ok(mq) => Ok::<(Seq<Seq<char>>, int), SpecParseErr>(
                    (spec_string_views(names@) + mq.0, mq.1),
                ),
                Err(e) => Err::<(Seq<Seq<char>>, int), SpecParseErr>(e),
            }),
        invariant
            tsv == spec_token_views(tokens@),
            code@.len() < usize::MAX,
            spec_tokens_wf(tsv, code@.len() as int),
            p < n,
            p + 3 <= q <= n == tokens@.len(),
            spec_at(tsv, p + 1, TokenKind::Equals),
            spec_at(tsv, p + 2, TokenKind::LBrace),
        ensures
            spec_parse_name_list(tsv, p + 3, what@) == Ok::<(Seq<Seq<char>>, int), SpecParseErr>(
                (spec_string_views(names@), q as int),
            ),
            q <= n,
        decreases n - q,
    {
        if q >= n || tokens[q].kind != TokenKind::Ident {
            proof {
                assert(spec_parse_name_list(tsv, q as int, what@) == Err::<
                    (Seq<Seq<char>>, int),
                    SpecParseErr,
                >(SpecParseErr { expected: what@, at: q as int }));
            }
            return Err(syntax_error(code, tokens, q, what));
        }
        let name = tokens[q].text.clone();
        let ghost names_pre = names@;
        if q + 1 < n && tokens[q + 1].kind == TokenKind::Comma {
            proof {
                match spec_parse_name_list(tsv, q + 2, what@) {
                    Ok((more, qq)) => {
                        assert(spec_parse_name_list(tsv, q as int, what@) == Ok::<
                            (Seq<Seq<char>>, int),
                            SpecParseErr,
                        >((seq![tsv[q as int].text] + more, qq)));
                        assert(spec_string_views(names_pre.push(name)) =~= spec_string_views(
                            names_pre,
                        ) + seq![name@]);
                        assert(spec_string_views(names_pre) + (seq![tsv[q as int].text] + more)
                            =~= (spec_string_views(names_pre) + seq![name@]) + more);
                    },
                    Err(_) => {
                    },
                }
            }
            names.push(name);
            q = q + 2;
        } else {
            proof {
                assert(spec_parse_name_list(tsv, q as int, what@) == Ok::<
                    (Seq<Seq<char>>, int),
                    SpecParseErr,
                >((seq![tsv[q as int].text], q + 1)));
                assert(spec_string_views(names_pre.push(name)) =~= spec_string_views(names_pre)
                    + seq![name@]);
            }
            names.push(name);
            q = q + 1;
            break ;
        }
    }
    if q >= n || tokens[q].kind != TokenKind::RBrace {
        return Err(syntax_error(code, tokens, q, "`,` or `}`"));
    }
    if q + 1 >= n || tokens[q + 1].kind != TokenKind::Semi {
        return Err(syntax_error(code, tokens, q + 1, "`;`"));
    }
    Ok((names, tokens[q + 1].end, q + 2))
}

/// Parse the instruction record `(state, symbol, symbol, movement, state);`
/// that starts at the `(` at `p`.
fn parse_instruction_record(code: &str, tokens: &Vec<Token>, p: usize) -> (r: Result<
    (Record, usize),
    CompilerError,
>)
    requires
        code@.len() < usize::MAX,
        spec_tokens_wf(spec_token_views(tokens@), code@.len() as int),
        p < tokens@.len(),
    ensures
        ({
            let tsv = spec_token_views(tokens@);
            match spec_parse_instruction(tsv, p as int) {
                Ok(rq) => r is Ok && r->Ok_0.0@ == rq.0 && r->Ok_0.1 as int == rq.1 && p < rq.1
                    <= tsv.len(),
                Err(pe) => r is Err && r->Err_0@ == spec_parse_error(code@, tsv, pe),
            }
        }),
{
    let n = tokens.len();
    if p + 1 >= n || tokens[p + 1].kind != TokenKind::Ident {
        return Err(syntax_error(code, tokens, p + 1, "a state name"));
    }
    if p + 2 >= n || tokens[p + 2].kind != TokenKind::Comma {
        return Err(syntax_error(code, tokens, p + 2, "`,`"));
    }
    let b1 = if p + 3 < n && tokens[p + 3].kind == TokenKind::Ident {
        bit_of(tokens[p + 3].text.as_str())
    } else {
        None
    };
    let from_value = match b1 {
        Some(v) => v,
        None => {
            return Err(syntax_error(code, tokens, p + 3, "`0` or `1`"));
        },
    };
    if p + 4 >= n || tokens[p + 4].kind != TokenKind::Comma {
        return Err(syntax_error(code, tokens, p + 4, "`,`"));
    }
    let b2 = if p + 5 < n && tokens[p + 5].kind == TokenKind::Ident {
        bit_of(tokens[p + 5].text.as_str())
    } else {
        None
    };
    let to_value = match b2 {
        Some(v) => v,
        None => {
            return Err(syntax_error(code, tokens, p + 5, "`0` or `1`"));
        },
    };
    if p + 6 >= n || tokens[p + 6].kind != TokenKind::Comma {
        return Err(syntax_error(code, tokens, p + 6, "`,`"));
    }
    if p + 7 >= n || tokens[p + 7].kind != TokenKind::Ident {
        return Err(syntax_error(code, tokens, p + 7, "a movement letter"));
    }
    let movement = Movement::from_str(tokens[p + 7].text.as_str());
    if p + 8 >= n || tokens[p + 8].kind != TokenKind::Comma {
        return Err(syntax_error(code, tokens, p + 8, "`,`"));
    }
    if p + 9 >= n || tokens[p + 9].kind != TokenKind::Ident {
        return Err(syntax_error(code, tokens, p + 9, "a state name"));
    }
    if p + 10 >= n || tokens[p + 10].kind != TokenKind::RParen {
        return Err(syntax_error(code, tokens, p + 10, "`)`"));
    }
    if p + 11 >= n || tokens[p + 11].kind != TokenKind::Semi {
        return Err(syntax_error(code, tokens, p + 11, "`;`"));
    }
    let instruction = TuringInstruction {
        from_state: tokens[p + 1].text.clone(),
        from_value,
        to_value,
        movement,
        to_state: tokens[p + 9].text.clone(),
    };
    let rec = Record {
        kind: RecordKind::Instruction(instruction),
        start: tokens[p].start,
        end: tokens[p + 11].end,
    };
    Ok((rec, p + 12))
}

/// Prepend the records gathered so far to the result of parsing the rest.
pub open spec fn spec_parse_join(
    done: Seq<SpecRecord>,
    rest: Result<Seq<SpecRecord>, SpecParseErr>,
) -> Result<Seq<SpecRecord>, SpecParseErr> {
    match rest {
        Ok(more) => Ok(done + more),
        Err(e) => Err(e),
    }
}

proof fn lemma_parse_join_push(rs: Seq<Record>, r: Record, rest: Result<Seq<SpecRecord>, SpecParseErr>)
    ensures
        spec_parse_join(spec_record_views(rs), spec_cons_record(r@, rest)) == spec_parse_join(
            spec_record_views(rs.push(r)),
            rest,
        ),
{
    match rest {
        Ok(more) => {
            assert(spec_record_views(rs) + (seq![r@] + more) =~= spec_record_views(rs.push(r))
                + more);
        },
        Err(_) => {
        },
    }
}

impl TuringParser {
    /// Parse a whole machine description into its top-level records, or
    /// fail with the first syntax error.
    pub fn parse(code: &str) -> (r: Result<Vec<Record>, CompilerError>)
        requires
            code@.len() < usize::MAX,
        ensures
            match spec_parse(code@) {
                Ok(rs) => r is Ok && spec_record_views(r->Ok_0@) == rs,
                Err(e) => r is Err && r->Err_0@ == e,
            },
    {
        let ghost s = code@;
        let tokens = match lex(code) {
            Ok(ts) => ts,
            Err(e) => {
                return Err(e);
            },
        };
        proof {
            lemma_lex_tokens_wf(s, 0);
        }
        let ghost tsv = spec_token_views(tokens@);
        let n = tokens.len();
        let mut records: Vec<Record> = Vec::new();
        let mut p: usize = 0;
        loop
            invariant
                s == code@,
                s.len() < usize::MAX,
                tsv == spec_token_views(tokens@),
                spec_tokens_wf(tsv, s.len() as int),
                spec_lex_from(s, 0) == Ok::<Seq<SpecToken>, int>(tsv),
                p <= n == tokens@.len(),
                spec_parse_records(tsv, 0) == spec_parse_join(
                    spec_record_views(records@),
                    spec_parse_records(tsv, p as int),
                ),
            ensures
                spec_parse_records(tsv, 0) == Ok::<Seq<SpecRecord>, SpecParseErr>(
                    spec_record_views(records@),
                ),
            decreases n - p,
        {
            if p >= n {
                proof {
                    assert(spec_record_views(records@) + Seq::<SpecRecord>::empty()
                        =~= spec_record_views(records@));
                }
                break ;
            }
            let ghost pre = spec_parse_records(tsv, p as int);
            let kind = tokens[p].kind;
            if kind == TokenKind::Description {
                let text = trim_str(tokens[p].text.as_str());
                let rec = Record {
                    kind: RecordKind::Description(text),
                    start: tokens[p].start,
                    end: tokens[p].end,
                };
                proof {
                    assert(pre == spec_cons_record(rec@, spec_parse_records(tsv, p + 1)));
                    lemma_parse_join_push(records@, rec, spec_parse_records(tsv, p + 1));
                }
                records.push(rec);
                p = p + 1;
            } else if kind == TokenKind::LBrace {
                match parse_tape(code, &tokens, p) {
                    Ok((rec, q)) => {
                        proof {
                            assert(pre == spec_cons_record(
                                rec@,
                                spec_parse_records(tsv, q as int),
                            ));
                            lemma_parse_join_push(records@, rec, spec_parse_records(tsv, q as int));
                        }
                        records.push(rec);
                        p = q;
                    },
                    Err(e) => {
                        return Err(e);
                    },
                }
            } else if kind == TokenKind::LParen {
                match parse_instruction_record(code, &tokens, p) {
                    Ok((rec, q)) => {
                        proof {
                            assert(pre == spec_cons_record(
                                rec@,
                                spec_parse_records(tsv, q as int),
                            ));
                            lemma_parse_join_push(records@, rec, spec_parse_records(tsv, q as int));
                        }
                        records.push(rec);
                        p = q;
                    },
                    Err(e) => {
                        return Err(e);
                    },
                }
            } else if kind == TokenKind::Ident && str_eq(tokens[p].text.as_str(), "I") {
                match parse_initial(code, &tokens, p) {
                    Ok((rec, q)) => {
                        proof {
                            assert(pre == spec_cons_record(
                                rec@,
                                spec_parse_records(tsv, q as int),
                            ));
                            lemma_parse_join_push(records@, rec, spec_parse_records(tsv, q as int));
                        }
                        records.push(rec);
                        p = q;
                    },
                    Err(e) => {
                        return Err(e);
                    },
                }
            } else if kind == TokenKind::Ident && str_eq(tokens[p].text.as_str(), "F") {
                match parse_name_group(code, &tokens, p, "a state name") {
                    Ok((states, end, q)) => {
                        let rec = Record {
                            kind: RecordKind::FinalStates(states),
                            start: tokens[p].start,
                            end,
                        };
                        proof {
                            assert(pre == spec_cons_record(
                                rec@,
                                spec_parse_records(tsv, q as int),
                            ));
                            lemma_parse_join_push(records@, rec, spec_parse_records(tsv, q as int));
                        }
                        records.push(rec);
                        p = q;
                    },
                    Err(e) => {
                        return Err(e);
                    },
                }
            } else if kind == TokenKind::Ident && str_eq(tokens[p].text.as_str(), "compose") {
                match parse_name_group(code, &tokens, p, "a library name") {
                    Ok((names, end, q)) => {
                        let rec = Record {
                            kind: RecordKind::Compose(names),
                            start: tokens[p].start,
                            end,
                        };
                        proof {
                            assert(pre == spec_cons_record(
                                rec@,
                                spec_parse_records(tsv, q as int),
                            ));
                            lemma_parse_join_push(records@, rec, spec_parse_records(tsv, q as int));
                        }
                        records.push(rec);
                        p = q;
                    },
                    Err(e) => {
                        return Err(e);
                    },
                }
            } else {
                return Err(syntax_error(code, &tokens, p, "a record"));
            }
        }
        Ok(records)
    }
}

} // verus!
