//! The engine's stated laws, proved once and for all: the tape margin
//! invariant, determinism, the implicit halt at final states, and the loop
//! heuristic's bookkeeping.

use vstd::prelude::*;

use crate::error::SpecCompilerError;
use crate::instruction::{
    spec_bit_char, spec_halt_instruction, spec_instruction_text, spec_movement_char,
    spec_movement_of, SpecInstruction,
};
use crate::lexer::{
    is_ident_char, lemma_ident_end_run, spec_lex_from, SpecToken, TokenKind,
};
use crate::parser::{
    spec_at, spec_bit_of, spec_cons_record, spec_parse, spec_parse_instruction,
    spec_parse_records, SpecParseErr, SpecRecord, SpecRecordKind,
};
use crate::turing::{
    spec_active_instruction, spec_bump, spec_build, spec_contains_state, spec_finished, spec_grow,
    spec_is_infinite_loop, spec_lookup, spec_sat_inc, spec_step, spec_step_n, spec_wf, spec_zeros,
    SpecMachine,
};

verus! {

/// Tape margin invariant: a step taken from any machine that satisfies the
/// margin invariant yields a machine whose head again has at least 3 cells
/// on each side. Together with the builder's postcondition this covers
/// every reachable machine.
pub proof fn lemma_step_keeps_margin(m: SpecMachine)
    requires
        spec_wf(m),
    ensures
        spec_wf(spec_step(m)),
        spec_step(m).tape_position >= 3,
        spec_step(m).tape_position + 4 <= spec_step(m).tape.len(),
{
    match spec_active_instruction(m) {
        None => {
        },
        Some(i) => {
            let written = m.tape.update(m.tape_position, i.to_value);
            let moved = crate::turing::spec_move(written, m.tape_position, i.movement);
            assert(moved.1 >= 0);
            let grown = spec_grow(moved.0, moved.1);
            assert(grown.1 >= 3);
            assert(grown.1 + 4 <= grown.0.len());
        },
    }
}

/// Determinism: two machines built from the same source text, stepped the
/// same number of times, hold identical tape contents and head positions.
/// The builder and `step` have functional contracts, so every run of the
/// same source is exactly reproducible.
pub proof fn lemma_determinism(m1: SpecMachine, m2: SpecMachine, code: Seq<char>, n: nat)
    requires
        spec_build(code) == Ok::<SpecMachine, SpecCompilerError>(m1),
        spec_build(code) == Ok::<SpecMachine, SpecCompilerError>(m2),
    ensures
        spec_step_n(m1, n).tape == spec_step_n(m2, n).tape,
        spec_step_n(m1, n).tape_position == spec_step_n(m2, n).tape_position,
{
    assert(m1 == m2);
}

/// Implicit halt: in a final state with no explicit rule for the symbol
/// under the head, a step leaves tape, head and state unchanged, and the
/// machine reports itself finished immediately after.
pub proof fn lemma_implicit_halt(m: SpecMachine)
    requires
        spec_wf(m),
        spec_contains_state(m.final_states, m.current_state),
        spec_lookup(m.instructions, m.current_state, m.tape[m.tape_position]) is None,
    ensures
        spec_step(m).tape == m.tape,
        spec_step(m).tape_position == m.tape_position,
        spec_step(m).current_state == m.current_state,
        spec_finished(spec_step(m)),
{
    let value = m.tape[m.tape_position];
    let i = spec_halt_instruction(m.current_state, value);
    assert(spec_active_instruction(m) == Some(i));
    assert(m.tape.update(m.tape_position, value) =~= m.tape);
    let grown = spec_grow(m.tape, m.tape_position);
    assert(spec_zeros(0) + m.tape =~= m.tape);
    assert(grown.0 =~= m.tape);
    let m2 = spec_step(m);
    assert(m2.tape == m.tape);
    assert(m2.tape_position == m.tape_position);
    assert(m2.current_state == m.current_state);
    assert(spec_lookup(m2.instructions, m2.current_state, m2.tape[m2.tape_position]) is None);
    assert(spec_active_instruction(m2) == Some(i));
}

/// The undefined-transition condition is observable and non-fatal: a step
/// taken there changes nothing at all.
pub proof fn lemma_undefined_step_stalls(m: SpecMachine)
    requires
        crate::turing::spec_is_undefined(m),
    ensures
        spec_step(m) == m,
{
}

/// The count recorded for a state since the last reset: that of its first
/// entry, or zero.
pub open spec fn spec_freq_of(freqs: Seq<(Seq<char>, nat)>, st: Seq<char>) -> nat
    decreases freqs.len(),
{
    if freqs.len() == 0 {
        0
    } else if freqs[0].0 == st {
        freqs[0].1
    } else {
        spec_freq_of(freqs.drop_first(), st)
    }
}

/// Recording a visit of `st` raises exactly its count by one (saturating at
/// the machine word) and leaves every other state's count unchanged.
pub proof fn lemma_bump_counts(freqs: Seq<(Seq<char>, nat)>, st: Seq<char>, other: Seq<char>)
    ensures
        spec_freq_of(spec_bump(freqs, st), st) == spec_sat_inc(spec_freq_of(freqs, st)),
        other != st ==> spec_freq_of(spec_bump(freqs, st), other) == spec_freq_of(freqs, other),
    decreases freqs.len(),
{
    if freqs.len() == 0 {
        assert(spec_bump(freqs, st) == seq![(st, 1 as nat)]);
        assert(spec_freq_of(seq![(st, 1 as nat)], st) == 1);
        if other != st {
            assert(seq![(st, 1 as nat)].drop_first() =~= Seq::<(Seq<char>, nat)>::empty());
            assert(spec_freq_of(seq![(st, 1 as nat)], other) == spec_freq_of(
                seq![(st, 1 as nat)].drop_first(),
                other,
            ));
            assert(spec_freq_of(Seq::<(Seq<char>, nat)>::empty(), other) == 0);
        }
    } else if freqs[0].0 == st {
        let b = seq![(st, spec_sat_inc(freqs[0].1))] + freqs.drop_first();
        assert(spec_bump(freqs, st) == b);
        assert(b[0] == (st, spec_sat_inc(freqs[0].1)));
        assert(b.drop_first() =~= freqs.drop_first());
        if other != st {
            assert(spec_freq_of(b, other) == spec_freq_of(freqs.drop_first(), other));
            assert(spec_freq_of(freqs, other) == spec_freq_of(freqs.drop_first(), other));
        }
    } else {
        let b = seq![freqs[0]] + spec_bump(freqs.drop_first(), st);
        assert(spec_bump(freqs, st) == b);
        assert(b[0] == freqs[0]);
        assert(b.drop_first() =~= spec_bump(freqs.drop_first(), st));
        lemma_bump_counts(freqs.drop_first(), st, other);
        if other != st {
            if freqs[0].0 == other {
                assert(spec_freq_of(b, other) == b[0].1);
                assert(spec_freq_of(freqs, other) == freqs[0].1);
            } else {
                assert(spec_freq_of(b, other) == spec_freq_of(b.drop_first(), other));
                assert(spec_freq_of(freqs, other) == spec_freq_of(freqs.drop_first(), other));
            }
        }
    }
}

/// A step that applies an instruction records exactly one more visit of the
/// state it enters, and no other state's count moves.
pub proof fn lemma_step_records_visit(m: SpecMachine, other: Seq<char>)
    requires
        spec_active_instruction(m) is Some,
    ensures
        spec_freq_of(spec_step(m).frequencies, spec_step(m).current_state) == spec_sat_inc(
            spec_freq_of(m.frequencies, spec_step(m).current_state),
        ),
        other != spec_step(m).current_state ==> spec_freq_of(spec_step(m).frequencies, other)
            == spec_freq_of(m.frequencies, other),
{
    let entered = spec_active_instruction(m)->0.to_state;
    lemma_bump_counts(m.frequencies, entered, other);
}

/// After a reset of the frequencies the loop heuristic is silent, whatever
/// the threshold.
pub proof fn lemma_reset_clears_loop(m: SpecMachine, threshold: nat)
    ensures
        !spec_is_infinite_loop(
            SpecMachine { frequencies: Seq::empty(), ..m },
            threshold,
        ),
{
}

/// A usable state name: a non-empty run of identifier characters, as the
/// grammar itself produces.
pub open spec fn spec_valid_state_name(s: Seq<char>) -> bool {
    s.len() > 0 && (forall|k: int| 0 <= k < s.len() ==> is_ident_char(#[trigger] s[k]))
}

/// Round trip: parsing the textual form of an instruction back through the
/// instruction grammar (as one record, with its closing `;`) yields exactly
/// the instruction it renders.
#[verifier::rlimit(100)]
pub proof fn lemma_instruction_round_trip(i: SpecInstruction)
    requires
        spec_valid_state_name(i.from_state),
        spec_valid_state_name(i.to_state),
    ensures
        ({
            let text = spec_instruction_text(i).push(';');
            &&& spec_parse(text) is Ok
            &&& spec_parse(text)->Ok_0.len() == 1
            &&& spec_parse(text)->Ok_0[0].kind == SpecRecordKind::Instruction(i)
        }),
{
    let text = spec_instruction_text(i).push(';');
    let a = i.from_state.len() as int;
    let b = i.to_state.len() as int;
    let c1 = spec_bit_char(i.from_value);
    let c2 = spec_bit_char(i.to_value);
    let cm = spec_movement_char(i.movement);
    assert(text.len() == 14 + a + b);
    assert(text[0] == '(');
    assert(forall|k: int| 1 <= k < 1 + a ==> text[k] == i.from_state[k - 1]);
    assert(text[1 + a] == ',');
    assert(text[2 + a] == ' ');
    assert(text[3 + a] == c1);
    assert(text[4 + a] == ',');
    assert(text[5 + a] == ' ');
    assert(text[6 + a] == c2);
    assert(text[7 + a] == ',');
    assert(text[8 + a] == ' ');
    assert(text[9 + a] == cm);
    assert(text[10 + a] == ',');
    assert(text[11 + a] == ' ');
    assert(forall|k: int| 12 + a <= k < 12 + a + b ==> text[k] == i.to_state[k - 12 - a]);
    assert(text[12 + a + b] == ')');
    assert(text[13 + a + b] == ';');
    assert(is_ident_char(c1));
    assert(is_ident_char(c2));
    assert(is_ident_char(cm));
    let t0 = SpecToken { kind: TokenKind::LParen, text: seq!['('], start: 0, end: 1 };
    let t1 = SpecToken { kind: TokenKind::Ident, text: i.from_state, start: 1, end: 1 + a };
    let t2 = SpecToken { kind: TokenKind::Comma, text: seq![','], start: 1 + a, end: 2 + a };
    let t3 = SpecToken { kind: TokenKind::Ident, text: seq![c1], start: 3 + a, end: 4 + a };
    let t4 = SpecToken { kind: TokenKind::Comma, text: seq![','], start: 4 + a, end: 5 + a };
    let t5 = SpecToken { kind: TokenKind::Ident, text: seq![c2], start: 6 + a, end: 7 + a };
    let t6 = SpecToken { kind: TokenKind::Comma, text: seq![','], start: 7 + a, end: 8 + a };
    let t7 = SpecToken { kind: TokenKind::Ident, text: seq![cm], start: 9 + a, end: 10 + a };
    let t8 = SpecToken { kind: TokenKind::Comma, text: seq![','], start: 10 + a, end: 11 + a };
    let t9 = SpecToken {
        kind: TokenKind::Ident,
        text: i.to_state,
        start: 12 + a,
        end: 12 + a + b,
    };
    let t10 = SpecToken {
        kind: TokenKind::RParen,
        text: seq![')'],
        start: 12 + a + b,
        end: 13 + a + b,
    };
    let t11 = SpecToken {
        kind: TokenKind::Semi,
        text: seq![';'],
        start: 13 + a + b,
        end: 14 + a + b,
    };
    let s11 = seq![t11];
    let s10 = seq![t10] + s11;
    let s9 = seq![t9] + s10;
    let s8 = seq![t8] + s9;
    let s7 = seq![t7] + s8;
    let s6 = seq![t6] + s7;
    let s5 = seq![t5] + s6;
    let s4 = seq![t4] + s5;
    let s3 = seq![t3] + s4;
    let s2 = seq![t2] + s3;
    let s1 = seq![t1] + s2;
    let s0 = seq![t0] + s1;
    assert(spec_lex_from(text, 14 + a + b) == Ok::<Seq<SpecToken>, int>(Seq::empty()));
    assert(text.subrange(13 + a + b, 14 + a + b) =~= seq![';']);
    assert(seq![t11] + Seq::<SpecToken>::empty() =~= s11);
    assert(spec_lex_from(text, 13 + a + b) == Ok::<Seq<SpecToken>, int>(s11));
    assert(text.subrange(12 + a + b, 13 + a + b) =~= seq![')']);
    assert(spec_lex_from(text, 12 + a + b) == Ok::<Seq<SpecToken>, int>(s10));
    lemma_ident_end_run(text, 12 + a, 12 + a + b);
    assert(text.subrange(12 + a, 12 + a + b) =~= i.to_state);
    assert(spec_lex_from(text, 12 + a) == Ok::<Seq<SpecToken>, int>(s9));
    assert(spec_lex_from(text, 11 + a) == Ok::<Seq<SpecToken>, int>(s9));
    assert(text.subrange(10 + a, 11 + a) =~= seq![',']);
    assert(spec_lex_from(text, 10 + a) == Ok::<Seq<SpecToken>, int>(s8));
    lemma_ident_end_run(text, 9 + a, 10 + a);
    assert(text.subrange(9 + a, 10 + a) =~= seq![cm]);
    assert(spec_lex_from(text, 9 + a) == Ok::<Seq<SpecToken>, int>(s7));
    assert(spec_lex_from(text, 8 + a) == Ok::<Seq<SpecToken>, int>(s7));
    assert(text.subrange(7 + a, 8 + a) =~= seq![',']);
    assert(spec_lex_from(text, 7 + a) == Ok::<Seq<SpecToken>, int>(s6));
    lemma_ident_end_run(text, 6 + a, 7 + a);
    assert(text.subrange(6 + a, 7 + a) =~= seq![c2]);
    assert(spec_lex_from(text, 6 + a) == Ok::<Seq<SpecToken>, int>(s5));
    assert(spec_lex_from(text, 5 + a) == Ok::<Seq<SpecToken>, int>(s5));
    assert(text.subrange(4 + a, 5 + a) =~= seq![',']);
    assert(spec_lex_from(text, 4 + a) == Ok::<Seq<SpecToken>, int>(s4));
    lemma_ident_end_run(text, 3 + a, 4 + a);
    assert(text.subrange(3 + a, 4 + a) =~= seq![c1]);
    assert(spec_lex_from(text, 3 + a) == Ok::<Seq<SpecToken>, int>(s3));
    assert(spec_lex_from(text, 2 + a) == Ok::<Seq<SpecToken>, int>(s3));
    assert(text.subrange(1 + a, 2 + a) =~= seq![',']);
    assert(spec_lex_from(text, 1 + a) == Ok::<Seq<SpecToken>, int>(s2));
    lemma_ident_end_run(text, 1, 1 + a);
    assert(text.subrange(1, 1 + a) =~= i.from_state);
    assert(spec_lex_from(text, 1) == Ok::<Seq<SpecToken>, int>(s1));
    assert(text.subrange(0, 1) =~= seq!['(']);
    assert(spec_lex_from(text, 0) == Ok::<Seq<SpecToken>, int>(s0));
    let tl = seq![t0, t1, t2, t3, t4, t5, t6, t7, t8, t9, t10, t11];
    assert(s0 =~= tl);
    assert(spec_at(tl, 0, TokenKind::LParen));
    assert(spec_at(tl, 1, TokenKind::Ident));
    assert(spec_at(tl, 2, TokenKind::Comma));
    assert(spec_at(tl, 3, TokenKind::Ident));
    assert(spec_at(tl, 4, TokenKind::Comma));
    assert(spec_at(tl, 5, TokenKind::Ident));
    assert(spec_at(tl, 6, TokenKind::Comma));
    assert(spec_at(tl, 7, TokenKind::Ident));
    assert(spec_at(tl, 8, TokenKind::Comma));
    assert(spec_at(tl, 9, TokenKind::Ident));
    assert(spec_at(tl, 10, TokenKind::RParen));
    assert(spec_at(tl, 11, TokenKind::Semi));
    assert(spec_bit_of(tl[3].text) == Some(i.from_value));
    assert(spec_bit_of(tl[5].text) == Some(i.to_value));
    assert(spec_movement_of(tl[7].text) == i.movement);
    let rec = spec_parse_instruction(tl, 0)->Ok_0.0;
    assert(spec_parse_instruction(tl, 0) is Ok);
    assert(rec.kind == SpecRecordKind::Instruction(i));
    assert(spec_parse_records(tl, 12) == Ok::<Seq<SpecRecord>, SpecParseErr>(Seq::empty()));
    assert(spec_parse_records(tl, 0) == spec_cons_record(rec, spec_parse_records(tl, 12)));
    assert(seq![rec] + Seq::<SpecRecord>::empty() =~= seq![rec]);
    assert(spec_parse_records(tl, 0) == Ok::<Seq<SpecRecord>, SpecParseErr>(seq![rec]));
    assert(spec_parse(text) == Ok::<Seq<SpecRecord>, SpecCompilerError>(seq![rec]));
}

} // verus!
