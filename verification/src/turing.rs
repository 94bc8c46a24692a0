//! The machine itself: the builder that turns parsed records into an
//! executable machine, and the stepping engine with its tape-margin
//! invariant, implicit halt at final states, output interpretation, and the
//! bounded-repetition loop heuristic.

use vstd::prelude::*;

use crate::error::{spec_line_text, spec_position, CompilerError, SpecCompilerError};
use crate::instruction::{
    spec_halt_instruction, Movement, SpecInstruction, TuringInstruction, spec_bit_char,
};
use crate::library::{
    spec_find_library, spec_instruction_views, spec_libraries, spec_library_views, Library,
};
use crate::output::TuringOutput;
use crate::parser::{spec_parse, spec_string_views, RecordKind, SpecRecord, SpecRecordKind};

verus! {

/// The mathematical value of a whole machine.
pub ghost struct SpecMachine {
    /// The transition table, as the sequence of declared rules; on a
    /// duplicate `(from_state, from_value)` key the later rule wins.
    pub instructions: Seq<SpecInstruction>,
    pub final_states: Seq<Seq<char>>,
    pub current_state: Seq<char>,
    pub previous_state: Option<Seq<char>>,
    pub tape_position: int,
    pub tape: Seq<bool>,
    pub description: Option<Seq<char>>,
    pub code: Seq<char>,
    pub composed_libs: Seq<crate::library::SpecLibrary>,
    /// How often each state has been entered since the last reset.
    pub frequencies: Seq<(Seq<char>, nat)>,
    pub steps: nat,
}

/// The tape margin invariant: at least 3 cells on each side of the head.
pub open spec fn spec_wf(m: SpecMachine) -> bool {
    &&& 3 <= m.tape_position
    &&& m.tape_position + 4 <= m.tape.len()
}

/// Whether `st` is one of `states`.
pub open spec fn spec_contains_state(states: Seq<Seq<char>>, st: Seq<char>) -> bool {
    exists|k: int| 0 <= k < states.len() && states[k] == st
}

/// The rule for `(state, value)`: the last declared one, or nothing.
pub open spec fn spec_lookup(
    instrs: Seq<SpecInstruction>,
    state: Seq<char>,
    value: bool,
) -> Option<SpecInstruction>
    decreases instrs.len(),
{
    if instrs.len() == 0 {
        None
    } else {
        let last = instrs[instrs.len() - 1];
        if last.from_state == state && last.from_value == value {
            Some(last)
        } else {
            spec_lookup(instrs.drop_last(), state, value)
        }
    }
}

/// The instruction a step would apply: the table's rule for the current
/// state and the symbol under the head; in a final state with no such rule,
/// the synthetic halt-in-place rule; otherwise nothing — the machine is in
/// the undefined-transition condition.
pub open spec fn spec_active_instruction(m: SpecMachine) -> Option<SpecInstruction> {
    let value = m.tape[m.tape_position];
    match spec_lookup(m.instructions, m.current_state, value) {
        Some(i) => Some(i),
        None => {
            if spec_contains_state(m.final_states, m.current_state) {
                Some(spec_halt_instruction(m.current_state, value))
            } else {
                None
            }
        },
    }
}

/// The undefined-transition condition: no rule applies and the current
/// state is not final. An observable state, not an error.
pub open spec fn spec_is_undefined(m: SpecMachine) -> bool {
    spec_active_instruction(m) is None
}

/// `n` blank cells.
pub open spec fn spec_zeros(n: int) -> Seq<bool> {
    Seq::new(
        if n >= 0 {
            n as nat
        } else {
            0
        },
        |k: int| false,
    )
}

/// Re-establish the tape margin around position `pos`: prepend blanks until
/// at least 3 cells lie to the left (re-indexing the position), then append
/// blanks until at least 3 cells lie to the right.
pub open spec fn spec_grow(tape: Seq<bool>, pos: int) -> (Seq<bool>, int) {
    let pre = if pos < 3 {
        3 - pos
    } else {
        0
    };
    let tape1 = spec_zeros(pre) + tape;
    let pos1 = pos + pre;
    let post = if pos1 + 4 > tape1.len() {
        pos1 + 4 - tape1.len()
    } else {
        0
    };
    (tape1 + spec_zeros(post), pos1)
}

/// Apply a head movement: left inserts a blank when already at the first
/// cell, right appends a blank when already at the last cell, halt stays.
pub open spec fn spec_move(tape: Seq<bool>, pos: int, m: Movement) -> (Seq<bool>, int) {
    match m {
        Movement::LEFT => {
            if pos == 0 {
                (spec_zeros(1) + tape, 0)
            } else {
                (tape, pos - 1)
            }
        },
        Movement::RIGHT => {
            if pos == tape.len() - 1 {
                (tape.push(false), pos + 1)
            } else {
                (tape, pos + 1)
            }
        },
        Movement::HALT => (tape, pos),
    }
}

/// One more, saturating at the machine word's limit.
pub open spec fn spec_sat_inc(x: nat) -> nat {
    if x >= usize::MAX {
        x
    } else {
        x + 1
    }
}

/// Record one more visit of `st`: bump its count, or append it with count
/// one.
pub open spec fn spec_bump(freqs: Seq<(Seq<char>, nat)>, st: Seq<char>) -> Seq<(Seq<char>, nat)>
    decreases freqs.len(),
{
    if freqs.len() == 0 {
        seq![(st, 1 as nat)]
    } else if freqs[0].0 == st {
        seq![(st, spec_sat_inc(freqs[0].1))] + freqs.drop_first()
    } else {
        seq![freqs[0]] + spec_bump(freqs.drop_first(), st)
    }
}

/// One step of the machine. With no applicable instruction the machine is
/// left untouched; otherwise the new symbol is written, the head moves, the
/// margin is re-established, the state advances, and the visit is recorded.
pub open spec fn spec_step(m: SpecMachine) -> SpecMachine {
    match spec_active_instruction(m) {
        None => m,
        Some(i) => {
            let written = m.tape.update(m.tape_position, i.to_value);
            let moved = spec_move(written, m.tape_position, i.movement);
            let grown = spec_grow(moved.0, moved.1);
            SpecMachine {
                instructions: m.instructions,
                final_states: m.final_states,
                current_state: i.to_state,
                previous_state: Some(m.current_state),
                tape_position: grown.1,
                tape: grown.0,
                description: m.description,
                code: m.code,
                composed_libs: m.composed_libs,
                frequencies: spec_bump(m.frequencies, i.to_state),
                steps: spec_sat_inc(m.steps),
            }
        },
    }
}

/// `n` steps of the machine.
pub open spec fn spec_step_n(m: SpecMachine, n: nat) -> SpecMachine
    decreases n,
{
    if n == 0 {
        m
    } else {
        spec_step(spec_step_n(m, (n - 1) as nat))
    }
}

/// The previous state, or the empty name where none is recorded yet.
pub open spec fn spec_prev_or_empty(m: SpecMachine) -> Seq<char> {
    match m.previous_state {
        Some(p) => p,
        None => Seq::empty(),
    }
}

/// The machine is finished when its state is final, the previous state
/// equals the current one, and the instruction that would apply is a no-op
/// self-halt — so entering a final state with work still queued does not
/// yet count as finished.
pub open spec fn spec_finished(m: SpecMachine) -> bool {
    &&& spec_contains_state(m.final_states, m.current_state)
    &&& spec_prev_or_empty(m) == m.current_state
    &&& match spec_active_instruction(m) {
        Some(i) => i.movement == Movement::HALT && i.from_value == i.to_value && i.from_state
            == i.to_state,
        None => true,
    }
}

/// Whether some state has been entered at least `threshold` times since the
/// last reset: the bounded-repetition heuristic for non-termination.
pub open spec fn spec_is_infinite_loop(m: SpecMachine, threshold: nat) -> bool {
    exists|k: int| 0 <= k < m.frequencies.len() && m.frequencies[k].1 >= threshold
}

/// Clamp a count to `u32`.
pub open spec fn spec_sat_u32(n: nat) -> u32 {
    if n > u32::MAX {
        u32::MAX
    } else {
        n as u32
    }
}

/// The unary decoding of the tape from index `i` on, `run` marks having
/// been read just before `i`: every maximal run of `k > 0` marks decodes to
/// `k - 1`.
pub open spec fn spec_values_from(tape: Seq<bool>, i: int, run: nat) -> Seq<u32>
    decreases tape.len() - i,
{
    if i < 0 || i >= tape.len() {
        if run > 0 {
            seq![spec_sat_u32((run - 1) as nat)]
        } else {
            Seq::empty()
        }
    } else if tape[i] {
        spec_values_from(tape, i + 1, run + 1)
    } else {
        (
        if run > 0 {
            seq![spec_sat_u32((run - 1) as nat)]
        } else {
            Seq::empty()
        }) + spec_values_from(tape, i + 1, 0)
    }
}

/// The unary decoding of the whole tape.
pub open spec fn spec_values(tape: Seq<bool>) -> Seq<u32> {
    spec_values_from(tape, 0, 0)
}

/// How many cells of the tape hold `1`.
pub open spec fn spec_ones(tape: Seq<bool>) -> nat
    decreases tape.len(),
{
    if tape.len() == 0 {
        0
    } else {
        spec_ones(tape.drop_last()) + (
        if tape.last() {
            1 as nat
        } else {
            0 as nat
        })
    }
}

/// The tape's value: undefined while the machine is in the
/// undefined-transition condition, else the steps taken so far and the
/// number of marks on the tape.
pub open spec fn spec_tape_value(m: SpecMachine) -> TuringOutput {
    if spec_is_undefined(m) {
        TuringOutput::Undefined(m.steps as usize)
    } else {
        TuringOutput::Defined((m.steps as usize, spec_sat_u32(spec_ones(m.tape))))
    }
}

/// The text rendering of the first `n` tape cells, two characters each.
pub open spec fn spec_render_cells(tape: Seq<bool>, n: int) -> Seq<char>
    decreases n,
{
    if n <= 0 {
        Seq::empty()
    } else {
        spec_render_cells(tape, n - 1) + seq![spec_bit_char(tape[n - 1]), ' ']
    }
}

/// The text rendering of the head marker row for `n` cells.
pub open spec fn spec_render_marks(pos: int, n: int) -> Seq<char>
    decreases n,
{
    if n <= 0 {
        Seq::empty()
    } else {
        spec_render_marks(pos, n - 1) + (
        if n - 1 == pos {
            seq!['^', ' ']
        } else {
            seq![' ', ' ']
        })
    }
}

/// The two-line text rendering of the tape with the head marked by `^`.
pub open spec fn spec_render(tape: Seq<bool>, pos: int) -> Seq<char> {
    spec_render_cells(tape, tape.len() as int) + seq!['\n'] + spec_render_marks(
        pos,
        tape.len() as int,
    )
}

/// What the builder gathers while walking the records in file order: the
/// first description wins, tape literals accumulate (and the first one's
/// span positions a tape error), the last initial-state and final-states
/// declarations win, instructions and composition targets accumulate.
pub ghost struct SpecParts {
    pub description: Option<Seq<char>>,
    pub tape: Seq<bool>,
    pub tape_span: Option<(int, int)>,
    pub initial: Option<Seq<char>>,
    pub finals: Seq<Seq<char>>,
    pub instructions: Seq<SpecInstruction>,
    pub composes: Seq<(Seq<char>, int, int)>,
}

/// The empty gathering.
pub open spec fn spec_no_parts() -> SpecParts {
    SpecParts {
        description: None,
        tape: Seq::empty(),
        tape_span: None,
        initial: None,
        finals: Seq::empty(),
        instructions: Seq::empty(),
        composes: Seq::empty(),
    }
}

/// Fold one record into the gathering.
pub open spec fn spec_walk_one(acc: SpecParts, r: SpecRecord) -> SpecParts {
    match r.kind {
        SpecRecordKind::Description(t) => {
            if acc.description is None {
                SpecParts { description: Some(t), ..acc }
            } else {
                acc
            }
        },
        SpecRecordKind::Tape(bits) => SpecParts {
            tape: acc.tape + bits,
            tape_span: if acc.tape_span is None {
                Some((r.start, r.end))
            } else {
                acc.tape_span
            },
            ..acc
        },
        SpecRecordKind::InitialState(st) => SpecParts { initial: Some(st), ..acc },
        SpecRecordKind::FinalStates(sts) => SpecParts { finals: sts, ..acc },
        SpecRecordKind::Compose(names) => SpecParts {
            composes: acc.composes + Seq::new(names.len(), |k: int| (names[k], r.start, r.end)),
            ..acc
        },
        SpecRecordKind::Instruction(i) => SpecParts {
            instructions: acc.instructions.push(i),
            ..acc
        },
    }
}

/// Walk all records in file order.
pub open spec fn spec_walk(rs: Seq<SpecRecord>) -> SpecParts
    decreases rs.len(),
{
    if rs.len() == 0 {
        spec_no_parts()
    } else {
        spec_walk_one(spec_walk(rs.drop_last()), rs.last())
    }
}

/// The semantic error for a vacuous tape, positioned at the first tape
/// literal (or at the start of the source where there is none).
pub open spec fn spec_tape_error(s: Seq<char>, span: Option<(int, int)>) -> SpecCompilerError {
    match span {
        Some(ab) => SpecCompilerError::SemanticError {
            message: "the tape must hold at least one 1"@,
            position: spec_position(s, ab.0, Some(ab.1)),
            line: spec_line_text(s, ab.0),
        },
        None => SpecCompilerError::SemanticError {
            message: "the tape must hold at least one 1"@,
            position: spec_position(s, 0, None),
            line: spec_line_text(s, 0),
        },
    }
}

/// Resolve the composition targets in file order against the catalog: the
/// spliced instructions and the libraries, or a semantic error at the
/// first unknown name's declaration.
pub open spec fn spec_compose(
    s: Seq<char>,
    composes: Seq<(Seq<char>, int, int)>,
    catalog: Seq<crate::library::SpecLibrary>,
) -> Result<(Seq<SpecInstruction>, Seq<crate::library::SpecLibrary>), SpecCompilerError>
    decreases composes.len(),
{
    if composes.len() == 0 {
        Ok((Seq::empty(), Seq::empty()))
    } else {
        match spec_find_library(catalog, composes[0].0) {
            None => Err(
                SpecCompilerError::SemanticError {
                    message: "unknown composition library"@,
                    position: spec_position(s, composes[0].1, Some(composes[0].2)),
                    line: spec_line_text(s, composes[0].1),
                },
            ),
            Some(l) => match spec_compose(s, composes.drop_first(), catalog) {
                Err(e) => Err(e),
                Ok(rest) => Ok((l.instructions + rest.0, seq![l] + rest.1)),
            },
        }
    }
}

/// What building a machine from source yields, against a given catalog:
/// parse, walk the records, reject a tape with no `1`, resolve the
/// compositions, and set head and margins. All-or-nothing: an error never
/// yields a partial machine.
pub open spec fn spec_build_with(
    s: Seq<char>,
    catalog: Seq<crate::library::SpecLibrary>,
) -> Result<SpecMachine, SpecCompilerError> {
    match spec_parse(s) {
        Err(e) => Err(e),
        Ok(rs) => {
            let parts = spec_walk(rs);
            if parts.tape.len() == 0 || !parts.tape.contains(true) {
                Err(spec_tape_error(s, parts.tape_span))
            } else {
                match spec_compose(s, parts.composes, catalog) {
                    Err(e) => Err(e),
                    Ok(extra) => {
                        let grown = spec_grow(parts.tape, 0);
                        Ok(
                            SpecMachine {
                                instructions: parts.instructions + extra.0,
                                final_states: parts.finals,
                                current_state: match parts.initial {
                                    Some(st) => st,
                                    None => Seq::empty(),
                                },
                                previous_state: None,
                                tape_position: grown.1,
                                tape: grown.0,
                                description: parts.description,
                                code: s,
                                composed_libs: extra.1,
                                frequencies: Seq::empty(),
                                steps: 0,
                            },
                        )
                    },
                }
            }
        },
    }
}

/// What building against the crate's own catalog yields.
pub open spec fn spec_build(s: Seq<char>) -> Result<SpecMachine, SpecCompilerError> {
    spec_build_with(s, spec_libraries())
}

/// The machine a fresh, empty editor shows: a lone final state `f` on a
/// blank tape, already halted in place.
pub open spec fn spec_none_machine() -> SpecMachine {
    SpecMachine {
        instructions: seq![
            SpecInstruction {
                from_state: "f"@,
                from_value: false,
                to_value: false,
                movement: Movement::HALT,
                to_state: "f"@,
            },
        ],
        final_states: seq!["f"@],
        current_state: "f"@,
        previous_state: None,
        tape_position: 3,
        tape: spec_zeros(7),
        description: None,
        code: Seq::empty(),
        composed_libs: Seq::empty(),
        frequencies: Seq::empty(),
        steps: 0,
    }
}

/// The views of the recorded visit counts.
pub open spec fn spec_freq_views(v: Seq<(String, usize)>) -> Seq<(Seq<char>, nat)> {
    Seq::new(v.len(), |k: int| (v[k].0@, v[k].1 as nat))
}

/// The views of gathered composition targets.
pub open spec fn spec_compose_views(v: Seq<(String, usize, usize)>) -> Seq<(Seq<char>, int, int)> {
    Seq::new(v.len(), |k: int| (v[k].0@, v[k].1 as int, v[k].2 as int))
}

/// The view of an optional string.
pub open spec fn spec_opt_view(o: Option<String>) -> Option<Seq<char>> {
    match o {
        Some(s) => Some(s@),
        None => None,
    }
}

/// The view of an optional span.
pub open spec fn spec_span_view(o: Option<(usize, usize)>) -> Option<(int, int)> {
    match o {
        Some(ab) => Some((ab.0 as int, ab.1 as int)),
        None => None,
    }
}

/// Whether every gathered composition target's span lies inside a source of
/// `n` characters.
pub open spec fn spec_spans_bounded(v: Seq<(String, usize, usize)>, n: int) -> bool {
    forall|x: int|
        0 <= x < v.len() ==> ((#[trigger] v[x]).1 as int <= n && v[x].2 as int <= n)
}

/// A single-tape, binary-alphabet Turing machine: the transition table,
/// the final states, the current and previous state, the tape with its
/// head position, the source it was built from, the libraries spliced in,
/// and the per-state visit counts for the loop heuristic.
#[derive(Debug, Clone, PartialEq)]
pub struct TuringMachine {
    pub instructions: Vec<TuringInstruction>,
    pub final_states: Vec<String>,
    pub current_state: String,
    pub previous_state: Option<String>,
    pub tape_position: usize,
    pub tape: Vec<bool>,
    pub description: Option<String>,
    pub code: String,
    pub composed_libs: Vec<Library>,
    pub frequencies: Vec<(String, usize)>,
    pub steps: usize,
}

impl View for TuringMachine {
    type V = SpecMachine;

    open spec fn view(&self) -> SpecMachine {
        SpecMachine {
            instructions: spec_instruction_views(self.instructions@),
            final_states: spec_string_views(self.final_states@),
            current_state: self.current_state@,
            previous_state: match self.previous_state {
                Some(p) => Some(p@),
                None => None,
            },
            tape_position: self.tape_position as int,
            tape: self.tape@,
            description: match self.description {
                Some(d) => Some(d@),
                None => None,
            },
            code: self.code@,
            composed_libs: spec_library_views(self.composed_libs@),
            frequencies: spec_freq_views(self.frequencies@),
            steps: self.steps as nat,
        }
    }
}

/// Whether `st` is one of `states`.
fn contains_state(states: &Vec<String>, st: &String) -> (r: bool)
    ensures
        r == spec_contains_state(spec_string_views(states@), st@),
{
    let ghost sv = spec_string_views(states@);
    let n = states.len();
    let mut k: usize = 0;
    while k < n
        invariant
            k <= n == states@.len(),
            sv == spec_string_views(states@),
            forall|j: int| 0 <= j < k ==> sv[j] != st@,
        decreases n - k,
    {
        if crate::lexer::str_eq(states[k].as_str(), st.as_str()) {
            proof {
                assert(sv[k as int] == st@);
            }
            return true;
        }
        k = k + 1;
    }
    false
}

/// How many cells of the tape hold `1`.
fn count_ones(tape: &Vec<bool>) -> (c: usize)
    ensures
        c as nat == spec_ones(tape@),
{
    let n = tape.len();
    let mut c: usize = 0;
    let mut k: usize = 0;
    while k < n
        invariant
            k <= n == tape@.len(),
            c <= k,
            c as nat == spec_ones(tape@.take(k as int)),
        decreases n - k,
    {
        proof {
            assert(tape@.take(k + 1).drop_last() =~= tape@.take(k as int));
            assert(tape@.take(k + 1).last() == tape@[k as int]);
        }
        if tape[k] {
            c = c + 1;
        }
        k = k + 1;
    }
    proof {
        assert(tape@.take(n as int) =~= tape@);
    }
    c
}

/// Whether any cell of the tape holds `1`.
fn contains_true(tape: &Vec<bool>) -> (r: bool)
    ensures
        r == tape@.contains(true),
{
    let n = tape.len();
    let mut k: usize = 0;
    while k < n
        invariant
            k <= n == tape@.len(),
            forall|j: int| 0 <= j < k ==> !tape@[j],
        decreases n - k,
    {
        if tape[k] {
            proof {
                assert(tape@[k as int] == true);
            }
            return true;
        }
        k = k + 1;
    }
    proof {
        assert(!tape@.contains(true)) by {
            if tape@.contains(true) {
                let j = choose|j: int| 0 <= j < tape@.len() && tape@[j] == true;
                assert(!tape@[j]);
            }
        }
    }
    false
}

/// Re-establish the tape margin around `pos`, returning the re-indexed
/// position.
fn grow_tape(tape: &mut Vec<bool>, pos: usize) -> (newpos: usize)
    requires
        pos <= old(tape)@.len(),
    ensures
        final(tape)@ == spec_grow(old(tape)@, pos as int).0,
        newpos as int == spec_grow(old(tape)@, pos as int).1,
        3 <= newpos,
        newpos + 4 <= final(tape)@.len(),
{
    let ghost t0 = tape@;
    let mut p = pos;
    proof {
        assert(spec_zeros(0) + t0 =~= t0);
    }
    while p < 3
        invariant
            pos <= p,
            p <= 3 || p == pos,
            p as int - pos as int <= 3,
            tape@ == spec_zeros(p as int - pos as int) + t0,
        decreases 3 - p,
    {
        tape.insert(0, false);
        proof {
            assert(spec_zeros(p + 1 - pos as int) + t0 =~= (spec_zeros(p as int - pos as int)
                + t0).insert(0, false));
        }
        p = p + 1;
    }
    let ghost pre = p as int - pos as int;
    let ghost tape1 = tape@;
    let ghost len1 = tape@.len() as int;
    proof {
        assert(pre == if (pos as int) < 3 {
            3 - pos as int
        } else {
            0
        });
        assert(tape1 == spec_zeros(pre) + t0);
        assert(len1 >= p >= 3);
        assert(tape1 + spec_zeros(0) =~= tape1);
    }
    while p >= tape.len() - 3
        invariant
            3 <= p,
            3 <= len1 <= tape@.len(),
            tape@.len() >= 3,
            tape@ == tape1 + spec_zeros(tape@.len() - len1),
            tape@.len() <= p + 4 || tape@.len() == len1,
        decreases p + 4 - tape@.len(),
    {
        tape.push(false);
        proof {
            assert(tape1 + spec_zeros(tape@.len() - len1) =~= (tape1 + spec_zeros(
                tape@.len() - 1 - len1,
            )).push(false));
        }
    }
    proof {
        let g = spec_grow(t0, pos as int);
        assert(tape@ =~= g.0);
    }
    p
}

/// Append the cells of `src` to `dst`.
fn append_bools(dst: &mut Vec<bool>, src: &Vec<bool>)
    ensures
        final(dst)@ == old(dst)@ + src@,
{
    let n = src.len();
    let mut k: usize = 0;
    while k < n
        invariant
            k <= n == src@.len(),
            dst@ == old(dst)@ + src@.take(k as int),
        decreases n - k,
    {
        dst.push(src[k]);
        proof {
            assert(old(dst)@ + src@.take(k + 1) =~= (old(dst)@ + src@.take(k as int)).push(
                src@[k as int],
            ));
        }
        k = k + 1;
    }
    proof {
        assert(src@.take(n as int) =~= src@);
    }
}

/// Append owned copies of the instructions of `src` to `dst`.
fn append_instructions(dst: &mut Vec<TuringInstruction>, src: &Vec<TuringInstruction>)
    ensures
        spec_instruction_views(final(dst)@) == spec_instruction_views(old(dst)@)
            + spec_instruction_views(src@),
{
    let ghost sv = spec_instruction_views(src@);
    let n = src.len();
    let mut k: usize = 0;
    while k < n
        invariant
            k <= n == src@.len(),
            sv == spec_instruction_views(src@),
            spec_instruction_views(dst@) == spec_instruction_views(old(dst)@) + sv.take(k as int),
        decreases n - k,
    {
        let ghost pre = spec_instruction_views(dst@);
        dst.push(src[k].duplicate());
        proof {
            assert(spec_instruction_views(dst@) =~= pre.push(sv[k as int]));
            assert(spec_instruction_views(old(dst)@) + sv.take(k + 1) =~= pre.push(sv[k as int]));
        }
        k = k + 1;
    }
    proof {
        assert(sv.take(n as int) =~= sv);
    }
}

/// Record each name of a composition declaration with the declaration's
/// span.
fn push_composes(dst: &mut Vec<(String, usize, usize)>, names: &Vec<String>, start: usize, end: usize)
    ensures
        spec_compose_views(final(dst)@) == spec_compose_views(old(dst)@) + Seq::new(
            names@.len(),
            |x: int| (names@[x]@, start as int, end as int),
        ),
{
    let ghost added = Seq::new(names@.len(), |x: int| (names@[x]@, start as int, end as int));
    let n = names.len();
    let mut k: usize = 0;
    while k < n
        invariant
            k <= n == names@.len(),
            added == Seq::new(names@.len(), |x: int| (names@[x]@, start as int, end as int)),
            spec_compose_views(dst@) == spec_compose_views(old(dst)@) + added.take(k as int),
        decreases n - k,
    {
        let ghost pre = spec_compose_views(dst@);
        dst.push((names[k].clone(), start, end));
        proof {
            assert(spec_compose_views(dst@) =~= pre.push(added[k as int]));
            assert(spec_compose_views(old(dst)@) + added.take(k + 1) =~= pre.push(
                added[k as int],
            ));
        }
        k = k + 1;
    }
    proof {
        assert(added.take(n as int) =~= added);
    }
}

proof fn lemma_bump_skip(fv: Seq<(Seq<char>, nat)>, st: Seq<char>, k: int)
    requires
        0 <= k <= fv.len(),
        forall|j: int| 0 <= j < k ==> fv[j].0 != st,
    ensures
        spec_bump(fv, st) == fv.take(k) + spec_bump(fv.skip(k), st),
    decreases k,
{
    if k == 0 {
        assert(fv.skip(0) =~= fv);
        assert(fv.take(0) + spec_bump(fv, st) =~= spec_bump(fv, st));
    } else {
        let tail = fv.drop_first();
        assert forall|j: int| 0 <= j < k - 1 implies tail[j].0 != st by {
            assert(fv[j + 1].0 != st);
        }
        lemma_bump_skip(tail, st, k - 1);
        assert(tail.skip(k - 1) =~= fv.skip(k));
        assert(seq![fv[0]] + (tail.take(k - 1) + spec_bump(fv.skip(k), st)) =~= fv.take(k)
            + spec_bump(fv.skip(k), st));
        assert(fv[0].0 != st);
        assert(spec_bump(fv, st) == seq![fv[0]] + spec_bump(tail, st));
    }
}

/// Record one more visit of `state` in the counts.
fn bump_frequency(freqs: &mut Vec<(String, usize)>, state: &String)
    ensures
        spec_freq_views(final(freqs)@) == spec_bump(spec_freq_views(old(freqs)@), state@),
{
    let ghost fv = spec_freq_views(freqs@);
    let n = freqs.len();
    let mut k: usize = 0;
    while k < n
        invariant
            k <= n == freqs@.len(),
            freqs@ == old(freqs)@,
            fv == spec_freq_views(freqs@),
            forall|j: int| 0 <= j < k ==> fv[j].0 != state@,
        decreases n - k,
    {
        if crate::lexer::str_eq(freqs[k].0.as_str(), state.as_str()) {
            let c = freqs[k].1;
            let newc = if c == usize::MAX {
                c
            } else {
                c + 1
            };
            freqs[k] = (state.clone(), newc);
            proof {
                lemma_bump_skip(fv, state@, k as int);
                assert(fv.skip(k as int)[0] == fv[k as int]);
                assert(spec_bump(fv.skip(k as int), state@) == seq![
                    (state@, spec_sat_inc(fv[k as int].1)),
                ] + fv.skip(k as int).drop_first());
                assert(fv.skip(k as int).drop_first() =~= fv.skip(k + 1));
                assert(spec_freq_views(freqs@) =~= fv.take(k as int) + (seq![
                    (state@, spec_sat_inc(fv[k as int].1)),
                ] + fv.skip(k + 1)));
            }
            return ;
        }
        k = k + 1;
    }
    freqs.push((state.clone(), 1));
    proof {
        lemma_bump_skip(fv, state@, fv.len() as int);
        assert(fv.skip(fv.len() as int).len() == 0);
        assert(spec_bump(fv.skip(fv.len() as int), state@) == seq![(state@, 1 as nat)]);
        assert(fv.take(fv.len() as int) =~= fv);
        assert(spec_freq_views(freqs@) =~= fv + seq![(state@, 1 as nat)]);
    }
}

impl TuringMachine {
    /// The table's rule for `index`, the synthetic halt where the current
    /// state is final and has none, or nothing: the undefined-transition
    /// condition.
    fn get_instruction(&self, index: (String, bool)) -> (r: Option<TuringInstruction>)
        ensures
            ({
                let found = spec_lookup(
                    spec_instruction_views(self.instructions@),
                    index.0@,
                    index.1,
                );
                match found {
                    Some(i) => r is Some && r->0@ == i,
                    None => {
                        if spec_contains_state(
                            spec_string_views(self.final_states@),
                            self.current_state@,
                        ) {
                            r is Some && r->0@ == spec_halt_instruction(index.0@, index.1)
                        } else {
                            r is None
                        }
                    },
                }
            }),
    {
        let ghost iv = spec_instruction_views(self.instructions@);
        let n = self.instructions.len();
        let mut found: Option<usize> = None;
        let mut k: usize = 0;
        proof {
            assert(iv.take(0) =~= Seq::<SpecInstruction>::empty());
        }
        while k < n
            invariant
                k <= n == self.instructions@.len(),
                iv == spec_instruction_views(self.instructions@),
                match found {
                    Some(j) => j < k && spec_lookup(iv.take(k as int), index.0@, index.1) == Some(
                        iv[j as int],
                    ),
                    None => spec_lookup(iv.take(k as int), index.0@, index.1) is None,
                },
            decreases n - k,
        {
            proof {
                assert(iv.take(k + 1).drop_last() =~= iv.take(k as int));
                assert(iv.take(k + 1).last() == iv[k as int]);
            }
            if crate::lexer::str_eq(self.instructions[k].from_state.as_str(), index.0.as_str())
                && self.instructions[k].from_value == index.1 {
                found = Some(k);
            }
            k = k + 1;
        }
        proof {
            assert(iv.take(n as int) =~= iv);
        }
        match found {
            Some(j) => Some(self.instructions[j].duplicate()),
            None => {
                if contains_state(&self.final_states, &self.current_state) {
                    Some(TuringInstruction::halt(index))
                } else {
                    None
                }
            },
        }
    }

    /// The instruction the next step would apply, if any.
    pub fn get_current_instruction(&self) -> (r: Option<TuringInstruction>)
        requires
            spec_wf(self@),
        ensures
            match spec_active_instruction(self@) {
                Some(i) => r is Some && r->0@ == i,
                None => r is None,
            },
    {
        let current_val: bool = self.tape[self.tape_position];
        let index = (self.current_state.clone(), current_val);
        self.get_instruction(index)
    }

    /// One step: write, move, re-establish the margin, advance the state,
    /// and record the visit. In the undefined-transition condition the
    /// machine is left untouched.
    pub fn step(&mut self)
        requires
            spec_wf(old(self)@),
        ensures
            final(self)@ == spec_step(old(self)@),
            spec_wf(final(self)@),
    {
        let current_val: bool = self.tape[self.tape_position];
        let index = (self.current_state.clone(), current_val);
        let instruction = match self.get_instruction(index) {
            Some(i) => i,
            None => {
                return ;
            },
        };
        self.tape[self.tape_position] = instruction.to_value;
        let ghost written = self.tape@;
        match instruction.movement {
            Movement::LEFT => {
                if self.tape_position == 0 {
                    self.tape.insert(0, false);
                } else {
                    self.tape_position = self.tape_position - 1;
                }
            },
            Movement::RIGHT => {
                if self.tape_position == self.tape.len() - 1 {
                    self.tape.push(false);
                }
                self.tape_position = self.tape_position + 1;
            },
            Movement::HALT => {
            },
        }
        proof {
            let moved = spec_move(written, old(self)@.tape_position, instruction@.movement);
            assert(self.tape@ =~= moved.0);
            assert(self.tape_position as int == moved.1);
        }
        self.tape_position = grow_tape(&mut self.tape, self.tape_position);
        self.previous_state = Some(self.current_state.clone());
        self.current_state = instruction.to_state;
        bump_frequency(&mut self.frequencies, &self.current_state);
        self.steps = if self.steps == usize::MAX {
            self.steps
        } else {
            self.steps + 1
        };
        proof {
            assert(self@ == spec_step(old(self)@));
        }
    }

    /// Whether the machine has finished: final state, previous state equal
    /// to the current one, and a no-op self-halt as the instruction that
    /// would apply.
    pub fn finished(&self) -> (r: bool)
        requires
            spec_wf(self@),
        ensures
            r == spec_finished(self@),
    {
        if !contains_state(&self.final_states, &self.current_state) {
            return false;
        }
        let prev_matches = match &self.previous_state {
            Some(p) => crate::lexer::str_eq(p.as_str(), self.current_state.as_str()),
            None => {
                proof {
                    if self.current_state@.len() == 0 {
                        assert(self.current_state@ =~= Seq::<char>::empty());
                    }
                }
                self.current_state.as_str().unicode_len() == 0
            },
        };
        if !prev_matches {
            return false;
        }
        match self.get_current_instruction() {
            Some(i) => {
                let self_halt = match i.movement {
                    Movement::HALT => true,
                    _ => false,
                };
                self_halt && i.from_value == i.to_value && crate::lexer::str_eq(
                    i.from_state.as_str(),
                    i.to_state.as_str(),
                )
            },
            None => true,
        }
    }

    /// Whether the machine is in the undefined-transition condition: no
    /// rule applies and the current state is not final.
    pub fn is_undefined(&self) -> (r: bool)
        requires
            spec_wf(self@),
        ensures
            r == spec_is_undefined(self@),
    {
        match self.get_current_instruction() {
            Some(_) => false,
            None => true,
        }
    }

    /// Whether some state has been entered at least `threshold` times since
    /// the last reset. A heuristic, not a proof of non-termination.
    pub fn is_infinite_loop(&self, threshold: usize) -> (r: bool)
        ensures
            r == spec_is_infinite_loop(self@, threshold as nat),
    {
        let ghost fv = spec_freq_views(self.frequencies@);
        let n = self.frequencies.len();
        let mut k: usize = 0;
        while k < n
            invariant
                k <= n == self.frequencies@.len(),
                fv == spec_freq_views(self.frequencies@),
                forall|j: int| 0 <= j < k ==> fv[j].1 < threshold as nat,
            decreases n - k,
        {
            if self.frequencies[k].1 >= threshold {
                proof {
                    assert(0 <= k < self@.frequencies.len() && self@.frequencies[k as int].1
                        >= threshold as nat);
                    assert(spec_is_infinite_loop(self@, threshold as nat));
                }
                return true;
            }
            k = k + 1;
        }
        false
    }

    /// Build a machine from source against a given library catalog: parse,
    /// walk the records in file order, reject a tape with no `1` as a
    /// semantic error, resolve the composition targets, and establish the
    /// head with its margin. All-or-nothing: on error no machine exists.
    pub fn new_with_libraries(code: &str, catalog: &Vec<Library>) -> (r: Result<
        TuringMachine,
        CompilerError,
    >)
        requires
            code@.len() < usize::MAX,
        ensures
            match spec_build_with(code@, spec_library_views(catalog@)) {
                Ok(m) => r is Ok && r->Ok_0@ == m && spec_wf(r->Ok_0@),
                Err(e) => r is Err && r->Err_0@ == e,
            },
    {
        let ghost s = code@;
        let ghost cat = spec_library_views(catalog@);
        let records = match crate::parser::TuringParser::parse(code) {
            Ok(rs) => rs,
            Err(e) => {
                return Err(e);
            },
        };
        proof {
            crate::parser::lemma_lex_tokens_wf(s, 0);
            if crate::lexer::spec_lex_from(s, 0) is Ok {
                crate::parser::lemma_parse_records_wf(
                    crate::lexer::spec_lex_from(s, 0)->Ok_0,
                    0,
                    s.len() as int,
                );
            }
        }
        let ghost rv = crate::parser::spec_record_views(records@);
        let mut description: Option<String> = None;
        let mut tape: Vec<bool> = Vec::new();
        let mut tape_span: Option<(usize, usize)> = None;
        let mut initial: Option<String> = None;
        let mut finals: Vec<String> = Vec::new();
        let mut instructions: Vec<TuringInstruction> = Vec::new();
        let mut composes: Vec<(String, usize, usize)> = Vec::new();
        let n = records.len();
        let mut k: usize = 0;
        proof {
            assert(rv.take(0) =~= Seq::<SpecRecord>::empty());
            assert(spec_freq_views(Seq::<(String, usize)>::empty()) =~= Seq::<
                (Seq<char>, nat),
            >::empty());
        }
        while k < n
            invariant
                s == code@,
                s.len() < usize::MAX,
                rv == crate::parser::spec_record_views(records@),
                crate::parser::spec_records_wf(rv, s.len() as int),
                k <= n == records@.len(),
                spec_opt_view(description) == spec_walk(rv.take(k as int)).description,
                tape@ == spec_walk(rv.take(k as int)).tape,
                spec_span_view(tape_span) == spec_walk(rv.take(k as int)).tape_span,
                spec_opt_view(initial) == spec_walk(rv.take(k as int)).initial,
                spec_string_views(finals@) == spec_walk(rv.take(k as int)).finals,
                spec_instruction_views(instructions@) == spec_walk(rv.take(k as int)).instructions,
                spec_compose_views(composes@) == spec_walk(rv.take(k as int)).composes,
                (match tape_span {
                    Some(ab) => ab.0 as int <= s.len() && ab.1 as int <= s.len(),
                    None => true,
                }),
                spec_spans_bounded(composes@, s.len() as int),
            decreases n - k,
        {
            let ghost parts = spec_walk(rv.take(k as int));
            proof {
                assert(rv.take(k + 1).drop_last() =~= rv.take(k as int));
                assert(rv.take(k + 1).last() == rv[k as int]);
                assert(spec_walk(rv.take(k + 1)) == spec_walk_one(parts, rv[k as int]));
                assert(0 <= rv[k as int].start <= s.len() && 0 <= rv[k as int].end <= s.len());
            }
            match &records[k].kind {
                RecordKind::Description(t) => {
                    if description.is_none() {
                        description = Some(t.clone());
                    }
                },
                RecordKind::Tape(bits) => {
                    append_bools(&mut tape, bits);
                    if tape_span.is_none() {
                        tape_span = Some((records[k].start, records[k].end));
                    }
                },
                RecordKind::InitialState(st) => {
                    initial = Some(st.clone());
                },
                RecordKind::FinalStates(sts) => {
                    finals = crate::library::clone_strings(sts);
                },
                RecordKind::Compose(names) => {
                    let ghost cpre = composes@;
                    let ghost added = Seq::new(
                        names@.len(),
                        |x: int|
                            (
                                names@[x]@,
                                records@[k as int].start as int,
                                records@[k as int].end as int,
                            ),
                    );
                    push_composes(&mut composes, names, records[k].start, records[k].end);
                    proof {
                        assert(added =~= Seq::new(
                            spec_string_views(names@).len(),
                            |x: int|
                                (
                                    spec_string_views(names@)[x],
                                    rv[k as int].start,
                                    rv[k as int].end,
                                ),
                        ));
                        assert forall|x: int| 0 <= x < composes@.len() implies ((
                        #[trigger] composes@[x]).1 as int <= s.len() && composes@[x].2 as int
                            <= s.len()) by {
                            assert(spec_compose_views(composes@)[x] == (
                                composes@[x].0@,
                                composes@[x].1 as int,
                                composes@[x].2 as int,
                            ));
                            assert(spec_compose_views(composes@) == spec_compose_views(cpre)
                                + added);
                            if x < cpre.len() {
                                assert(spec_compose_views(composes@)[x] == spec_compose_views(
                                    cpre,
                                )[x]);
                                assert(spec_compose_views(cpre)[x] == (
                                    cpre[x].0@,
                                    cpre[x].1 as int,
                                    cpre[x].2 as int,
                                ));
                            } else {
                                assert(spec_compose_views(cpre).len() == cpre.len());
                                assert(added.len() == names@.len());
                                assert(spec_compose_views(composes@).len() == cpre.len()
                                    + added.len());
                                assert(composes@.len() == cpre.len() + added.len());
                                let y = x - cpre.len();
                                assert(0 <= y < added.len());
                                assert(spec_compose_views(composes@)[x] == added[y]);
                                assert(added[y] == (
                                    names@[y]@,
                                    records@[k as int].start as int,
                                    records@[k as int].end as int,
                                ));
                                assert(rv[k as int].start == records@[k as int].start as int);
                                assert(rv[k as int].end == records@[k as int].end as int);
                            }
                        }
                    }
                },
                RecordKind::Instruction(i) => {
                    let ghost pre = spec_instruction_views(instructions@);
                    instructions.push(i.duplicate());
                    proof {
                        assert(spec_instruction_views(instructions@) =~= pre.push(i@));
                    }
                },
            }
            k = k + 1;
        }
        proof {
            assert(rv.take(n as int) =~= rv);
        }
        let ghost parts = spec_walk(rv);
        if tape.len() == 0 || !contains_true(&tape) {
            let message = String::from_str("the tape must hold at least one 1");
            let (position, line) = match tape_span {
                Some((a, b)) => {
                    (
                        crate::error::position_of(code, a, Some(b)),
                        crate::error::line_text_of(code, a),
                    )
                },
                None => {
                    (crate::error::position_of(code, 0, None), crate::error::line_text_of(code, 0))
                },
            };
            return Err(CompilerError::SemanticError { message, position, line });
        }
        let ghost cv = spec_compose_views(composes@);
        let mut extra: Vec<TuringInstruction> = Vec::new();
        let mut composed_libs: Vec<Library> = Vec::new();
        let cn = composes.len();
        let mut j: usize = 0;
        proof {
            assert(cv.skip(0) =~= cv);
            assert(spec_library_views(Seq::<Library>::empty()) =~= Seq::<
                crate::library::SpecLibrary,
            >::empty());
        }
        while j < cn
            invariant
                s == code@,
                s.len() < usize::MAX,
                cat == spec_library_views(catalog@),
                cv == spec_compose_views(composes@),
                j <= cn == composes@.len(),
                crate::parser::spec_parse(s) == Ok::<Seq<SpecRecord>, SpecCompilerError>(rv),
                parts == spec_walk(rv),
                cv == parts.composes,
                parts.tape.len() != 0 && parts.tape.contains(true),
                spec_spans_bounded(composes@, s.len() as int),
                spec_compose(s, cv, cat) == (match spec_compose(s, cv.skip(j as int), cat) {
                    Ok(rest) => Ok::<
                        (Seq<SpecInstruction>, Seq<crate::library::SpecLibrary>),
                        SpecCompilerError,
                    >(
                        (
                            spec_instruction_views(extra@) + rest.0,
                            spec_library_views(composed_libs@) + rest.1,
                        ),
                    ),
                    Err(e) => Err::<
                        (Seq<SpecInstruction>, Seq<crate::library::SpecLibrary>),
                        SpecCompilerError,
                    >(e),
                }),
            decreases cn - j,
        {
            proof {
                assert(cv.skip(j as int)[0] == cv[j as int]);
                assert(cv.skip(j as int).drop_first() =~= cv.skip(j + 1));
            }
            match crate::library::find_library(catalog, composes[j].0.as_str()) {
                None => {
                    let message = String::from_str("unknown composition library");
                    let position = crate::error::position_of(
                        code,
                        composes[j].1,
                        Some(composes[j].2),
                    );
                    let line = crate::error::line_text_of(code, composes[j].1);
                    return Err(CompilerError::SemanticError { message, position, line });
                },
                Some(l) => {
                    let ghost epre = spec_instruction_views(extra@);
                    let ghost lpre = spec_library_views(composed_libs@);
                    let lib = l.duplicate();
                    append_instructions(&mut extra, &lib.instructions);
                    composed_libs.push(lib);
                    proof {
                        assert(spec_library_views(composed_libs@) =~= lpre.push(l@));
                        match spec_compose(s, cv.skip(j + 1), cat) {
                            Ok(rest2) => {
                                assert(epre + (l@.instructions + rest2.0) =~= (epre
                                    + l@.instructions) + rest2.0);
                                assert(lpre + (seq![l@] + rest2.1) =~= lpre.push(l@) + rest2.1);
                            },
                            Err(_) => {
                            },
                        }
                    }
                },
            }
            j = j + 1;
        }
        proof {
            assert(cv.skip(cn as int).len() == 0);
            assert(spec_instruction_views(extra@) + Seq::<SpecInstruction>::empty()
                =~= spec_instruction_views(extra@));
            assert(spec_library_views(composed_libs@) + Seq::<crate::library::SpecLibrary>::empty()
                =~= spec_library_views(composed_libs@));
        }
        append_instructions(&mut instructions, &extra);
        let tape_position = grow_tape(&mut tape, 0);
        let current_state = match initial {
            Some(st) => st,
            None => String::new(),
        };
        let m = TuringMachine {
            instructions,
            final_states: finals,
            current_state,
            previous_state: None,
            tape_position,
            tape,
            description,
            code: String::from_str(code),
            composed_libs,
            frequencies: Vec::new(),
            steps: 0,
        };
        proof {
            assert(spec_freq_views(m.frequencies@) =~= Seq::<(Seq<char>, nat)>::empty());
            assert(m@ == spec_build_with(s, cat)->Ok_0);
        }
        Ok(m)
    }

    /// Build a machine from source against the crate's own catalog.
    pub fn new(code: &str) -> (r: Result<TuringMachine, CompilerError>)
        requires
            code@.len() < usize::MAX,
        ensures
            match spec_build(code@) {
                Ok(m) => r is Ok && r->Ok_0@ == m && spec_wf(r->Ok_0@),
                Err(e) => r is Err && r->Err_0@ == e,
            },
    {
        let catalog = crate::library::libraries();
        Self::new_with_libraries(code, &catalog)
    }

    /// Forget all recorded visits, bringing the loop heuristic back to
    /// silent. Used after the caller acknowledges a loop warning.
    pub fn reset_frequencies(&mut self)
        ensures
            final(self)@ == (SpecMachine { frequencies: Seq::empty(), ..old(self)@ }),
    {
        self.frequencies = Vec::new();
        proof {
            assert(spec_freq_views(self.frequencies@) =~= Seq::<(Seq<char>, nat)>::empty());
        }
    }

    /// The machine a fresh, empty editor shows.
    pub fn none() -> (r: TuringMachine)
        ensures
            r@ == spec_none_machine(),
            spec_wf(r@),
    {
        let state = String::from_str("f");
        let mut instructions: Vec<TuringInstruction> = Vec::new();
        instructions.push(
            TuringInstruction {
                from_state: state.clone(),
                from_value: false,
                to_value: false,
                movement: Movement::HALT,
                to_state: state.clone(),
            },
        );
        let mut final_states: Vec<String> = Vec::new();
        final_states.push(state.clone());
        let mut tape: Vec<bool> = Vec::new();
        let mut k: usize = 0;
        while k < 7
            invariant
                k <= 7,
                tape@ =~= spec_zeros(k as int),
            decreases 7 - k,
        {
            tape.push(false);
            proof {
                assert(tape@ =~= spec_zeros(k + 1));
            }
            k = k + 1;
        }
        let m = TuringMachine {
            instructions,
            final_states,
            current_state: state,
            previous_state: None,
            tape_position: 3,
            tape,
            description: None,
            code: String::new(),
            composed_libs: Vec::new(),
            frequencies: Vec::new(),
            steps: 0,
        };
        proof {
            assert(spec_instruction_views(m.instructions@) =~= spec_none_machine().instructions);
            assert(spec_string_views(m.final_states@) =~= spec_none_machine().final_states);
            assert(spec_library_views(m.composed_libs@) =~= Seq::<
                crate::library::SpecLibrary,
            >::empty());
            assert(spec_freq_views(m.frequencies@) =~= Seq::<(Seq<char>, nat)>::empty());
            assert(m@ == spec_none_machine());
        }
        m
    }

    /// The symbol at cell `i`, where the tape has one.
    pub fn get(&self, i: usize) -> (r: Option<bool>)
        ensures
            r == (if i < self@.tape.len() {
                Some(self@.tape[i as int])
            } else {
                None::<bool>
            }),
    {
        if i < self.tape.len() {
            Some(self.tape[i])
        } else {
            None
        }
    }

    /// The description line of the source, if it had one.
    pub fn description(&self) -> (r: Option<&String>)
        ensures
            match r {
                Some(d) => self@.description == Some(d@),
                None => self@.description is None,
            },
    {
        match &self.description {
            Some(d) => Some(d),
            None => None,
        }
    }

    /// The source the machine was built from.
    pub fn code(&self) -> (r: &str)
        ensures
            r@ == self@.code,
    {
        self.code.as_str()
    }

    /// The unary decoding of the tape: every maximal run of `k > 0` marks,
    /// separated by blanks, is one value `k - 1`.
    pub fn values(&self) -> (r: Vec<u32>)
        ensures
            r@ == spec_values(self@.tape),
    {
        let ghost t = self.tape@;
        let n = self.tape.len();
        let mut out: Vec<u32> = Vec::new();
        let mut run: usize = 0;
        let mut i: usize = 0;
        proof {
            assert(Seq::<u32>::empty() + spec_values_from(t, 0, 0) =~= spec_values_from(t, 0, 0));
        }
        while i < n
            invariant
                t == self.tape@,
                i <= n == t.len(),
                run <= i,
                spec_values(t) == out@ + spec_values_from(t, i as int, run as nat),
            decreases n - i,
        {
            if self.tape[i] {
                run = run + 1;
            } else {
                if run > 0 {
                    let ghost pre = out@;
                    let v = run - 1;
                    let val = if v > u32::MAX as usize {
                        u32::MAX
                    } else {
                        v as u32
                    };
                    out.push(val);
                    proof {
                        assert(val == spec_sat_u32((run - 1) as nat));
                        assert(pre + (seq![val] + spec_values_from(t, i + 1, 0)) =~= out@
                            + spec_values_from(t, i + 1, 0));
                    }
                }
                run = 0;
            }
            i = i + 1;
        }
        if run > 0 {
            let ghost pre = out@;
            let v = run - 1;
            let val = if v > u32::MAX as usize {
                u32::MAX
            } else {
                v as u32
            };
            out.push(val);
            proof {
                assert(val == spec_sat_u32((run - 1) as nat));
                assert(pre + seq![val] =~= out@);
            }
        } else {
            proof {
                assert(out@ + Seq::<u32>::empty() =~= out@);
            }
        }
        out
    }

    /// The tape's value: undefined while the machine is stuck, else the
    /// steps taken so far and the count of marks on the tape, clamped to
    /// `u32`.
    pub fn tape_value(&self) -> (r: TuringOutput)
        requires
            spec_wf(self@),
        ensures
            r == spec_tape_value(self@),
    {
        if self.is_undefined() {
            TuringOutput::Undefined(self.steps)
        } else {
            let ones = count_ones(&self.tape);
            let val = if ones > u32::MAX as usize {
                u32::MAX
            } else {
                ones as u32
            };
            TuringOutput::Defined((self.steps, val))
        }
    }

    /// The two-line text rendering of the tape with the head marked by `^`.
    pub fn to_string(&self) -> (r: String)
        ensures
            r@ == spec_render(self@.tape, self@.tape_position),
    {
        let ghost t = self.tape@;
        let ghost pos = self.tape_position as int;
        let n = self.tape.len();
        let mut row1 = String::new();
        let mut row2 = String::new();
        let mut i: usize = 0;
        while i < n
            invariant
                t == self.tape@,
                pos == self.tape_position as int,
                i <= n == t.len(),
                row1@ == spec_render_cells(t, i as int),
                row2@ == spec_render_marks(pos, i as int),
            decreases n - i,
        {
            if self.tape[i] {
                row1.append("1 ");
            } else {
                row1.append("0 ");
            }
            if i == self.tape_position {
                row2.append("^ ");
            } else {
                row2.append("  ");
            }
            proof {
                reveal_strlit("1 ");
                reveal_strlit("0 ");
                reveal_strlit("^ ");
                reveal_strlit("  ");
                assert(row1@ =~= spec_render_cells(t, i + 1));
                assert(row2@ =~= spec_render_marks(pos, i + 1));
            }
            i = i + 1;
        }
        row1.append("\n");
        let r = row1.concat(row2.as_str());
        proof {
            reveal_strlit("\n");
            assert(r@ =~= spec_render(t, pos));
        }
        r
    }

    /// Run `step()` until `finished()`, and report the steps taken and the
    /// tape's mark count. Does not consult the loop heuristic; it is the
    /// caller's business only to hand over a machine that finishes.
    pub fn final_result(&mut self) -> (r: (usize, u32))
        requires
            spec_wf(old(self)@),
            exists|k: nat| spec_finished(#[trigger] spec_step_n(old(self)@, k)),
        ensures
            spec_wf(final(self)@),
            spec_finished(final(self)@),
            exists|n: nat|
                #![trigger spec_step_n(old(self)@, n)]
                {
                    &&& final(self)@ == spec_step_n(old(self)@, n)
                    &&& (forall|j: nat|
                        j < n ==> !spec_finished(#[trigger] spec_step_n(old(self)@, j)))
                    &&& (n <= usize::MAX ==> r.0 == n)
                },
            r.1 == spec_sat_u32(spec_ones(final(self)@.tape)),
    {
        let ghost m0 = self@;
        let ghost fin: nat = choose|k: nat| spec_finished(#[trigger] spec_step_n(m0, k));
        let mut steps: usize = 0;
        let ghost mut n: nat = 0;
        while !self.finished()
            invariant
                spec_wf(self@),
                self@ == spec_step_n(m0, n),
                forall|j: nat| j < n ==> !spec_finished(#[trigger] spec_step_n(m0, j)),
                spec_finished(spec_step_n(m0, fin)),
                n <= fin,
                steps as nat == (if n <= usize::MAX as nat {
                    n
                } else {
                    usize::MAX as nat
                }),
            decreases fin - n,
        {
            proof {
                assert(!spec_finished(spec_step_n(m0, n)));
            }
            self.step();
            proof {
                n = n + 1;
                assert(spec_step_n(m0, n) == spec_step(spec_step_n(m0, (n - 1) as nat)));
            }
            steps = if steps == usize::MAX {
                steps
            } else {
                steps + 1
            };
        }
        let ones = count_ones(&self.tape);
        let val = if ones > u32::MAX as usize {
            u32::MAX
        } else {
            ones as u32
        };
        (steps, val)
    }
}

} // verus!
