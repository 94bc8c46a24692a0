use turing_machine::error::CompilerError;
use turing_machine::library::libraries;
use turing_machine::output::TuringOutput;
use turing_machine::turing::TuringMachine;

const EXAMPLE: &str = "{11111011};\n\
                       I = {q0}; F = {q2};\n\
                       (q0, 1, 0, R, q1);\n\
                       (q1, 1, 1, R, q1);\n\
                       (q1, 0, 0, R, q2);\n\
                       (q2, 1, 0, H, q2);\n\
                       (q2, 0, 0, H, q2);\n";

#[test]
fn end_to_end_example() {
    let mut tm = TuringMachine::new(EXAMPLE).expect("the example should build");
    assert_eq!(
        tm.to_string(),
        "0 0 0 1 1 1 1 1 0 1 1 \n      ^               "
    );
    assert!(!tm.finished());
    let (steps, value) = tm.final_result();
    assert_eq!(steps, 7);
    assert_eq!(value, 5);
    assert!(tm.finished());
    assert_eq!(tm.tape_value(), TuringOutput::Defined((7, 5)));
}

#[test]
fn margin_invariant_holds_after_every_step() {
    // A machine that walks left forever, forcing the tape to grow.
    let src = "{1}; I = {q0}; F = {qf};\n\
               (q0, 1, 1, L, q1); (q0, 0, 0, L, q1);\n\
               (q1, 1, 1, L, q0); (q1, 0, 0, L, q0);";
    let mut tm = TuringMachine::new(src).expect("the walker should build");
    for _ in 0..32 {
        tm.step();
        assert!(tm.tape_position >= 3);
        assert!(tm.tape_position + 4 <= tm.tape.len());
    }
}

#[test]
fn determinism() {
    let mut a = TuringMachine::new(EXAMPLE).expect("the example should build");
    let mut b = TuringMachine::new(EXAMPLE).expect("the example should build");
    for _ in 0..5 {
        a.step();
        b.step();
        assert_eq!(a.tape, b.tape);
        assert_eq!(a.tape_position, b.tape_position);
        assert_eq!(a.current_state, b.current_state);
    }
}

#[test]
fn implicit_halt_in_final_state() {
    // The final state has no rule for the `1` under the head.
    let src = "{1}; I = {q0}; F = {q0};";
    let mut tm = TuringMachine::new(src).expect("the machine should build");
    assert!(!tm.finished());
    let before_tape = tm.tape.clone();
    let before_pos = tm.tape_position;
    tm.step();
    assert_eq!(tm.tape, before_tape);
    assert_eq!(tm.tape_position, before_pos);
    assert_eq!(tm.current_state, "q0");
    assert!(tm.finished());
}

#[test]
fn unary_decode() {
    // Tape 0 1 1 0 1 1 1 0: two runs, of lengths 2 and 3.
    let src = "{01101110}; I = {q0}; F = {q0};";
    let tm = TuringMachine::new(src).expect("the machine should build");
    assert_eq!(tm.values(), vec![1, 2]);
}

#[test]
fn loop_detection() {
    // Oscillates q0 -> q1 -> q0 -> ... forever.
    let src = "{1}; I = {q0}; F = {qf};\n\
               (q0, 1, 1, H, q1); (q1, 1, 1, H, q0);";
    let mut tm = TuringMachine::new(src).expect("the oscillator should build");
    let threshold = 5;
    // q1 is entered on the 1st, 3rd, 5th, 7th and 9th step: its count
    // reaches the threshold exactly on step 9.
    for k in 1..=9 {
        tm.step();
        assert_eq!(tm.is_infinite_loop(threshold), k == 9);
    }
    tm.reset_frequencies();
    assert!(!tm.is_infinite_loop(threshold));
}

#[test]
fn rejects_tape_without_a_mark() {
    let err = TuringMachine::new("{0000};").expect_err("an all-zero tape is vacuous");
    match err {
        CompilerError::SemanticError {
            message,
            position,
            line,
        } => {
            assert_eq!(message, "the tape must hold at least one 1");
            assert_eq!(position.start, (1, 1));
            assert_eq!(position.end, Some((1, 8)));
            assert_eq!(line, "{0000};");
        }
        other => panic!("expected a semantic error, got {:?}", other),
    }
    assert!(TuringMachine::new("{};").is_err());
    // A source with no tape at all is the same vacuous computation.
    let err = TuringMachine::new("").expect_err("an empty source has no marks");
    assert!(err.is_semantic_error());
}

#[test]
fn undefined_transition_is_observable() {
    // No rule for (q0, 1) and q0 is not final: the machine is stuck, not
    // broken.
    let src = "{1}; I = {q0}; F = {qf};";
    let mut tm = TuringMachine::new(src).expect("the machine should build");
    assert!(tm.is_undefined());
    assert_eq!(tm.tape_value(), TuringOutput::Undefined(0));
    assert!(tm.get_current_instruction().is_none());
    let before = tm.clone();
    tm.step();
    assert_eq!(tm, before);
    assert_eq!(tm.tape_value(), TuringOutput::Undefined(0));
}

#[test]
fn compose_splices_a_library() {
    let src = "{11011}; I = {q0}; F = {q2}; compose = {sum};";
    let mut tm = TuringMachine::new(src).expect("the composition should build");
    assert_eq!(tm.composed_libs.len(), 1);
    assert_eq!(tm.composed_libs[0].name, "sum");
    assert_eq!(
        tm.composed_libs[0].used_states,
        vec![
            String::from("q0"),
            String::from("q1"),
            String::from("q2")
        ]
    );
    let (steps, value) = tm.final_result();
    assert_eq!(steps, 4);
    assert_eq!(value, 3);
    assert_eq!(tm.values(), vec![0, 1]);
}

#[test]
fn unknown_compose_target_is_a_semantic_error() {
    let src = "{1}; I = {q0}; F = {q0};\ncompose = {nope};";
    let err = TuringMachine::new(src).expect_err("an unknown library must be rejected");
    match err {
        CompilerError::SemanticError {
            message,
            position,
            line,
        } => {
            assert_eq!(message, "unknown composition library");
            assert_eq!(position.start, (2, 1));
            assert_eq!(line, "compose = {nope};");
        }
        other => panic!("expected a semantic error, got {:?}", other),
    }
}

#[test]
fn later_rules_override_earlier_ones() {
    let src = "{1}; I = {q0}; F = {qf};\n\
               (q0, 1, 0, H, qf);\n\
               (q0, 1, 1, H, qf);";
    let mut tm = TuringMachine::new(src).expect("the machine should build");
    tm.step();
    // The later rule wrote 1, not 0.
    assert_eq!(tm.tape_value(), TuringOutput::Defined((1, 1)));
}

#[test]
fn description_is_captured_once() {
    let src = "/// adds two numbers\n/// second try\n{11}; I = {a}; F = {a};";
    let tm = TuringMachine::new(src).expect("the machine should build");
    assert_eq!(tm.description(), Some(&String::from("adds two numbers")));
    assert_eq!(tm.code(), src);
}

#[test]
fn empty_machine_halts_at_once() {
    let mut tm = TuringMachine::none();
    assert_eq!(tm.current_state, "f");
    assert!(!tm.finished());
    tm.step();
    assert!(tm.finished());
    assert_eq!(tm.tape_value(), TuringOutput::Defined((1, 0)));
    assert_eq!(tm.values(), Vec::<u32>::new());
}

#[test]
fn get_reads_cells() {
    let tm = TuringMachine::new("{101}; I = {a}; F = {a};").expect("the machine should build");
    // Three margin cells are prepended and one appended, so the literal
    // starts at cell 3.
    assert_eq!(tm.tape.len(), 7);
    assert_eq!(tm.tape_position, 3);
    assert_eq!(tm.get(3), Some(true));
    assert_eq!(tm.get(4), Some(false));
    assert_eq!(tm.get(5), Some(true));
    assert_eq!(tm.get(7), None);
}

#[test]
fn loop_threshold_of_zero_needs_a_visit() {
    let src = "{1}; I = {q0}; F = {qf};\n\
               (q0, 1, 1, H, q1); (q1, 1, 1, H, q0);";
    let mut tm = TuringMachine::new(src).expect("the oscillator should build");
    // No state has been entered yet, so even a zero threshold stays quiet.
    assert!(!tm.is_infinite_loop(0));
    tm.step();
    assert!(tm.is_infinite_loop(0));
    assert!(tm.is_infinite_loop(1));
    assert!(!tm.is_infinite_loop(2));
}

#[test]
fn default_output_is_undefined() {
    assert_eq!(TuringOutput::default(), TuringOutput::Undefined(0));
}

#[test]
fn the_catalog_is_fixed() {
    let libs = libraries();
    assert_eq!(libs.len(), 1);
    assert_eq!(libs[0].name, "sum");
    assert_eq!(libs[0].initial_state, "q0");
    assert_eq!(libs[0].final_state, "q2");
    assert_eq!(libs[0].instructions.len(), 3);
}
