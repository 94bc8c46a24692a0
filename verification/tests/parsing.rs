use turing_machine::error::CompilerError;
use turing_machine::instruction::{Movement, TuringInstruction};
use turing_machine::lexer::{lex, TokenKind};
use turing_machine::parser::{Record, RecordKind, TuringParser};
use turing_machine::turing::TuringMachine;

fn parse_one(src: &str) -> Record {
    let records = TuringParser::parse(src).expect("the source should parse");
    assert_eq!(records.len(), 1);
    records.into_iter().next().unwrap()
}

#[test]
fn parse_description() {
    let test = "/// a + b\r\n";
    let tokens = lex(test).expect("the description should lex");
    assert_eq!(tokens.len(), 1);
    assert!(matches!(tokens[0].kind, TokenKind::Description));
    assert_eq!((tokens[0].start, tokens[0].end), (0, 11));
    let record = parse_one(test);
    assert_eq!((record.start, record.end), (0, 11));
    assert_eq!(record.kind, RecordKind::Description(String::from("a + b")));
}

#[test]
fn parse_tape() {
    let test = "{111011};";
    let record = parse_one(test);
    assert_eq!((record.start, record.end), (0, 9));
    assert_eq!(
        record.kind,
        RecordKind::Tape(vec![true, true, true, false, true, true])
    );
}

#[test]
fn parse_initial_state() {
    let test = "I = {q0};";
    let record = parse_one(test);
    assert_eq!((record.start, record.end), (0, 9));
    assert_eq!(record.kind, RecordKind::InitialState(String::from("q0")));
}

#[test]
fn parse_final_state() {
    let test = "F = {q2};";
    let record = parse_one(test);
    assert_eq!((record.start, record.end), (0, 9));
    assert_eq!(
        record.kind,
        RecordKind::FinalStates(vec![String::from("q2")])
    );
}

#[test]
fn parse_instruction() {
    let test = "(q0, 1, 0, R, q1);";
    let record = parse_one(test);
    assert_eq!((record.start, record.end), (0, 18));
    match record.kind {
        RecordKind::Instruction(i) => {
            assert_eq!(i.from_state, "q0");
            assert!(i.from_value);
            assert!(!i.to_value);
            assert_eq!(i.movement, Movement::RIGHT);
            assert_eq!(i.to_state, "q1");
        }
        other => panic!("expected an instruction record, got {:?}", other),
    }
}

#[test]
fn parse_file() {
    let unparsed_file = "{11111011};\n\
                         I = {q0};\n\
                         F = {q2};\n\
                         \n\
                         (q0, 1, 0, R, q1);\n\
                         (q1, 1, 1, R, q1);\n\
                         (q1, 0, 0, R, q2);\n\
                         (q2, 1, 0, H, q2);\n\
                         (q2, 0, 0, H, q2);\n";
    let tm = TuringMachine::new(unparsed_file).expect("the machine should build");
    assert_eq!(
        tm.to_string(),
        "0 0 0 1 1 1 1 1 0 1 1 \n      ^               "
    );
}

#[test]
fn instruction_round_trip() {
    let i = TuringInstruction {
        from_state: String::from("q0"),
        from_value: true,
        to_value: false,
        movement: Movement::RIGHT,
        to_state: String::from("q1"),
    };
    let rendered = i.to_string();
    assert_eq!(rendered, "(q0, 1, 0, R, q1)");
    let record = parse_one(&format!("{};", rendered));
    assert_eq!(record.kind, RecordKind::Instruction(i));
}

#[test]
fn halt_round_trip() {
    let i = TuringInstruction::halt((String::from("stop_7"), false));
    let record = parse_one(&format!("{};", i.to_string()));
    assert_eq!(record.kind, RecordKind::Instruction(i));
}

#[test]
fn movement_letters() {
    assert_eq!(Movement::from_str("R"), Movement::RIGHT);
    assert_eq!(Movement::from_str("L"), Movement::LEFT);
    assert_eq!(Movement::from_str("H"), Movement::HALT);
    // Any other letter is the documented permissive fallback to halt.
    assert_eq!(Movement::from_str("N"), Movement::HALT);
    assert_eq!(Movement::from_str("RL"), Movement::HALT);
    assert_eq!(Movement::RIGHT.as_letter(), 'R');
    assert_eq!(Movement::LEFT.as_letter(), 'L');
    assert_eq!(Movement::HALT.as_letter(), 'H');
}

#[test]
fn lex_error_positions() {
    let src = "{11};\nI = {q0}:";
    let err = TuringParser::parse(src).expect_err("the stray colon should not lex");
    match err {
        CompilerError::SyntaxError {
            expected,
            found,
            position,
            line,
        } => {
            assert_eq!(expected, "a token");
            assert_eq!(found, ":");
            assert_eq!(position.start, (2, 9));
            assert_eq!(position.end, Some((2, 10)));
            assert_eq!(line, "I = {q0}:");
        }
        other => panic!("expected a syntax error, got {:?}", other),
    }
}

#[test]
fn parse_error_at_end_of_file() {
    let err = TuringParser::parse("I = {q0}").expect_err("the missing `;` should not parse");
    match err {
        CompilerError::SyntaxError {
            expected, found, ..
        } => {
            assert_eq!(expected, "`;`");
            assert_eq!(found, "end of file");
        }
        other => panic!("expected a syntax error, got {:?}", other),
    }
}

#[test]
fn unrecognized_record_is_an_error() {
    let err = TuringParser::parse("{11}; bogus;").expect_err("a stray word is not a record");
    match err {
        CompilerError::SyntaxError {
            expected, found, ..
        } => {
            assert_eq!(expected, "a record");
            assert_eq!(found, "bogus");
        }
        other => panic!("expected a syntax error, got {:?}", other),
    }
}

#[test]
fn comments_and_blank_lines_are_skipped() {
    let src = "// a comment\n\n{11}; // trailing\nI = {a}; F = {a};";
    let records = TuringParser::parse(src).expect("comments should be skipped");
    assert_eq!(records.len(), 3);
}
