//! The instruction model: one transition rule of a Turing machine, together
//! with its textual round-trip form `(from_state, from_symbol, to_symbol,
//! movement, to_state)`.

use vstd::prelude::*;

verus! {

/// The possible movements of the tape head.
#[derive(Debug, Clone, Copy, PartialEq, Eq, Structural)]
pub enum Movement {
    RIGHT,
    LEFT,
    HALT,
}

/// The mathematical value of one transition rule.
pub ghost struct SpecInstruction {
    pub from_state: Seq<char>,
    pub from_value: bool,
    pub to_value: bool,
    pub movement: Movement,
    pub to_state: Seq<char>,
}

/// A Turing machine instruction: in state `from_state`, reading
/// `from_value`, write `to_value`, move the head by `movement` and go to
/// `to_state`.
#[derive(Debug, Clone, PartialEq)]
pub struct TuringInstruction {
    pub from_state: String,
    pub from_value: bool,
    pub to_value: bool,
    pub movement: Movement,
    pub to_state: String,
}

impl View for TuringInstruction {
    type V = SpecInstruction;

    open spec fn view(&self) -> SpecInstruction {
        SpecInstruction {
            from_state: self.from_state@,
            from_value: self.from_value,
            to_value: self.to_value,
            movement: self.movement,
            to_state: self.to_state@,
        }
    }
}

/// The movement a letter denotes: `R` and `L` move the head; any other
/// letter means halt in place, a documented permissive fallback.
pub open spec fn spec_movement_of(t: Seq<char>) -> Movement {
    if t.len() == 1 && t[0] == 'R' {
        Movement::RIGHT
    } else if t.len() == 1 && t[0] == 'L' {
        Movement::LEFT
    } else {
        Movement::HALT
    }
}

/// The letter that renders a movement.
pub open spec fn spec_movement_char(m: Movement) -> char {
    match m {
        Movement::RIGHT => 'R',
        Movement::LEFT => 'L',
        Movement::HALT => 'H',
    }
}

/// The character that renders a tape symbol.
pub open spec fn spec_bit_char(b: bool) -> char {
    if b {
        '1'
    } else {
        '0'
    }
}

/// The synthetic halt-in-place rule for `(state, symbol)`: it rewrites the
/// symbol unchanged, does not move, and stays in the same state.
pub open spec fn spec_halt_instruction(state: Seq<char>, value: bool) -> SpecInstruction {
    SpecInstruction {
        from_state: state,
        from_value: value,
        to_value: value,
        movement: Movement::HALT,
        to_state: state,
    }
}

/// The textual round-trip form of an instruction.
pub open spec fn spec_instruction_text(i: SpecInstruction) -> Seq<char> {
    seq!['('] + i.from_state + seq![',', ' ', spec_bit_char(i.from_value)] + seq![
        ',',
        ' ',
        spec_bit_char(i.to_value),
    ] + seq![',', ' ', spec_movement_char(i.movement), ',', ' '] + i.to_state + seq![')']
}

impl Movement {
    /// Parse a movement letter; anything but `R` or `L` halts.
    pub fn from_str(input: &str) -> (m: Movement)
        ensures
            m == spec_movement_of(input@),
    {
        if input.unicode_len() == 1 {
            let c = input.get_char(0);
            if c == 'R' {
                Movement::RIGHT
            } else if c == 'L' {
                Movement::LEFT
            } else {
                Movement::HALT
            }
        } else {
            Movement::HALT
        }
    }

    /// The letter that renders this movement.
    pub fn as_letter(self) -> (c: char)
        ensures
            c == spec_movement_char(self),
    {
        match self {
            Movement::RIGHT => 'R',
            Movement::LEFT => 'L',
            Movement::HALT => 'H',
        }
    }
}

impl TuringInstruction {
    /// Create the halt instruction used when a final state has no explicit
    /// rule for the encountered symbol.
    pub fn halt(index: (String, bool)) -> (r: Self)
        ensures
            r@ == spec_halt_instruction(index.0@, index.1),
    {
        Self {
            from_state: index.0.clone(),
            from_value: index.1,
            to_value: index.1,
            movement: Movement::HALT,
            to_state: index.0,
        }
    }

    /// An owned copy whose value equals this instruction's.
    pub fn duplicate(&self) -> (r: Self)
        ensures
            r@ == self@,
    {
        Self {
            from_state: self.from_state.clone(),
            from_value: self.from_value,
            to_value: self.to_value,
            movement: self.movement,
            to_state: self.to_state.clone(),
        }
    }

    /// Render the instruction as `(from_state, from_symbol, to_symbol,
    /// movement, to_state)`.
    pub fn to_string(&self) -> (r: String)
        ensures
            r@ == spec_instruction_text(self@),
    {
        let mut s = String::new();
        s.append("(");
        s.append(self.from_state.as_str());
        s.append(", ");
        s.append(if self.from_value { "1" } else { "0" });
        s.append(", ");
        s.append(if self.to_value { "1" } else { "0" });
        s.append(", ");
        s.append(match self.movement {
            Movement::RIGHT => "R",
            Movement::LEFT => "L",
            Movement::HALT => "H",
        });
        s.append(", ");
        s.append(self.to_state.as_str());
        s.append(")");
        proof {
            reveal_strlit("(");
            reveal_strlit(")");
            reveal_strlit(", ");
            reveal_strlit("0");
            reveal_strlit("1");
            reveal_strlit("R");
            reveal_strlit("L");
            reveal_strlit("H");
            assert(s@ =~= spec_instruction_text(self@));
        }
        s
    }
}

} // verus!
