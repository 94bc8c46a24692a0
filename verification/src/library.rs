//! The library registry: a fixed catalog of named, pre-defined instruction
//! sets that a machine description can splice into its own transition table
//! with a `compose` declaration. Each entry is independently valid, with
//! its own initial and final state, and declares which state names it uses
//! internally so that an author can avoid reusing them.

use vstd::prelude::*;

use crate::instruction::{Movement, SpecInstruction, TuringInstruction};
use crate::parser::spec_string_views;

verus! {

/// The mathematical value of a catalog entry.
pub ghost struct SpecLibrary {
    pub name: Seq<char>,
    pub description: Seq<char>,
    pub initial_state: Seq<char>,
    pub final_state: Seq<char>,
    pub used_states: Seq<Seq<char>>,
    pub instructions: Seq<SpecInstruction>,
}

/// A reusable, read-only instruction set that `compose` can splice into a
/// machine. Its state names are used as they stand, never renamed.
#[derive(Debug, Clone, PartialEq)]
pub struct Library {
    pub name: String,
    pub description: String,
    pub initial_state: String,
    pub final_state: String,
    pub used_states: Vec<String>,
    pub instructions: Vec<TuringInstruction>,
}

/// The views of a sequence of instructions.
pub open spec fn spec_instruction_views(v: Seq<TuringInstruction>) -> Seq<SpecInstruction> {
    Seq::new(v.len(), |k: int| v[k]@)
}

impl View for Library {
    type V = SpecLibrary;

    open spec fn view(&self) -> SpecLibrary {
        SpecLibrary {
            name: self.name@,
            description: self.description@,
            initial_state: self.initial_state@,
            final_state: self.final_state@,
            used_states: spec_string_views(self.used_states@),
            instructions: spec_instruction_views(self.instructions@),
        }
    }
}

/// The views of a sequence of libraries.
pub open spec fn spec_library_views(v: Seq<Library>) -> Seq<SpecLibrary> {
    Seq::new(v.len(), |k: int| v[k]@)
}

/// The unary-addition library: started on the leftmost mark of two unary
/// runs separated by one `0`, it erases that mark, walks right across the
/// first run, steps over the separator, and ends on the first mark of the
/// second run.
pub open spec fn spec_sum_library() -> SpecLibrary {
    SpecLibrary {
        name: "sum"@,
        description: "Unary addition: erases one leading mark and parks on the second run"@,
        initial_state: "q0"@,
        final_state: "q2"@,
        used_states: seq!["q0"@, "q1"@, "q2"@],
        instructions: seq![
            SpecInstruction {
                from_state: "q0"@,
                from_value: true,
                to_value: false,
                movement: Movement::RIGHT,
                to_state: "q1"@,
            },
            SpecInstruction {
                from_state: "q1"@,
                from_value: true,
                to_value: true,
                movement: Movement::RIGHT,
                to_state: "q1"@,
            },
            SpecInstruction {
                from_state: "q1"@,
                from_value: false,
                to_value: false,
                movement: Movement::RIGHT,
                to_state: "q2"@,
            },
        ],
    }
}

/// The whole catalog.
pub open spec fn spec_libraries() -> Seq<SpecLibrary> {
    seq![spec_sum_library()]
}

impl Library {
    /// An owned copy whose value equals this library's.
    pub fn duplicate(&self) -> (r: Self)
        ensures
            r@ == self@,
    {
        let r = Library {
            name: self.name.clone(),
            description: self.description.clone(),
            initial_state: self.initial_state.clone(),
            final_state: self.final_state.clone(),
            used_states: clone_strings(&self.used_states),
            instructions: clone_instructions(&self.instructions),
        };
        r
    }
}

/// An owned copy of a vector of strings, value for value.
pub fn clone_strings(v: &Vec<String>) -> (r: Vec<String>)
    ensures
        spec_string_views(r@) == spec_string_views(v@),
        r@.len() == v@.len(),
{
    let mut r: Vec<String> = Vec::new();
    let n = v.len();
    let mut k: usize = 0;
    while k < n
        invariant
            k <= n == v@.len(),
            r@.len() == k,
            forall|j: int| 0 <= j < k ==> r@[j]@ == v@[j]@,
        decreases n - k,
    {
        r.push(v[k].clone());
        k = k + 1;
    }
    proof {
        assert(spec_string_views(r@) =~= spec_string_views(v@));
    }
    r
}

/// An owned copy of a vector of instructions, value for value.
pub fn clone_instructions(v: &Vec<TuringInstruction>) -> (r: Vec<TuringInstruction>)
    ensures
        spec_instruction_views(r@) == spec_instruction_views(v@),
        r@.len() == v@.len(),
{
    let mut r: Vec<TuringInstruction> = Vec::new();
    let n = v.len();
    let mut k: usize = 0;
    while k < n
        invariant
            k <= n == v@.len(),
            r@.len() == k,
            forall|j: int| 0 <= j < k ==> r@[j]@ == v@[j]@,
        decreases n - k,
    {
        r.push(v[k].duplicate());
        k = k + 1;
    }
    proof {
        assert(spec_instruction_views(r@) =~= spec_instruction_views(v@));
    }
    r
}

/// Build the catalog of composition libraries. The catalog is immutable
/// and meant to be built once and passed by reference to the machine
/// builder.
pub fn libraries() -> (r: Vec<Library>)
    ensures
        spec_library_views(r@) == spec_libraries(),
{
    let mut instructions: Vec<TuringInstruction> = Vec::new();
    instructions.push(
        TuringInstruction {
            from_state: String::from_str("q0"),
            from_value: true,
            to_value: false,
            movement: Movement::RIGHT,
            to_state: String::from_str("q1"),
        },
    );
    instructions.push(
        TuringInstruction {
            from_state: String::from_str("q1"),
            from_value: true,
            to_value: true,
            movement: Movement::RIGHT,
            to_state: String::from_str("q1"),
        },
    );
    instructions.push(
        TuringInstruction {
            from_state: String::from_str("q1"),
            from_value: false,
            to_value: false,
            movement: Movement::RIGHT,
            to_state: String::from_str("q2"),
        },
    );
    let mut used_states: Vec<String> = Vec::new();
    used_states.push(String::from_str("q0"));
    used_states.push(String::from_str("q1"));
    used_states.push(String::from_str("q2"));
    let sum = Library {
        name: String::from_str("sum"),
        description: String::from_str(
            "Unary addition: erases one leading mark and parks on the second run",
        ),
        initial_state: String::from_str("q0"),
        final_state: String::from_str("q2"),
        used_states,
        instructions,
    };
    proof {
        assert(spec_instruction_views(sum.instructions@) =~= spec_sum_library().instructions);
        assert(spec_string_views(sum.used_states@) =~= spec_sum_library().used_states);
        assert(sum@ == spec_sum_library());
    }
    let mut r: Vec<Library> = Vec::new();
    r.push(sum);
    proof {
        assert(spec_library_views(r@) =~= spec_libraries());
    }
    r
}

/// The first catalog entry with the given name, if any.
pub open spec fn spec_find_library(libs: Seq<SpecLibrary>, name: Seq<char>) -> Option<SpecLibrary>
    decreases libs.len(),
{
    if libs.len() == 0 {
        None
    } else if libs[0].name == name {
        Some(libs[0])
    } else {
        spec_find_library(libs.drop_first(), name)
    }
}

/// Look a library up by name.
pub fn find_library<'a>(libs: &'a Vec<Library>, name: &str) -> (r: Option<&'a Library>)
    ensures
        match spec_find_library(spec_library_views(libs@), name@) {
            Some(l) => r is Some && r->0@ == l,
            None => r is None,
        },
{
    let ghost lv = spec_library_views(libs@);
    proof {
        assert(lv.skip(0) =~= lv);
    }
    let n = libs.len();
    let mut k: usize = 0;
    while k < n
        invariant
            k <= n == libs@.len(),
            lv == spec_library_views(libs@),
            spec_find_library(lv, name@) == spec_find_library(lv.skip(k as int), name@),
        decreases n - k,
    {
        if crate::lexer::str_eq(libs[k].name.as_str(), name) {
            proof {
                assert(lv.skip(k as int)[0] == lv[k as int]);
            }
            return Some(&libs[k]);
        }
        proof {
            assert(lv.skip(k as int).drop_first() =~= lv.skip(k + 1));
            assert(lv.skip(k as int)[0] == lv[k as int]);
        }
        k = k + 1;
    }
    proof {
        assert(lv.skip(n as int).len() == 0);
    }
    None
}

} // verus!
