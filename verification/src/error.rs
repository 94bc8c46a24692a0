//! Typed construction-time errors, carrying the source position (line and
//! column, both 1-based) and the offending source line.

use vstd::prelude::*;

verus! {

/// The 1-based line number of the character at index `i` of `s`.
pub open spec fn spec_line(s: Seq<char>, i: int) -> int
    decreases i,
{
    if i <= 0 {
        1
    } else if s[i - 1] == '\n' {
        spec_line(s, i - 1) + 1
    } else {
        spec_line(s, i - 1)
    }
}

/// The 1-based column number of the character at index `i` of `s`.
pub open spec fn spec_col(s: Seq<char>, i: int) -> int
    decreases i,
{
    if i <= 0 {
        1
    } else if s[i - 1] == '\n' {
        1
    } else {
        spec_col(s, i - 1) + 1
    }
}

/// The index of the first character of the line that holds index `i`.
pub open spec fn spec_line_start(s: Seq<char>, i: int) -> int {
    i + 1 - spec_col(s, i)
}

/// The index just past the last character of the line that holds index `i`:
/// the next line break at or after `i`, or the end of the text.
pub open spec fn spec_line_end(s: Seq<char>, i: int) -> int
    decreases s.len() - i,
{
    if i < 0 || i >= s.len() || s[i] == '\n' || s[i] == '\r' {
        i
    } else {
        spec_line_end(s, i + 1)
    }
}

/// The text of the line that holds index `i`, without its line break.
pub open spec fn spec_line_text(s: Seq<char>, i: int) -> Seq<char> {
    s.subrange(spec_line_start(s, i), spec_line_end(s, i))
}

pub proof fn lemma_col_bounds(s: Seq<char>, i: int)
    requires
        0 <= i,
    ensures
        1 <= spec_col(s, i) <= i + 1,
        1 <= spec_line(s, i) <= i + 1,
    decreases i,
{
    if i > 0 {
        lemma_col_bounds(s, i - 1);
    }
}

pub proof fn lemma_line_end_bounds(s: Seq<char>, i: int)
    requires
        0 <= i <= s.len(),
    ensures
        i <= spec_line_end(s, i) <= s.len(),
        spec_line_end(s, i) < s.len() ==> (s[spec_line_end(s, i)] == '\n' || s[spec_line_end(s, i)]
            == '\r'),
    decreases s.len() - i,
{
    if i < s.len() && s[i] != '\n' && s[i] != '\r' {
        lemma_line_end_bounds(s, i + 1);
    }
}

/// A span in the source text: a start position and an optional end
/// position, each a (line, column) pair, 1-based.
#[derive(Debug, Clone, Copy, PartialEq, Eq)]
pub struct ErrorPosition {
    pub start: (usize, usize),
    pub end: Option<(usize, usize)>,
}

/// The position whose start is the line and column of index `i` in `s` and
/// whose end, where `j` is given, is the line and column of index `j`.
pub open spec fn spec_position(s: Seq<char>, i: int, j: Option<int>) -> ErrorPosition {
    ErrorPosition {
        start: (spec_line(s, i) as usize, spec_col(s, i) as usize),
        end: match j {
            Some(j) => Some((spec_line(s, j) as usize, spec_col(s, j) as usize)),
            None => None,
        },
    }
}

/// The mathematical value of a construction-time error.
pub ghost enum SpecCompilerError {
    SyntaxError { expected: Seq<char>, found: Seq<char>, position: ErrorPosition, line: Seq<char> },
    SemanticError { message: Seq<char>, position: ErrorPosition, line: Seq<char> },
}

/// A construction-time error: either the grammar could not recognize a
/// construct (syntax), or it could but the content is invalid (semantic).
/// Both carry the source span and the offending source line.
#[derive(Debug, Clone, PartialEq)]
pub enum CompilerError {
    SyntaxError { expected: String, found: String, position: ErrorPosition, line: String },
    SemanticError { message: String, position: ErrorPosition, line: String },
}

impl View for CompilerError {
    type V = SpecCompilerError;

    open spec fn view(&self) -> SpecCompilerError {
        match self {
            CompilerError::SyntaxError { expected, found, position, line } => {
                SpecCompilerError::SyntaxError {
                    expected: expected@,
                    found: found@,
                    position: *position,
                    line: line@,
                }
            },
            CompilerError::SemanticError { message, position, line } => {
                SpecCompilerError::SemanticError {
                    message: message@,
                    position: *position,
                    line: line@,
                }
            },
        }
    }
}

impl CompilerError {
    /// Whether this is a syntax error.
    pub fn is_syntax_error(&self) -> (r: bool)
        ensures
            r == (self@ is SyntaxError),
    {
        match self {
            CompilerError::SyntaxError { .. } => true,
            CompilerError::SemanticError { .. } => false,
        }
    }

    /// Whether this is a semantic error.
    pub fn is_semantic_error(&self) -> (r: bool)
        ensures
            r == (self@ is SemanticError),
    {
        match self {
            CompilerError::SyntaxError { .. } => false,
            CompilerError::SemanticError { .. } => true,
        }
    }

    /// The source span the error points at.
    pub fn position(&self) -> (r: ErrorPosition)
        ensures
            r == match self@ {
                SpecCompilerError::SyntaxError { position, .. } => position,
                SpecCompilerError::SemanticError { position, .. } => position,
            },
    {
        match self {
            CompilerError::SyntaxError { position, .. } => *position,
            CompilerError::SemanticError { position, .. } => *position,
        }
    }
}

/// The line and column, both 1-based, of the character at index `i` of
/// `code`.
pub fn line_col_of(code: &str, i: usize) -> (r: (usize, usize))
    requires
        i <= code@.len(),
        code@.len() < usize::MAX,
    ensures
        r.0 == spec_line(code@, i as int),
        r.1 == spec_col(code@, i as int),
{
    let ghost s = code@;
    let mut k: usize = 0;
    let mut line: usize = 1;
    let mut col: usize = 1;
    while k < i
        invariant
            k <= i <= s.len() < usize::MAX,
            s == code@,
            line == spec_line(s, k as int),
            col == spec_col(s, k as int),
            line <= k + 1,
            col <= k + 1,
        decreases i - k,
    {
        let c = code.get_char(k);
        if c == '\n' {
            line = line + 1;
            col = 1;
        } else {
            col = col + 1;
        }
        k = k + 1;
    }
    (line, col)
}

/// The text of the line that holds index `i` of `code`, without its line
/// break.
pub fn line_text_of(code: &str, i: usize) -> (r: String)
    requires
        i <= code@.len(),
        code@.len() < usize::MAX,
    ensures
        r@ == spec_line_text(code@, i as int),
{
    let ghost s = code@;
    let (_, col) = line_col_of(code, i);
    proof {
        lemma_col_bounds(s, i as int);
        lemma_line_end_bounds(s, i as int);
    }
    let start: usize = i + 1 - col;
    let j = line_end_of(code, i);
    let sub = code.substring_char(start, j);
    String::from_str(sub)
}

/// The index just past the last character of the line that holds index `i`.
pub fn line_end_of(code: &str, i: usize) -> (j: usize)
    requires
        i <= code@.len(),
    ensures
        j as int == spec_line_end(code@, i as int),
        i <= j <= code@.len(),
{
    let ghost s = code@;
    proof {
        lemma_line_end_bounds(s, i as int);
    }
    let mut j: usize = i;
    let len = code.unicode_len();
    loop
        invariant
            s == code@,
            i as int <= j <= s.len() == len,
            spec_line_end(s, j as int) == spec_line_end(s, i as int),
        ensures
            spec_line_end(s, i as int) == j as int,
            j <= s.len(),
        decreases len - j,
    {
        if j >= len {
            break ;
        }
        let c = code.get_char(j);
        if c == '\n' || c == '\r' {
            break ;
        }
        j = j + 1;
    }
    j
}

/// The position whose start is index `i` of `code` and whose end, where
/// given, is index `j`.
pub fn position_of(code: &str, i: usize, j: Option<usize>) -> (r: ErrorPosition)
    requires
        i <= code@.len(),
        code@.len() < usize::MAX,
        j is Some ==> j.unwrap() <= code@.len(),
    ensures
        r == spec_position(
            code@,
            i as int,
            match j {
                Some(j) => Some(j as int),
                None => None,
            },
        ),
{
    let start = line_col_of(code, i);
    proof {
        lemma_col_bounds(code@, i as int);
    }
    let end = match j {
        Some(j) => {
            proof {
                lemma_col_bounds(code@, j as int);
            }
            Some(line_col_of(code, j))
        },
        None => None,
    };
    ErrorPosition { start, end }
}

} // verus!
