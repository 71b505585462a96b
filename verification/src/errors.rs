//! The one error type of the pipeline, and the location marker drawn under an
//! offending piece of input.

use vstd::prelude::*;
use vstd::string::StringExecFns;
use crate::text::{char_width, chars_of, columns_of};

verus! {

/// What went wrong. The first two come from the lexer, the next eight from
/// the parser, the last three from evaluation.
#[derive(Debug, PartialEq, Eq, Clone, Copy, Structural)]
pub enum ErrorKind {
    /// A run of digits and points that is not a decimal literal.
    InvalidNumber,
    /// A character that starts no token.
    InvalidChar,
    /// A closing delimiter with nothing open for it to close.
    MissingOpeningDelimiter,
    /// An opening delimiter that is never closed.
    MissingClosingDelimiter,
    /// An opening delimiter met by a closing delimiter of another family.
    UnmatchedDelimiter,
    /// A function name that is not followed by an opening delimiter.
    MissingFunctionArgument,
    /// A token that cannot start a number, constant or name.
    ExpectedNumberOrConstant,
    /// The input ended where a number, constant or name had to follow.
    UnexpectedEndOfInput,
    /// The left side of `=` is not a plain variable name.
    InvalidAssignmentTarget,
    /// A complete expression is followed by something that is no operator.
    ExpectedOperator,
    /// A name that is neither built in nor an assigned variable.
    UnknownIdentifier,
    /// A function or the factorial applied outside its domain.
    DomainError,
    /// A tree whose shape no parse produces. Never caused by input.
    InternalError,
}

/// An error of the pipeline: its kind, a description for the user, and the
/// range of character offsets of the input that it concerns, if any.
#[derive(Debug, PartialEq)]
pub struct CalcrError {
    pub kind: ErrorKind,
    pub desc: String,
    pub span: Option<(usize, usize)>,
}

pub type CalcrResult<T> = Result<T, CalcrError>;

/// The mathematical content of a [`CalcrError`].
pub struct CalcrErrorView {
    pub kind: ErrorKind,
    pub desc: Seq<char>,
    pub span: Option<(usize, usize)>,
}

impl CalcrErrorView {
    /// The error, if it tells where it lies, points at a range within the
    /// first `len` characters that does not end before it starts.
    pub open spec fn within(self, len: nat) -> bool {
        self.span matches Some(span) ==> span.0 <= span.1 <= len
    }
}

impl View for CalcrError {
    type V = CalcrErrorView;

    open spec fn view(&self) -> CalcrErrorView {
        CalcrErrorView { kind: self.kind, desc: self.desc@, span: self.span }
    }
}

/// The columns that the characters of `s` add up to.
pub open spec fn columns(s: Seq<char>) -> nat
    decreases s.len(),
{
    if s.len() == 0 {
        0
    } else {
        columns(s.drop_last()) + columns_of(s.last())
    }
}

/// `n` copies of `c`.
pub open spec fn repeat(c: char, n: nat) -> Seq<char> {
    Seq::new(n, |i: int| c)
}

/// `offset`, or the length of the input where that is smaller.
pub open spec fn clip(input: Seq<char>, offset: usize) -> int {
    if offset <= input.len() {
        offset as int
    } else {
        input.len() as int
    }
}

/// The part of `input` that the range from `begin` to `end` covers. Offsets
/// past the end of the input are taken as its end.
pub open spec fn marked_text(input: Seq<char>, begin: usize, end: usize) -> Seq<char>
    recommends
        begin <= end,
{
    input.subrange(clip(input, begin), clip(input, end))
}

/// The marker line for the range from `begin` to `end` of `input`: blanks up
/// to the range, a caret under its first column, and a tilde under each
/// further column that the covered characters take up.
pub open spec fn marker(input: Seq<char>, begin: usize, end: usize) -> Seq<char> {
    let width = columns(marked_text(input, begin, end));
    let tildes = if width >= 1 {
        (width - 1) as nat
    } else {
        0
    };
    repeat(' ', begin as nat) + seq!['^'] + repeat('~', tildes)
}

/// The text that points out `span` in `input`. With `print_input` the input
/// itself comes first, on a line of its own, indented by two blanks like the
/// marker below it. Without it the marker is indented by three blanks, to
/// line up with input that a prompt of that width has already echoed. A
/// missing span stands for the whole input.
pub open spec fn highlight(span: Option<(usize, usize)>, input: Seq<char>, print_input: bool) -> Seq<
    char,
> {
    let (begin, end) = match span {
        Some(s) => s,
        None => (0usize, input.len() as usize),
    };
    let lead = if print_input {
        seq![' ', ' '] + input + seq!['\n', ' ', ' ']
    } else {
        seq![' ', ' ', ' ']
    };
    lead + marker(input, begin, end) + seq!['\n']
}

impl CalcrError {
    /// The span, if there is one, does not end before it starts.
    pub open spec fn wf(&self) -> bool {
        self.span matches Some(s) ==> s.0 <= s.1
    }

    /// The description, as a string slice.
    pub fn description(&self) -> (r: &str)
        ensures
            r@ == self.desc@,
    {
        self.desc.as_str()
    }

    /// The description, as an owned string.
    pub fn to_string(&self) -> (r: String)
        ensures
            r@ == self.desc@,
    {
        self.desc.clone()
    }

    /// Builds the lines that show where in `input` this error lies.
    pub fn location_highlight(&self, input: &String, print_input: bool) -> (out: String)
        requires
            self.wf(),
        ensures
            out@ == highlight(self.span, input@, print_input),
    {
        let chars = chars_of(input.as_str());
        let (begin, end) = match self.span {
            Some(s) => s,
            None => (0, chars.len()),
        };
        let mut out = if print_input {
            let mut lead = String::from_str("  ");
            lead.append(input.as_str());
            lead.append("\n  ");
            lead
        } else {
            String::from_str("   ")
        };
        proof {
            reveal_strlit("  ");
            reveal_strlit("\n  ");
            reveal_strlit("   ");
        }
        let ghost lead = out@;
        assert(lead == if print_input {
            seq![' ', ' '] + input@ + seq!['\n', ' ', ' ']
        } else {
            seq![' ', ' ', ' ']
        });
        let mut i: usize = 0;
        while i < begin
            invariant
                i <= begin,
                out@ == lead + repeat(' ', i as nat),
            decreases begin - i,
        {
            out.push(' ');
            i += 1;
            assert(repeat(' ', (i - 1) as nat).push(' ') =~= repeat(' ', i as nat));
        }
        out.push('^');
        let ghost head = out@;
        let from = if begin < chars.len() {
            begin
        } else {
            chars.len()
        };
        let stop = if end < chars.len() {
            end
        } else {
            chars.len()
        };
        // `first` is true until the first covered column has been seen: that
        // column is the caret's.
        let mut first = true;
        let mut k: usize = from;
        while k < stop
            invariant
                from <= k <= stop <= chars@.len(),
                chars@ == input@,
                first == (columns(input@.subrange(from as int, k as int)) == 0),
                out@ == head + repeat(
                    '~',
                    if first {
                        0
                    } else {
                        (columns(input@.subrange(from as int, k as int)) - 1) as nat
                    },
                ),
            decreases stop - k,
        {
            let width = match char_width(chars[k]) {
                Some(n) => n,
                None => 0,
            };
            let ghost before = columns(input@.subrange(from as int, k as int));
            assert(input@.subrange(from as int, k + 1).drop_last() =~= input@.subrange(
                from as int,
                k as int,
            ));
            assert(columns(input@.subrange(from as int, k + 1)) == before + width);
            let mut j: usize = 0;
            while j < width
                invariant
                    j <= width,
                    first == (before + j == 0),
                    out@ == head + repeat(
                        '~',
                        if first {
                            0
                        } else {
                            (before + j - 1) as nat
                        },
                    ),
                decreases width - j,
            {
                let ghost drawn: nat = if first {
                    0
                } else {
                    (before + j - 1) as nat
                };
                if first {
                    first = false;
                } else {
                    out.push('~');
                    assert(repeat('~', drawn).push('~') =~= repeat('~', drawn + 1));
                }
                j += 1;
            }
            k += 1;
        }
        out.push('\n');
        assert(out@ =~= highlight(self.span, input@, print_input));
        out
    }
}

} // verus!
