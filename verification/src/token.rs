//! Tokens: the lexer's output and the parser's input.

use vstd::prelude::*;

verus! {

/// The operator symbols the lexer knows. A `-` is always `Minus` here: whether
/// it negates or subtracts is decided by the parser.
#[derive(Debug, PartialEq, Eq, Clone, Copy, Structural)]
pub enum OpKind {
    Plus,
    Minus,
    Mult,
    Div,
    Pow,
    Fact,
    Assign,
}

/// The family of a grouping delimiter. An opening delimiter is closed only by
/// a closing delimiter of the same family.
#[derive(Debug, PartialEq, Eq, Clone, Copy, Structural)]
pub enum DelimKind {
    Paren,
    Bracket,
    Brace,
}

/// What a token is.
///
/// `Num` holds the text of a decimal literal, lower-cased and already checked
/// to be well-formed; turning it into a value is left to evaluation.
#[derive(Debug, PartialEq)]
pub enum TokVal {
    Name(String),
    Num(String),
    Op(OpKind),
    OpenDelim(DelimKind),
    CloseDelim(DelimKind),
    AbsDelim,
}

/// A token together with the half-open range of character offsets it was read
/// from.
#[derive(Debug, PartialEq)]
pub struct Token {
    pub val: TokVal,
    pub span: (usize, usize),
}

/// The mathematical content of a [`TokVal`].
pub enum TokValView {
    Name(Seq<char>),
    Num(Seq<char>),
    Op(OpKind),
    OpenDelim(DelimKind),
    CloseDelim(DelimKind),
    AbsDelim,
}

/// The mathematical content of a [`Token`].
pub struct TokenView {
    pub val: TokValView,
    pub span: (usize, usize),
}

impl View for TokVal {
    type V = TokValView;

    open spec fn view(&self) -> TokValView {
        match self {
            TokVal::Name(s) => TokValView::Name(s@),
            TokVal::Num(s) => TokValView::Num(s@),
            TokVal::Op(op) => TokValView::Op(*op),
            TokVal::OpenDelim(kind) => TokValView::OpenDelim(*kind),
            TokVal::CloseDelim(kind) => TokValView::CloseDelim(*kind),
            TokVal::AbsDelim => TokValView::AbsDelim,
        }
    }
}

impl View for Token {
    type V = TokenView;

    open spec fn view(&self) -> TokenView {
        TokenView { val: self.val@, span: self.span }
    }
}

/// The contents of a sequence of tokens.
pub open spec fn tokens_view(tokens: Seq<Token>) -> Seq<TokenView> {
    tokens.map_values(|t: Token| t@)
}

/// The tokens stand one after the other in an input of `len` characters:
/// each takes up at least one character, none reaches beyond the input, and
/// each ends before the next one starts.
pub open spec fn in_sequence(tokens: Seq<TokenView>, len: nat) -> bool {
    &&& forall|i: int|
        0 <= i < tokens.len() ==> (#[trigger] tokens[i]).span.0 < tokens[i].span.1 <= len
    &&& forall|i: int, j: int|
        0 <= i < j < tokens.len() ==> (#[trigger] tokens[i]).span.1 <= (#[trigger] tokens[j]).span.0
}

/// No token starts behind the end of itself or of a later one. This is
/// what is left of [`in_sequence`] when only the order matters.
pub open spec fn ordered(tokens: Seq<TokenView>) -> bool {
    forall|i: int, j: int|
        0 <= i <= j < tokens.len() ==> (#[trigger] tokens[i]).span.0 <= (#[trigger] tokens[j]).span.1
}

/// The greatest offset at which one of the tokens ends.
pub open spec fn reach(tokens: Seq<TokenView>) -> usize
    decreases tokens.len(),
{
    if tokens.len() == 0 {
        0
    } else if tokens.last().span.1 >= reach(tokens.drop_last()) {
        tokens.last().span.1
    } else {
        reach(tokens.drop_last())
    }
}

/// No token ends beyond the reach of the tokens.
pub proof fn lemma_reach(tokens: Seq<TokenView>, i: int)
    requires
        0 <= i < tokens.len(),
    ensures
        tokens[i].span.1 <= reach(tokens),
    decreases tokens.len(),
{
    if i < tokens.len() - 1 {
        lemma_reach(tokens.drop_last(), i);
    }
}

/// Tokens that stand in an input of `len` characters do not reach beyond it.
pub proof fn lemma_reach_in_sequence(tokens: Seq<TokenView>, len: nat)
    requires
        in_sequence(tokens, len),
    ensures
        reach(tokens) <= len,
    decreases tokens.len(),
{
    if tokens.len() > 0 {
        let front = tokens.drop_last();
        assert forall|i: int| 0 <= i < front.len() implies #[trigger] front[i] == tokens[i] by {}
        assert(in_sequence(front, len)) by {
            assert forall|i: int| 0 <= i < front.len() implies (#[trigger] front[i]).span.0
                < front[i].span.1 <= len by {
                assert(front[i] == tokens[i]);
            }
            assert forall|i: int, j: int| 0 <= i < j < front.len() implies (#[trigger] front[i]).span.1
                <= (#[trigger] front[j]).span.0 by {
                assert(front[i] == tokens[i]);
                assert(front[j] == tokens[j]);
            }
        }
        lemma_reach_in_sequence(front, len);
        assert(tokens.last() == tokens[tokens.len() - 1]);
    }
}

/// Tokens that stand one after the other are in order.
pub proof fn lemma_in_sequence_ordered(tokens: Seq<TokenView>, len: nat)
    requires
        in_sequence(tokens, len),
    ensures
        ordered(tokens),
{
    assert forall|i: int, j: int| 0 <= i <= j < tokens.len() implies (#[trigger] tokens[i]).span.0 <= (
    #[trigger] tokens[j]).span.1 by {
        if i < j {
            assert(tokens[i].span.1 <= tokens[j].span.0);
        }
    }
}

impl Clone for TokVal {
    fn clone(&self) -> (r: TokVal)
        ensures
            r@ == self@,
    {
        match self {
            TokVal::Name(s) => TokVal::Name(s.clone()),
            TokVal::Num(s) => TokVal::Num(s.clone()),
            TokVal::Op(op) => TokVal::Op(*op),
            TokVal::OpenDelim(kind) => TokVal::OpenDelim(*kind),
            TokVal::CloseDelim(kind) => TokVal::CloseDelim(*kind),
            TokVal::AbsDelim => TokVal::AbsDelim,
        }
    }
}

impl TokVal {
    /// The operator this token stands for, if it is one.
    pub fn op(self) -> (r: Option<OpKind>)
        ensures
            r == match self {
                TokVal::Op(op) => Some(op),
                _ => None,
            },
    {
        if let TokVal::Op(op) = self {
            Some(op)
        } else {
            None
        }
    }

    pub fn is_open_delim(&self) -> (r: bool)
        ensures
            r == (self is OpenDelim),
    {
        if let TokVal::OpenDelim(_) = *self {
            true
        } else {
            false
        }
    }

    pub fn is_close_delim(&self) -> (r: bool)
        ensures
            r == (self is CloseDelim),
    {
        if let TokVal::CloseDelim(_) = *self {
            true
        } else {
            false
        }
    }
}

} // verus!
