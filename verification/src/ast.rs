//! The syntax tree that the parser builds and the evaluator walks.

use vstd::prelude::*;
use vstd::string::StringExecFns;
use crate::errors::{CalcrError, CalcrErrorView, CalcrResult, ErrorKind};
use crate::token;

verus! {

/// The built-in functions. Each takes one argument.
#[derive(Debug, PartialEq, Eq, Clone, Copy, Structural)]
pub enum FuncKind {
    Sin,
    Cos,
    Tan,
    Asin,
    Acos,
    Atan,
    Sqrt,
    Abs,
    Exp,
    Ln,
    Log,
}

/// The operators of the tree. Unlike the lexer's operators these tell a
/// negation (`Neg`) from a subtraction (`Minus`).
#[derive(Debug, PartialEq, Eq, Clone, Copy, Structural)]
pub enum OpKind {
    Plus,
    Minus,
    Mult,
    Div,
    Pow,
    Fact,
    Neg,
    Assign,
}

/// The built-in constants.
#[derive(Debug, PartialEq, Eq, Clone, Copy, Structural)]
pub enum ConstKind {
    Pi,
    E,
    Phi,
}

/// What a node of the tree is.
///
/// `Num` holds the text of a decimal literal, `Name` the name of a variable.
#[derive(Debug, PartialEq)]
pub enum AstVal {
    Func(FuncKind),
    Op(OpKind),
    Const(ConstKind),
    Num(String),
    LastResult,
    Name(String),
}

/// A node of the tree: what it is, the range of character offsets of the
/// token it was made from, and its children in order.
#[derive(Debug, PartialEq)]
pub struct Ast {
    pub val: AstVal,
    pub span: (usize, usize),
    pub branches: Vec<Ast>,
}

/// The mathematical content of an [`AstVal`].
pub enum AstValView {
    Func(FuncKind),
    Op(OpKind),
    Const(ConstKind),
    Num(Seq<char>),
    LastResult,
    Name(Seq<char>),
}

/// The mathematical content of an [`Ast`].
pub struct AstView {
    pub val: AstValView,
    pub span: (usize, usize),
    pub branches: Seq<AstView>,
}

impl View for AstVal {
    type V = AstValView;

    open spec fn view(&self) -> AstValView {
        match self {
            AstVal::Func(f) => AstValView::Func(*f),
            AstVal::Op(o) => AstValView::Op(*o),
            AstVal::Const(c) => AstValView::Const(*c),
            AstVal::Num(s) => AstValView::Num(s@),
            AstVal::LastResult => AstValView::LastResult,
            AstVal::Name(s) => AstValView::Name(s@),
        }
    }
}

/// The content of a tree: the content of its root and, in order, the
/// contents of its children.
pub open spec fn tree_view(ast: Ast) -> AstView
    decreases ast,
{
    AstView {
        val: ast.val@,
        span: ast.span,
        branches: Seq::new(
            ast.branches@.len(),
            |i: int|
                if 0 <= i < ast.branches@.len() {
                    tree_view(ast.branches@[i])
                } else {
                    arbitrary()
                },
        ),
    }
}

impl View for Ast {
    type V = AstView;

    open spec fn view(&self) -> AstView {
        tree_view(*self)
    }
}

/// The operator of the tree that a lexed operator stands for when it is used
/// between two operands or after one. (A `Minus` in front of an operand is a
/// negation; that is the parser's call and does not go through here.)
pub open spec fn tree_op(op: token::OpKind) -> OpKind {
    match op {
        token::OpKind::Plus => OpKind::Plus,
        token::OpKind::Minus => OpKind::Minus,
        token::OpKind::Mult => OpKind::Mult,
        token::OpKind::Div => OpKind::Div,
        token::OpKind::Pow => OpKind::Pow,
        token::OpKind::Fact => OpKind::Fact,
        token::OpKind::Assign => OpKind::Assign,
    }
}

impl From<token::OpKind> for OpKind {
    fn from(op: token::OpKind) -> (r: OpKind) {
        match op {
            token::OpKind::Plus => OpKind::Plus,
            token::OpKind::Minus => OpKind::Minus,
            token::OpKind::Mult => OpKind::Mult,
            token::OpKind::Div => OpKind::Div,
            token::OpKind::Pow => OpKind::Pow,
            token::OpKind::Fact => OpKind::Fact,
            token::OpKind::Assign => OpKind::Assign,
        }
    }
}

impl vstd::std_specs::convert::FromSpecImpl<token::OpKind> for OpKind {
    open spec fn obeys_from_spec() -> bool {
        true
    }

    open spec fn from_spec(op: token::OpKind) -> OpKind {
        tree_op(op)
    }
}

/// The smallest range that covers both `a` and `b`.
pub open spec fn cover(a: (usize, usize), b: (usize, usize)) -> (usize, usize) {
    (
        if a.0 <= b.0 {
            a.0
        } else {
            b.0
        },
        if a.1 >= b.1 {
            a.1
        } else {
            b.1
        },
    )
}

/// The number of children that a node of this kind has.
pub open spec fn arity(val: AstValView) -> nat {
    match val {
        AstValView::Func(_) => 1,
        AstValView::Op(OpKind::Fact) | AstValView::Op(OpKind::Neg) => 1,
        AstValView::Op(_) => 2,
        AstValView::Const(_) | AstValView::Num(_) | AstValView::LastResult | AstValView::Name(
            _,
        ) => 0,
    }
}

impl AstView {
    /// The smallest range that covers this node's own span and the total
    /// spans of its first `n` children.
    pub open spec fn span_over(self, n: nat) -> (usize, usize)
        decreases self, n,
    {
        if n == 0 || n > self.branches.len() {
            self.span
        } else {
            let child = self.branches[n - 1];
            cover(self.span_over((n - 1) as nat), child.span_over(child.branches.len()))
        }
    }

    /// The smallest range that covers the node's own span and the total
    /// spans of all its children.
    pub open spec fn total_span(self) -> (usize, usize) {
        self.span_over(self.branches.len())
    }

    /// Every node of the tree has as many children as its kind demands.
    pub open spec fn well_formed(self) -> bool
        decreases self,
    {
        &&& self.branches.len() == arity(self.val)
        &&& forall|i: int| 0 <= i < self.branches.len() ==> (#[trigger] self.branches[i]).well_formed()
    }

    /// No span in the tree ends before it starts.
    pub open spec fn spans_wf(self) -> bool
        decreases self,
    {
        &&& self.span.0 <= self.span.1
        &&& forall|i: int| 0 <= i < self.branches.len() ==> (#[trigger] self.branches[i]).spans_wf()
    }

    /// No span in the tree ends beyond `limit`.
    pub open spec fn spans_below(self, limit: nat) -> bool
        decreases self,
    {
        &&& self.span.1 <= limit
        &&& forall|i: int|
            0 <= i < self.branches.len() ==> (#[trigger] self.branches[i]).spans_below(limit)
    }

    /// No node of the tree is an assignment.
    pub open spec fn assignment_free(self) -> bool
        decreases self,
    {
        &&& self.val != AstValView::Op(OpKind::Assign)
        &&& forall|i: int|
            0 <= i < self.branches.len() ==> (#[trigger] self.branches[i]).assignment_free()
    }

    /// The tree is an expression, or the assignment of an expression to a
    /// name: the only place of an assignment is the root, and its target is a
    /// variable name.
    pub open spec fn is_statement(self) -> bool {
        if self.val == AstValView::Op(OpKind::Assign) {
            &&& self.branches.len() == 2
            &&& self.branches[0].val is Name
            &&& self.branches[0].assignment_free()
            &&& self.branches[1].assignment_free()
        } else {
            self.assignment_free()
        }
    }
}

/// The range that a tree was read from does not end before it starts,
/// where that holds of the span of each of its nodes. The range covers the
/// span of the root.
pub proof fn lemma_total_span(a: AstView)
    requires
        a.spans_wf(),
    ensures
        a.total_span().0 <= a.span.0,
        a.span.1 <= a.total_span().1,
        a.total_span().0 <= a.total_span().1,
    decreases a, a.branches.len() + 1,
{
    lemma_span_over(a, a.branches.len());
}

proof fn lemma_span_over(a: AstView, n: nat)
    requires
        a.spans_wf(),
        n <= a.branches.len(),
    ensures
        a.span_over(n).0 <= a.span.0,
        a.span.1 <= a.span_over(n).1,
    decreases a, n,
{
    if n > 0 {
        lemma_span_over(a, (n - 1) as nat);
        lemma_total_span(a.branches[n - 1]);
    }
}

/// Spans that do not end beyond a limit do not end beyond a greater one.
pub proof fn lemma_spans_below(a: AstView, limit: nat, greater: nat)
    requires
        a.spans_below(limit),
        limit <= greater,
    ensures
        a.spans_below(greater),
    decreases a,
{
    assert forall|i: int| 0 <= i < a.branches.len() implies (#[trigger] a.branches[i]).spans_below(
        greater,
    ) by {
        lemma_spans_below(a.branches[i], limit, greater);
    }
}

/// The range that a tree was read from ends where the latest of the spans of
/// its nodes ends, at the latest.
pub proof fn lemma_total_span_below(a: AstView, limit: nat)
    requires
        a.spans_below(limit),
    ensures
        a.total_span().1 <= limit,
    decreases a, a.branches.len() + 1,
{
    lemma_span_over_below(a, a.branches.len(), limit);
}

proof fn lemma_span_over_below(a: AstView, n: nat, limit: nat)
    requires
        a.spans_below(limit),
        n <= a.branches.len(),
    ensures
        a.span_over(n).1 <= limit,
    decreases a, n,
{
    if n > 0 {
        lemma_span_over_below(a, (n - 1) as nat, limit);
        lemma_total_span_below(a.branches[n - 1], limit);
    }
}

/// The error for a node that should have had `expected` children and has
/// another number. It has no span: it tells of a defect, not of bad input.
pub open spec fn wrong_arity(expected: nat) -> CalcrErrorView {
    CalcrErrorView {
        kind: ErrorKind::InternalError,
        desc: if expected == 1 {
            "Internal error - expected AST to have 1 branch"@
        } else {
            "Internal error - expected AST to have 2 branches"@
        },
        span: None,
    }
}

impl Ast {
    pub fn is_leaf(&self) -> (r: bool)
        ensures
            r == (self@.branches.len() == 0),
    {
        self.branches.len() == 0
    }

    /// The only child of a node that has exactly one.
    pub fn get_unary_branch(&self) -> (r: CalcrResult<&Ast>)
        ensures
            match r {
                Ok(child) => self.branches@.len() == 1 && *child == self.branches@[0],
                Err(e) => self.branches@.len() != 1 && e@ == wrong_arity(1),
            },
    {
        if self.branches.len() == 1 {
            Ok(&self.branches[0])
        } else {
            Err(
                CalcrError {
                    kind: ErrorKind::InternalError,
                    desc: String::from_str("Internal error - expected AST to have 1 branch"),
                    span: None,
                },
            )
        }
    }

    /// The two children of a node that has exactly two.
    pub fn get_binary_branches(&self) -> (r: CalcrResult<(&Ast, &Ast)>)
        ensures
            match r {
                Ok((lhs, rhs)) => self.branches@.len() == 2 && *lhs == self.branches@[0] && *rhs
                    == self.branches@[1],
                Err(e) => self.branches@.len() != 2 && e@ == wrong_arity(2),
            },
    {
        if self.branches.len() == 2 {
            Ok((&self.branches[0], &self.branches[1]))
        } else {
            Err(
                CalcrError {
                    kind: ErrorKind::InternalError,
                    desc: String::from_str("Internal error - expected AST to have 2 branches"),
                    span: None,
                },
            )
        }
    }

    /// The range of the input that the whole subtree was read from.
    pub fn get_total_span(&self) -> (r: (usize, usize))
        ensures
            r == self@.total_span(),
        decreases self,
    {
        let mut out = self.span;
        let mut i: usize = 0;
        while i < self.branches.len()
            invariant
                i <= self.branches@.len(),
                out == self@.span_over(i as nat),
            decreases self.branches@.len() - i,
        {
            let span = self.branches[i].get_total_span();
            out = (
                if out.0 <= span.0 {
                    out.0
                } else {
                    span.0
                },
                if out.1 >= span.1 {
                    out.1
                } else {
                    span.1
                },
            );
            i += 1;
        }
        out
    }
}

} // verus!
