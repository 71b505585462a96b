//! The parser: from tokens to a syntax tree.
//!
//! The grammar, from the loosest binding to the tightest:
//!
//! ```text
//! Expression ::= Name "=" Equation | Equation
//! Equation   ::= Product { ("+" | "-") Product }
//! Product    ::= Factor { ("*" | "/") Factor }
//! Factor     ::= "-" Factor | Exponent [ "^" Factor ]
//! Exponent   ::= Number { "!" }
//! Number     ::= Function Open Equation Close
//!              | Constant | Name | "ans"
//!              | Open Equation Close
//!              | "|" Equation "|"
//!              | NumLiteral
//! Function   ::= "sin" | "cos" | "tan" | "asin" | "acos" | "atan"
//!              | "sqrt" | "abs" | "exp" | "ln" | "log"
//! Constant   ::= "pi" | "e" | "phi"
//! Open       ::= "(" | "[" | "{"
//! Close      ::= ")" | "]" | "}"
//! ```
//!
//! `+ - * /` associate to the left, `^` to the right. A closing delimiter must
//! be of the family of the delimiter it closes. Grouping leaves no node in
//! the tree; `|x|` becomes an application of `abs`.
//!
//! The meaning of the grammar is given by the spec functions [`number`],
//! [`exponent`], [`factor`], [`product`], [`equation`] and [`parse`]: each
//! says, for a sequence of tokens and a place in it, which tree is read from
//! there and how far it reaches, or which error comes first. [`parse_tokens`]
//! computes [`parse`].

use vstd::prelude::*;
use vstd::string::StringExecFns;
use crate::ast::{Ast, AstVal, AstValView, AstView, ConstKind, FuncKind, OpKind};
use crate::errors::{CalcrError, CalcrErrorView, CalcrResult, ErrorKind};
use crate::text::is_word;
use crate::token;
use crate::token::{
    DelimKind,
    TokVal,
    TokValView,
    Token,
    TokenView,
    lemma_reach,
    ordered,
    reach,
    tokens_view,
};

verus! {

/// How many grouping delimiters and how many absolute-value bars are open at
/// a place in the input.
pub struct Depth {
    pub paren: nat,
    pub abs: nat,
}

/// A tree that was read from the tokens, with the number of tokens that were
/// read for it beyond the first. (Every production of the grammar reads at
/// least one token. Counting from one is what makes it plain that the
/// productions, which refer to each other in a circle, are well-defined.)
pub struct Parse {
    pub tree: AstView,
    pub extra: nat,
}

pub type Parsed = Result<Parse, CalcrErrorView>;

impl Depth {
    /// The depth inside a group that is opened here.
    pub open spec fn in_group(self) -> Depth {
        Depth { paren: self.paren + 1, abs: self.abs }
    }

    /// The depth between absolute-value bars that are opened here.
    pub open spec fn in_bars(self) -> Depth {
        Depth { paren: self.paren, abs: self.abs + 1 }
    }
}

impl Parse {
    /// The offset of the token that follows a parse that started at `start`.
    pub open spec fn end(self, start: int) -> int {
        start + 1 + self.extra
    }
}

/// The value of the token at `pos`, if there is a token at `pos`.
pub open spec fn peek(toks: Seq<TokenView>, pos: int) -> Option<TokValView> {
    if 0 <= pos < toks.len() {
        Some(toks[pos].val)
    } else {
        None
    }
}

/// The number of tokens from `pos` on.
pub open spec fn left(toks: Seq<TokenView>, pos: int) -> nat {
    if pos < toks.len() {
        (toks.len() - pos) as nat
    } else {
        0
    }
}

/// The offset at which the input ends, as far as the tokens tell: the end of
/// the last token.
pub open spec fn end_position(toks: Seq<TokenView>) -> usize {
    if toks.len() == 0 {
        0
    } else {
        toks.last().span.1
    }
}

/// What a name means if it is built in.
#[verifier::opaque]
pub open spec fn builtin(name: Seq<char>) -> Option<AstValView> {
    if name == "ans"@ {
        Some(AstValView::LastResult)
    } else if name == "pi"@ || name == "\u{3c0}"@ {
        Some(AstValView::Const(ConstKind::Pi))
    } else if name == "e"@ {
        Some(AstValView::Const(ConstKind::E))
    } else if name == "phi"@ || name == "\u{3d5}"@ {
        Some(AstValView::Const(ConstKind::Phi))
    } else if name == "cos"@ {
        Some(AstValView::Func(FuncKind::Cos))
    } else if name == "sin"@ {
        Some(AstValView::Func(FuncKind::Sin))
    } else if name == "tan"@ {
        Some(AstValView::Func(FuncKind::Tan))
    } else if name == "asin"@ {
        Some(AstValView::Func(FuncKind::Asin))
    } else if name == "acos"@ {
        Some(AstValView::Func(FuncKind::Acos))
    } else if name == "atan"@ {
        Some(AstValView::Func(FuncKind::Atan))
    } else if name == "sqrt"@ || name == "\u{221a}"@ {
        Some(AstValView::Func(FuncKind::Sqrt))
    } else if name == "abs"@ {
        Some(AstValView::Func(FuncKind::Abs))
    } else if name == "exp"@ {
        Some(AstValView::Func(FuncKind::Exp))
    } else if name == "ln"@ {
        Some(AstValView::Func(FuncKind::Ln))
    } else if name == "log"@ {
        Some(AstValView::Func(FuncKind::Log))
    } else {
        None
    }
}

/// What a name stands for in the tree: its built-in meaning, or a variable.
pub open spec fn name_value(name: Seq<char>) -> AstValView {
    match builtin(name) {
        Some(val) => val,
        None => AstValView::Name(name),
    }
}

pub open spec fn leaf(val: AstValView, span: (usize, usize)) -> AstView {
    AstView { val, span, branches: Seq::empty() }
}

pub open spec fn unary(val: AstValView, span: (usize, usize), child: AstView) -> AstView {
    AstView { val, span, branches: seq![child] }
}

pub open spec fn binary(val: AstValView, span: (usize, usize), lhs: AstView, rhs: AstView) -> AstView {
    AstView { val, span, branches: seq![lhs, rhs] }
}

pub open spec fn parse_error(kind: ErrorKind, desc: Seq<char>, span: (usize, usize)) -> CalcrErrorView {
    CalcrErrorView { kind, desc, span: Some(span) }
}

/// What the name at `start` reads as, where `arg` is what follows it, read
/// as a `Number`. A function is applied to the group behind it and must be
/// followed by one. Any other name stands alone.
pub open spec fn named(toks: Seq<TokenView>, start: int, name: Seq<char>, arg: Parsed) -> Parsed {
    let val = name_value(name);
    let span = toks[start].span;
    if val is Func {
        if peek(toks, start + 1) is Some && peek(toks, start + 1)->0 is OpenDelim {
            match arg {
                Ok(arg) => Ok(Parse { tree: unary(val, span, arg.tree), extra: 1 + arg.extra }),
                Err(e) => Err(e),
            }
        } else {
            Err(
                parse_error(
                    ErrorKind::MissingFunctionArgument,
                    "Missing opening delimiter after function"@,
                    span,
                ),
            )
        }
    } else {
        Ok(Parse { tree: leaf(val, span), extra: 0 })
    }
}

/// What the group that a delimiter of family `kind` opens at `start` reads
/// as, where `inner` is the equation behind the delimiter. The group is its
/// equation, and leaves no node of its own. The token behind the equation
/// must close the group: a closing delimiter of another family does not
/// match, and anything else, the end of the input too, leaves it open.
pub open spec fn grouped(toks: Seq<TokenView>, start: int, kind: DelimKind, inner: Parsed) -> Parsed {
    match inner {
        Ok(inner) => {
            let close = peek(toks, inner.end(start + 1));
            if close == Some(TokValView::CloseDelim(kind)) {
                Ok(Parse { tree: inner.tree, extra: inner.extra + 2 })
            } else {
                Err(
                    parse_error(
                        if close is Some && close->0 is CloseDelim {
                            ErrorKind::UnmatchedDelimiter
                        } else {
                            ErrorKind::MissingClosingDelimiter
                        },
                        "Missing matching closing delimiter"@,
                        toks[start].span,
                    ),
                )
            }
        },
        Err(e) => Err(e),
    }
}

/// What the bar at `start` reads as, where `inner` is the equation behind
/// it: the absolute value of the equation, which a second bar must follow.
/// The node spans from the first bar to the second.
pub open spec fn barred(toks: Seq<TokenView>, start: int, inner: Parsed) -> Parsed {
    match inner {
        Ok(inner) => {
            let close = inner.end(start + 1);
            if peek(toks, close) == Some(TokValView::AbsDelim) {
                Ok(
                    Parse {
                        tree: unary(
                            AstValView::Func(FuncKind::Abs),
                            (toks[start].span.0, toks[close].span.1),
                            inner.tree,
                        ),
                        extra: inner.extra + 2,
                    },
                )
            } else {
                Err(
                    parse_error(
                        ErrorKind::MissingClosingDelimiter,
                        "Missing closing abs delimiter"@,
                        toks[start].span,
                    ),
                )
            }
        },
        Err(e) => Err(e),
    }
}

/// The error for a token at `start` that starts no `Number`: an operator, or
/// a closing delimiter, which is missing its opening one where no group is
/// open.
pub open spec fn misplaced(toks: Seq<TokenView>, start: int, depth: Depth) -> CalcrErrorView {
    if toks[start].val is CloseDelim && depth.paren == 0 {
        parse_error(
            ErrorKind::MissingOpeningDelimiter,
            "Missing matching opening delimiter"@,
            toks[start].span,
        )
    } else {
        parse_error(
            ErrorKind::ExpectedNumberOrConstant,
            "Expected number or constant"@,
            toks[start].span,
        )
    }
}

/// The error for an input that ends where a `Number` has to stand. Its span
/// is empty and lies at the end of the input.
pub open spec fn missing_operand(toks: Seq<TokenView>) -> CalcrErrorView {
    parse_error(
        ErrorKind::UnexpectedEndOfInput,
        "Expected number or constant"@,
        (end_position(toks), end_position(toks)),
    )
}

/// `Number`: what is read at `start`, where a literal, a constant, a name, a
/// function application, a group or an absolute value has to stand.
#[verifier::opaque]
pub open spec fn number(toks: Seq<TokenView>, start: int, depth: Depth) -> Parsed
    decreases left(toks, start), 0nat,
{
    if !(0 <= start < toks.len()) {
        Err(missing_operand(toks))
    } else {
        match toks[start].val {
            TokValView::Name(name) => named(toks, start, name, number(toks, start + 1, depth)),
            TokValView::OpenDelim(kind) => grouped(
                toks,
                start,
                kind,
                equation(toks, start + 1, depth.in_group()),
            ),
            TokValView::AbsDelim => barred(toks, start, equation(toks, start + 1, depth.in_bars())),
            TokValView::Num(text) => Ok(
                Parse { tree: leaf(AstValView::Num(text), toks[start].span), extra: 0 },
            ),
            TokValView::CloseDelim(_) | TokValView::Op(_) => Err(misplaced(toks, start, depth)),
        }
    }
}

/// The operand read from `start`, with every `!` that follows it applied to
/// it in turn.
pub open spec fn factorials(toks: Seq<TokenView>, start: int, operand: Parse) -> Parse
    decreases left(toks, operand.end(start)),
{
    let at = operand.end(start);
    if peek(toks, at) == Some(TokValView::Op(token::OpKind::Fact)) {
        factorials(
            toks,
            start,
            Parse {
                tree: unary(AstValView::Op(OpKind::Fact), toks[at].span, operand.tree),
                extra: operand.extra + 1,
            },
        )
    } else {
        operand
    }
}

/// `Exponent`: a number and the factorial signs behind it.
#[verifier::opaque]
pub open spec fn exponent(toks: Seq<TokenView>, start: int, depth: Depth) -> Parsed
    decreases left(toks, start), 1nat,
{
    match number(toks, start, depth) {
        Ok(operand) => Ok(factorials(toks, start, operand)),
        Err(e) => Err(e),
    }
}

/// The negation of `rhs`, the factor behind the `-` at `start`.
pub open spec fn negated(toks: Seq<TokenView>, start: int, rhs: Parsed) -> Parsed {
    match rhs {
        Ok(rhs) => Ok(
            Parse {
                tree: unary(AstValView::Op(OpKind::Neg), toks[start].span, rhs.tree),
                extra: 1 + rhs.extra,
            },
        ),
        Err(e) => Err(e),
    }
}

/// The node for `lhs op rhs`, where `op` is the operator token at `at`, which
/// follows `lhs`. The node's span is that of the operator.
pub open spec fn join(toks: Seq<TokenView>, at: int, lhs: Parse, rhs: Parse) -> Parse {
    Parse {
        tree: binary(
            AstValView::Op(crate::ast::tree_op(toks[at].val->Op_0)),
            toks[at].span,
            lhs.tree,
            rhs.tree,
        ),
        extra: lhs.extra + 2 + rhs.extra,
    }
}

/// `lhs` joined to `rhs` by the operator token at `at`, or the error of `rhs`.
pub open spec fn joined(toks: Seq<TokenView>, at: int, lhs: Parse, rhs: Parsed) -> Parsed {
    match rhs {
        Ok(rhs) => Ok(join(toks, at, lhs, rhs)),
        Err(e) => Err(e),
    }
}

/// `Factor`: a negated factor, or an exponent that may be raised to a
/// factor. The power therefore binds to the right, and tighter than a
/// negation in front of it.
#[verifier::opaque]
pub open spec fn factor(toks: Seq<TokenView>, start: int, depth: Depth) -> Parsed
    decreases left(toks, start), 2nat,
{
    if peek(toks, start) == Some(TokValView::Op(token::OpKind::Minus)) {
        negated(toks, start, factor(toks, start + 1, depth))
    } else {
        match exponent(toks, start, depth) {
            Ok(lhs) => {
                let at = lhs.end(start);
                if peek(toks, at) == Some(TokValView::Op(token::OpKind::Pow)) {
                    joined(toks, at, lhs, factor(toks, at + 1, depth))
                } else {
                    Ok(lhs)
                }
            },
            Err(e) => Err(e),
        }
    }
}

/// Whether a token is one of the operators that chain factors into a
/// product.
pub open spec fn is_multiplicative(val: Option<TokValView>) -> bool {
    val == Some(TokValView::Op(token::OpKind::Mult)) || val == Some(
        TokValView::Op(token::OpKind::Div),
    )
}

/// Whether a token is one of the operators that chain products into an
/// equation.
pub open spec fn is_additive(val: Option<TokValView>) -> bool {
    val == Some(TokValView::Op(token::OpKind::Plus)) || val == Some(
        TokValView::Op(token::OpKind::Minus),
    )
}

/// The product that starts at `start` and so far consists of `lhs`, with the
/// factors that follow joined to it from left to right.
#[verifier::opaque]
pub open spec fn product_rest(toks: Seq<TokenView>, start: int, depth: Depth, lhs: Parse) -> Parsed
    decreases left(toks, lhs.end(start)), 0nat,
{
    let at = lhs.end(start);
    if is_multiplicative(peek(toks, at)) {
        match factor(toks, at + 1, depth) {
            Ok(rhs) => product_rest(toks, start, depth, join(toks, at, lhs, rhs)),
            Err(e) => Err(e),
        }
    } else {
        Ok(lhs)
    }
}

/// `Product`: factors joined by `*` and `/`.
#[verifier::opaque]
pub open spec fn product(toks: Seq<TokenView>, start: int, depth: Depth) -> Parsed
    decreases left(toks, start), 3nat,
{
    match factor(toks, start, depth) {
        Ok(lhs) => product_rest(toks, start, depth, lhs),
        Err(e) => Err(e),
    }
}

/// What is wrong with the token at `at`, which follows a complete equation,
/// if it closes something that was never opened.
pub open spec fn stray_closer(toks: Seq<TokenView>, at: int, depth: Depth) -> Option<CalcrErrorView> {
    if peek(toks, at) is Some && peek(toks, at)->0 is CloseDelim && depth.paren == 0 {
        Some(
            parse_error(
                ErrorKind::MissingOpeningDelimiter,
                "Missing matching opening delimiter"@,
                toks[at].span,
            ),
        )
    } else if peek(toks, at) == Some(TokValView::AbsDelim) && depth.abs == 0 {
        Some(
            parse_error(
                ErrorKind::MissingOpeningDelimiter,
                "Missing opening abs delimiter"@,
                toks[at].span,
            ),
        )
    } else {
        None
    }
}

/// The equation that starts at `start` and so far consists of `lhs`, with the
/// products that follow joined to it from left to right. What follows the
/// equation must not close a delimiter that is not open.
#[verifier::opaque]
pub open spec fn equation_rest(toks: Seq<TokenView>, start: int, depth: Depth, lhs: Parse) -> Parsed
    decreases left(toks, lhs.end(start)), 0nat,
{
    let at = lhs.end(start);
    if is_additive(peek(toks, at)) {
        match product(toks, at + 1, depth) {
            Ok(rhs) => equation_rest(toks, start, depth, join(toks, at, lhs, rhs)),
            Err(e) => Err(e),
        }
    } else {
        match stray_closer(toks, at, depth) {
            Some(e) => Err(e),
            None => Ok(lhs),
        }
    }
}

/// `Equation`: products joined by `+` and `-`.
#[verifier::opaque]
pub open spec fn equation(toks: Seq<TokenView>, start: int, depth: Depth) -> Parsed
    decreases left(toks, start), 4nat,
{
    match product(toks, start, depth) {
        Ok(lhs) => equation_rest(toks, start, depth, lhs),
        Err(e) => Err(e),
    }
}

/// What an assignment to the tree `target` is refused with.
pub open spec fn bad_target(target: AstView) -> CalcrErrorView {
    parse_error(
        ErrorKind::InvalidAssignmentTarget,
        "Cannot assign to "@ + match target.val {
            AstValView::Func(_) => "function"@,
            AstValView::Const(_) => "constant"@,
            AstValView::Num(_) => "number"@,
            AstValView::LastResult => "constant"@,
            _ => "equtation"@,
        },
        target.total_span(),
    )
}

/// What the `=` at `at` makes of the equation `target` in front of it and
/// `value`, the equation behind it: the assignment of `value` to `target`,
/// which must be a variable name.
pub open spec fn assignment(toks: Seq<TokenView>, at: int, target: AstView, value: Parsed) -> Result<
    AstView,
    CalcrErrorView,
> {
    if target.val is Name {
        match value {
            Ok(value) => Ok(
                binary(AstValView::Op(OpKind::Assign), toks[at].span, target, value.tree),
            ),
            Err(e) => Err(e),
        }
    } else {
        Err(bad_target(target))
    }
}

/// `Expression`: the tree of a whole line. An equation that reaches to the
/// end of the line is that tree. One that is followed by `=` is the target of
/// an assignment. One that is followed by anything else is an error.
pub open spec fn parse(toks: Seq<TokenView>) -> Result<AstView, CalcrErrorView> {
    let top = Depth { paren: 0, abs: 0 };
    match equation(toks, 0, top) {
        Ok(eq) => {
            let at = eq.end(0);
            if peek(toks, at) is None {
                Ok(eq.tree)
            } else if peek(toks, at) == Some(TokValView::Op(token::OpKind::Assign)) {
                assignment(toks, at, eq.tree, equation(toks, at + 1, top))
            } else {
                Err(parse_error(ErrorKind::ExpectedOperator, "Expected operator"@, toks[at].span))
            }
        },
        Err(e) => Err(e),
    }
}

/// Spells out [`number`].
proof fn lemma_number(toks: Seq<TokenView>, start: int, depth: Depth)
    ensures
        number(toks, start, depth) == if !(0 <= start < toks.len()) {
            Err(missing_operand(toks))
        } else {
            match toks[start].val {
                TokValView::Name(name) => named(toks, start, name, number(toks, start + 1, depth)),
                TokValView::OpenDelim(kind) => grouped(
                    toks,
                    start,
                    kind,
                    equation(toks, start + 1, depth.in_group()),
                ),
                TokValView::AbsDelim => barred(
                    toks,
                    start,
                    equation(toks, start + 1, depth.in_bars()),
                ),
                TokValView::Num(text) => Ok(
                    Parse { tree: leaf(AstValView::Num(text), toks[start].span), extra: 0 },
                ),
                TokValView::CloseDelim(_) | TokValView::Op(_) => Err(misplaced(toks, start, depth)),
            }
        },
{
    reveal(number);
    reveal(equation);
}

/// Spells out [`exponent`].
proof fn lemma_exponent(toks: Seq<TokenView>, start: int, depth: Depth)
    ensures
        exponent(toks, start, depth) == match number(toks, start, depth) {
            Ok(operand) => Ok(factorials(toks, start, operand)),
            Err(e) => Err(e),
        },
{
    reveal(exponent);
    reveal(number);
}

/// Spells out [`factor`].
proof fn lemma_factor(toks: Seq<TokenView>, start: int, depth: Depth)
    ensures
        factor(toks, start, depth) == if peek(toks, start) == Some(
            TokValView::Op(token::OpKind::Minus),
        ) {
            negated(toks, start, factor(toks, start + 1, depth))
        } else {
            match exponent(toks, start, depth) {
                Ok(lhs) => {
                    let at = lhs.end(start);
                    if peek(toks, at) == Some(TokValView::Op(token::OpKind::Pow)) {
                        joined(toks, at, lhs, factor(toks, at + 1, depth))
                    } else {
                        Ok(lhs)
                    }
                },
                Err(e) => Err(e),
            }
        },
{
    reveal(factor);
    reveal(exponent);
}

/// Spells out [`product_rest`].
proof fn lemma_product_rest(toks: Seq<TokenView>, start: int, depth: Depth, lhs: Parse)
    ensures
        product_rest(toks, start, depth, lhs) == if is_multiplicative(peek(toks, lhs.end(start))) {
            match factor(toks, lhs.end(start) + 1, depth) {
                Ok(rhs) => product_rest(toks, start, depth, join(toks, lhs.end(start), lhs, rhs)),
                Err(e) => Err(e),
            }
        } else {
            Ok(lhs)
        },
{
    reveal(product_rest);
    reveal(factor);
}

/// Spells out [`product`].
proof fn lemma_product(toks: Seq<TokenView>, start: int, depth: Depth)
    ensures
        product(toks, start, depth) == match factor(toks, start, depth) {
            Ok(lhs) => product_rest(toks, start, depth, lhs),
            Err(e) => Err(e),
        },
{
    reveal(product);
    reveal(factor);
    reveal(product_rest);
}

/// Spells out [`equation_rest`].
proof fn lemma_equation_rest(toks: Seq<TokenView>, start: int, depth: Depth, lhs: Parse)
    ensures
        equation_rest(toks, start, depth, lhs) == if is_additive(peek(toks, lhs.end(start))) {
            match product(toks, lhs.end(start) + 1, depth) {
                Ok(rhs) => equation_rest(toks, start, depth, join(toks, lhs.end(start), lhs, rhs)),
                Err(e) => Err(e),
            }
        } else {
            match stray_closer(toks, lhs.end(start), depth) {
                Some(e) => Err(e),
                None => Ok(lhs),
            }
        },
{
    reveal(equation_rest);
    reveal(product);
}

/// Spells out [`equation`].
proof fn lemma_equation(toks: Seq<TokenView>, start: int, depth: Depth)
    ensures
        equation(toks, start, depth) == match product(toks, start, depth) {
            Ok(lhs) => equation_rest(toks, start, depth, lhs),
            Err(e) => Err(e),
        },
{
    reveal(equation);
    reveal(product);
    reveal(equation_rest);
}

/// What holds of whatever a production reads from `start`.
///
/// A tree has the shape of an expression: every node has as many children as
/// its kind demands, and no node is an assignment. The tokens it was read
/// from all exist. An error is none of the internal ones and tells where it
/// lies. No span, neither in the tree nor in the error, ends beyond the
/// reach of the tokens. And where the tokens are in order, no span ends
/// before it starts.
pub open spec fn proper(toks: Seq<TokenView>, start: int, p: Parsed) -> bool {
    match p {
        Ok(read) => {
            &&& proper_tree(toks, read.tree)
            &&& read.end(start) <= toks.len()
        },
        Err(e) => {
            &&& e.kind != ErrorKind::InternalError
            &&& e.span matches Some(span)
            &&& proper_span(toks, span)
        },
    }
}

/// What [`proper`] asks of a span.
pub open spec fn proper_span(toks: Seq<TokenView>, span: (usize, usize)) -> bool {
    &&& span.1 <= reach(toks)
    &&& ordered(toks) ==> span.0 <= span.1
}

/// What [`proper`] asks of a tree.
pub open spec fn proper_tree(toks: Seq<TokenView>, tree: AstView) -> bool {
    &&& tree.well_formed()
    &&& tree.assignment_free()
    &&& tree.spans_below(reach(toks) as nat)
    &&& ordered(toks) ==> tree.spans_wf()
}

/// The span of a token, and the span from the start of a token to the end
/// of a later one, is as [`proper`] asks.
proof fn lemma_token_span(toks: Seq<TokenView>, first: int, last: int)
    requires
        0 <= first <= last < toks.len(),
    ensures
        proper_span(toks, toks[first].span),
        proper_span(toks, (toks[first].span.0, toks[last].span.1)),
{
    lemma_reach(toks, first);
    lemma_reach(toks, last);
}

proof fn lemma_leaf(toks: Seq<TokenView>, val: AstValView, span: (usize, usize))
    requires
        crate::ast::arity(val) == 0,
        proper_span(toks, span),
    ensures
        proper_tree(toks, leaf(val, span)),
{
}

proof fn lemma_unary(toks: Seq<TokenView>, val: AstValView, span: (usize, usize), child: AstView)
    requires
        crate::ast::arity(val) == 1,
        proper_span(toks, span),
        proper_tree(toks, child),
    ensures
        proper_tree(toks, unary(val, span, child)),
{
    let node = unary(val, span, child);
    assert forall|i: int| 0 <= i < node.branches.len() implies (#[trigger] node.branches[i])
        == child by {}
}

proof fn lemma_binary(
    toks: Seq<TokenView>,
    val: AstValView,
    span: (usize, usize),
    lhs: AstView,
    rhs: AstView,
)
    requires
        crate::ast::arity(val) == 2,
        val != AstValView::Op(OpKind::Assign),
        proper_span(toks, span),
        proper_tree(toks, lhs),
        proper_tree(toks, rhs),
    ensures
        proper_tree(toks, binary(val, span, lhs, rhs)),
{
    let node = binary(val, span, lhs, rhs);
    assert forall|i: int| 0 <= i < node.branches.len() implies (#[trigger] node.branches[i]) == lhs
        || node.branches[i] == rhs by {}
}

proof fn lemma_join_proper(toks: Seq<TokenView>, start: int, lhs: Parse, rhs: Parse)
    requires
        0 <= start,
        is_additive(peek(toks, lhs.end(start))) || is_multiplicative(peek(toks, lhs.end(start))),
        proper(toks, start, Ok(lhs)),
        proper(toks, lhs.end(start) + 1, Ok(rhs)),
    ensures
        proper(toks, start, Ok(join(toks, lhs.end(start), lhs, rhs))),
{
    let at = lhs.end(start);
    lemma_token_span(toks, at, at);
    lemma_binary(
        toks,
        AstValView::Op(crate::ast::tree_op(toks[at].val->Op_0)),
        toks[at].span,
        lhs.tree,
        rhs.tree,
    );
}

proof fn lemma_number_proper(toks: Seq<TokenView>, start: int, depth: Depth)
    requires
        0 <= start,
    ensures
        proper(toks, start, number(toks, start, depth)),
    decreases left(toks, start), 0nat,
{
    lemma_number(toks, start, depth);
    if start < toks.len() {
        let span = toks[start].span;
        lemma_token_span(toks, start, start);
        match toks[start].val {
            TokValView::Name(name) => {
                reveal(builtin);
                let val = name_value(name);
                lemma_number_proper(toks, start + 1, depth);
                if val is Func {
                    if let Ok(arg) = number(toks, start + 1, depth) {
                        lemma_unary(toks, val, span, arg.tree);
                    }
                } else {
                    lemma_leaf(toks, val, span);
                }
            },
            TokValView::OpenDelim(_) => {
                lemma_equation_proper(toks, start + 1, depth.in_group());
            },
            TokValView::AbsDelim => {
                lemma_equation_proper(toks, start + 1, depth.in_bars());
                if let Ok(inner) = equation(toks, start + 1, depth.in_bars()) {
                    let close = inner.end(start + 1);
                    if peek(toks, close) is Some {
                        lemma_token_span(toks, start, close);
                        lemma_unary(
                            toks,
                            AstValView::Func(FuncKind::Abs),
                            (span.0, toks[close].span.1),
                            inner.tree,
                        );
                    }
                }
            },
            TokValView::Num(text) => {
                lemma_leaf(toks, AstValView::Num(text), span);
            },
            _ => {},
        }
    }
}

proof fn lemma_factorials_proper(toks: Seq<TokenView>, start: int, operand: Parse)
    requires
        0 <= start,
        proper(toks, start, Ok(operand)),
    ensures
        proper(toks, start, Ok(factorials(toks, start, operand))),
    decreases left(toks, operand.end(start)),
{
    let at = operand.end(start);
    if peek(toks, at) == Some(TokValView::Op(token::OpKind::Fact)) {
        lemma_token_span(toks, at, at);
        lemma_unary(toks, AstValView::Op(OpKind::Fact), toks[at].span, operand.tree);
        lemma_factorials_proper(
            toks,
            start,
            Parse {
                tree: unary(AstValView::Op(OpKind::Fact), toks[at].span, operand.tree),
                extra: operand.extra + 1,
            },
        );
    }
}

proof fn lemma_exponent_proper(toks: Seq<TokenView>, start: int, depth: Depth)
    requires
        0 <= start,
    ensures
        proper(toks, start, exponent(toks, start, depth)),
    decreases left(toks, start), 1nat,
{
    lemma_exponent(toks, start, depth);
    lemma_number_proper(toks, start, depth);
    if let Ok(operand) = number(toks, start, depth) {
        lemma_factorials_proper(toks, start, operand);
    }
}

proof fn lemma_factor_proper(toks: Seq<TokenView>, start: int, depth: Depth)
    requires
        0 <= start,
    ensures
        proper(toks, start, factor(toks, start, depth)),
    decreases left(toks, start), 2nat,
{
    lemma_factor(toks, start, depth);
    if peek(toks, start) == Some(TokValView::Op(token::OpKind::Minus)) {
        lemma_token_span(toks, start, start);
        lemma_factor_proper(toks, start + 1, depth);
        if let Ok(rhs) = factor(toks, start + 1, depth) {
            lemma_unary(toks, AstValView::Op(OpKind::Neg), toks[start].span, rhs.tree);
        }
    } else {
        lemma_exponent_proper(toks, start, depth);
        if let Ok(lhs) = exponent(toks, start, depth) {
            let at = lhs.end(start);
            if peek(toks, at) == Some(TokValView::Op(token::OpKind::Pow)) {
                lemma_token_span(toks, at, at);
                lemma_factor_proper(toks, at + 1, depth);
                if let Ok(rhs) = factor(toks, at + 1, depth) {
                    lemma_binary(
                        toks,
                        AstValView::Op(crate::ast::tree_op(toks[at].val->Op_0)),
                        toks[at].span,
                        lhs.tree,
                        rhs.tree,
                    );
                }
            }
        }
    }
}

proof fn lemma_product_rest_proper(toks: Seq<TokenView>, start: int, depth: Depth, lhs: Parse)
    requires
        0 <= start,
        proper(toks, start, Ok(lhs)),
    ensures
        proper(toks, start, product_rest(toks, start, depth, lhs)),
    decreases left(toks, lhs.end(start)), 0nat,
{
    lemma_product_rest(toks, start, depth, lhs);
    let at = lhs.end(start);
    if is_multiplicative(peek(toks, at)) {
        lemma_factor_proper(toks, at + 1, depth);
        if let Ok(rhs) = factor(toks, at + 1, depth) {
            lemma_join_proper(toks, start, lhs, rhs);
            lemma_product_rest_proper(toks, start, depth, join(toks, at, lhs, rhs));
        }
    }
}

proof fn lemma_product_proper(toks: Seq<TokenView>, start: int, depth: Depth)
    requires
        0 <= start,
    ensures
        proper(toks, start, product(toks, start, depth)),
    decreases left(toks, start), 3nat,
{
    lemma_product(toks, start, depth);
    lemma_factor_proper(toks, start, depth);
    if let Ok(lhs) = factor(toks, start, depth) {
        lemma_product_rest_proper(toks, start, depth, lhs);
    }
}

proof fn lemma_equation_rest_proper(toks: Seq<TokenView>, start: int, depth: Depth, lhs: Parse)
    requires
        0 <= start,
        proper(toks, start, Ok(lhs)),
    ensures
        proper(toks, start, equation_rest(toks, start, depth, lhs)),
    decreases left(toks, lhs.end(start)), 0nat,
{
    lemma_equation_rest(toks, start, depth, lhs);
    let at = lhs.end(start);
    if at < toks.len() {
        lemma_token_span(toks, at, at);
    }
    if is_additive(peek(toks, at)) {
        lemma_product_proper(toks, at + 1, depth);
        if let Ok(rhs) = product(toks, at + 1, depth) {
            lemma_join_proper(toks, start, lhs, rhs);
            lemma_equation_rest_proper(toks, start, depth, join(toks, at, lhs, rhs));
        }
    }
}

proof fn lemma_equation_proper(toks: Seq<TokenView>, start: int, depth: Depth)
    requires
        0 <= start,
    ensures
        proper(toks, start, equation(toks, start, depth)),
    decreases left(toks, start), 4nat,
{
    lemma_equation(toks, start, depth);
    lemma_product_proper(toks, start, depth);
    if let Ok(lhs) = product(toks, start, depth) {
        lemma_equation_rest_proper(toks, start, depth, lhs);
    }
}

/// Every tree that a parse produces has, at every node, as many children as
/// the node's kind demands, and is an expression or the assignment of an
/// expression to a name. No error of a parse is an internal one, and each
/// tells where it lies. No span ends beyond the reach of the tokens, neither
/// in the tree nor in the error, and where the tokens are in order, none ends
/// before it starts.
pub proof fn lemma_parse_conforming(toks: Seq<TokenView>)
    ensures
        match parse(toks) {
            Ok(tree) => {
                &&& tree.well_formed()
                &&& tree.is_statement()
                &&& tree.spans_below(reach(toks) as nat)
                &&& ordered(toks) ==> tree.spans_wf()
            },
            Err(e) => {
                &&& e.kind != ErrorKind::InternalError
                &&& e.span matches Some(span)
                &&& span.1 <= reach(toks)
                &&& ordered(toks) ==> span.0 <= span.1
            },
        },
{
    let top = Depth { paren: 0, abs: 0 };
    lemma_equation_proper(toks, 0, top);
    if let Ok(eq) = equation(toks, 0, top) {
        let at = eq.end(0);
        lemma_equation_proper(toks, at + 1, top);
        crate::ast::lemma_total_span_below(eq.tree, reach(toks) as nat);
        if ordered(toks) {
            crate::ast::lemma_total_span(eq.tree);
        }
        if at < toks.len() {
            lemma_token_span(toks, at, at);
        }
        if peek(toks, at) == Some(TokValView::Op(token::OpKind::Assign)) && eq.tree.val is Name {
            if let Ok(rhs) = equation(toks, at + 1, top) {
                let node = binary(AstValView::Op(OpKind::Assign), toks[at].span, eq.tree, rhs.tree);
                assert forall|i: int| 0 <= i < node.branches.len() implies (
                #[trigger] node.branches[i]) == eq.tree || node.branches[i] == rhs.tree by {}
            }
        }
    }
}

/// The content of a parser's result.
pub open spec fn parsed_view(r: CalcrResult<Ast>) -> Result<AstView, CalcrErrorView> {
    match r {
        Ok(ast) => Ok(ast@),
        Err(e) => Err(e@),
    }
}

/// Parses the tokens of one line.
pub fn parse_tokens(tokens: Vec<Token>) -> (r: CalcrResult<Ast>)
    ensures
        parsed_view(r) == parse(tokens_view(tokens@)),
        r matches Ok(ast) ==> ast@.well_formed() && ast@.is_statement(),
        match r {
            Ok(ast) => ast@.spans_below(reach(tokens_view(tokens@)) as nat),
            Err(e) => e.span matches Some(span) && span.1 <= reach(tokens_view(tokens@)),
        },
        ordered(tokens_view(tokens@)) ==> match r {
            Ok(ast) => ast@.spans_wf(),
            Err(e) => e.wf(),
        },
{
    proof {
        lemma_parse_conforming(tokens_view(tokens@));
    }
    let end_pos = if tokens.len() > 0 {
        tokens[tokens.len() - 1].span.1
    } else {
        0
    };
    let mut parser = Parser { tokens, pos: 0, paren_level: 0, abs_level: 0, end_pos };
    parser.parse_expression()
}

/// The meaning of a built-in name, if `name` is one.
pub fn get_builtin_name(name: &String) -> (r: Option<AstVal>)
    ensures
        match r {
            Some(val) => builtin(name@) == Some(val@),
            None => builtin(name@) is None,
        },
{
    reveal(builtin);
    if is_word(name, "ans") {
        Some(AstVal::LastResult)
    } else if is_word(name, "pi") || is_word(name, "\u{3c0}") {
        Some(AstVal::Const(ConstKind::Pi))
    } else if is_word(name, "e") {
        Some(AstVal::Const(ConstKind::E))
    } else if is_word(name, "phi") || is_word(name, "\u{3d5}") {
        Some(AstVal::Const(ConstKind::Phi))
    } else if is_word(name, "cos") {
        Some(AstVal::Func(FuncKind::Cos))
    } else if is_word(name, "sin") {
        Some(AstVal::Func(FuncKind::Sin))
    } else if is_word(name, "tan") {
        Some(AstVal::Func(FuncKind::Tan))
    } else if is_word(name, "asin") {
        Some(AstVal::Func(FuncKind::Asin))
    } else if is_word(name, "acos") {
        Some(AstVal::Func(FuncKind::Acos))
    } else if is_word(name, "atan") {
        Some(AstVal::Func(FuncKind::Atan))
    } else if is_word(name, "sqrt") || is_word(name, "\u{221a}") {
        Some(AstVal::Func(FuncKind::Sqrt))
    } else if is_word(name, "abs") {
        Some(AstVal::Func(FuncKind::Abs))
    } else if is_word(name, "exp") {
        Some(AstVal::Func(FuncKind::Exp))
    } else if is_word(name, "ln") {
        Some(AstVal::Func(FuncKind::Ln))
    } else if is_word(name, "log") {
        Some(AstVal::Func(FuncKind::Log))
    } else {
        None
    }
}

fn make_leaf(val: AstVal, span: (usize, usize)) -> (ast: Ast)
    ensures
        ast@ == leaf(val@, span),
{
    let ast = Ast { val, span, branches: Vec::new() };
    assert(ast@.branches =~= Seq::empty());
    ast
}

fn make_unary(val: AstVal, span: (usize, usize), child: Ast) -> (ast: Ast)
    ensures
        ast@ == unary(val@, span, child@),
{
    let mut branches = Vec::new();
    branches.push(child);
    let ast = Ast { val, span, branches };
    assert(ast@.branches =~= seq![child@]);
    ast
}

fn make_binary(val: AstVal, span: (usize, usize), lhs: Ast, rhs: Ast) -> (ast: Ast)
    ensures
        ast@ == binary(val@, span, lhs@, rhs@),
{
    let mut branches = Vec::new();
    branches.push(lhs);
    branches.push(rhs);
    let ast = Ast { val, span, branches };
    assert(ast@.branches =~= seq![lhs@, rhs@]);
    ast
}

fn error(kind: ErrorKind, desc: &str, span: (usize, usize)) -> (e: CalcrError)
    ensures
        e@ == parse_error(kind, desc@, span),
{
    CalcrError { kind, desc: String::from_str(desc), span: Some(span) }
}

/// A place in a sequence of tokens, with the count of the delimiters that are
/// open there.
pub struct Parser {
    tokens: Vec<Token>,
    pos: usize,
    paren_level: usize,
    abs_level: usize,
    end_pos: usize,
}

/// What a parsing step did: it left the tokens alone, and either read the
/// tree that `expected` holds, moved behind it and left the delimiter counts
/// as they were, or failed with the error that `expected` holds.
spec fn yields(before: Parser, after: Parser, r: CalcrResult<Ast>, expected: Parsed) -> bool {
    &&& after.tokens == before.tokens
    &&& after.end_pos == before.end_pos
    &&& match r {
        Ok(ast) => {
            &&& expected matches Ok(p)
            &&& p.tree == ast@
            &&& after.pos == before.pos + 1 + p.extra
            &&& after.paren_level == before.paren_level
            &&& after.abs_level == before.abs_level
            &&& after.wf()
        },
        Err(e) => expected == Err::<Parse, CalcrErrorView>(e@),
    }
}

impl Parser {
    spec fn toks(&self) -> Seq<TokenView> {
        tokens_view(self.tokens@)
    }

    spec fn depth(&self) -> Depth {
        Depth { paren: self.paren_level as nat, abs: self.abs_level as nat }
    }

    /// The position is within the tokens, and no more delimiters are open
    /// than tokens were read.
    spec fn wf(&self) -> bool {
        &&& self.pos <= self.tokens@.len()
        &&& self.paren_level + self.abs_level <= self.pos
        &&& self.end_pos == end_position(self.toks())
    }

    fn parse_expression(&mut self) -> (r: CalcrResult<Ast>)
        requires
            old(self).wf(),
            old(self).pos == 0,
            old(self).paren_level == 0,
            old(self).abs_level == 0,
        ensures
            parsed_view(r) == parse(old(self).toks()),
    {
        let eq = self.parse_equation()?;
        if self.toks_empty() {
            Ok(eq)
        } else if self.next_tok_is(&TokVal::Op(token::OpKind::Assign)) {
            let tok_span = self.consume_tok().span;
            if let AstVal::Name(_) = eq.val {
                let rhs = self.parse_equation()?;
                Ok(make_binary(AstVal::Op(OpKind::Assign), tok_span, eq, rhs))
            } else {
                let assign_target = match eq.val {
                    AstVal::Func(_) => "function",
                    AstVal::Const(_) => "constant",
                    AstVal::Num(_) => "number",
                    AstVal::LastResult => "constant",
                    _ => "equtation",
                };
                let mut desc = String::from_str("Cannot assign to ");
                desc.append(assign_target);
                Err(
                    CalcrError {
                        kind: ErrorKind::InvalidAssignmentTarget,
                        desc,
                        span: Some(eq.get_total_span()),
                    },
                )
            }
        } else {
            let tok = self.consume_tok();
            Err(error(ErrorKind::ExpectedOperator, "Expected operator", tok.span))
        }
    }

    fn parse_equation(&mut self) -> (r: CalcrResult<Ast>)
        requires
            old(self).wf(),
        ensures
            yields(
                *old(self),
                *final(self),
                r,
                equation(old(self).toks(), old(self).pos as int, old(self).depth()),
            ),
        decreases old(self).tokens@.len() - old(self).pos, 4nat,
    {
        let ghost toks = self.toks();
        let ghost start = self.pos as int;
        let ghost depth = self.depth();
        proof {
            lemma_equation(toks, start, depth);
        }
        let mut lhs = self.parse_product()?;
        while self.next_tok_is(&TokVal::Op(token::OpKind::Plus)) || self.next_tok_is(
            &TokVal::Op(token::OpKind::Minus),
        )
            invariant
                self.wf(),
                self.tokens == old(self).tokens,
                self.end_pos == old(self).end_pos,
                self.paren_level == old(self).paren_level,
                self.abs_level == old(self).abs_level,
                toks == old(self).toks(),
                start == old(self).pos,
                depth == old(self).depth(),
                self.pos > start,
                equation(toks, start, depth) == equation_rest(
                    toks,
                    start,
                    depth,
                    Parse { tree: lhs@, extra: (self.pos - start - 1) as nat },
                ),
            decreases self.tokens@.len() - self.pos,
        {
            proof {
                lemma_equation_rest(
                    toks,
                    start,
                    depth,
                    Parse { tree: lhs@, extra: (self.pos - start - 1) as nat },
                );
            }
            let Token { val: tok_val, span: tok_span } = self.consume_tok();
            let rhs = self.parse_product()?;
            lhs = make_binary(AstVal::Op(tree_op_of(tok_val)), tok_span, lhs, rhs);
        }
        proof {
            lemma_equation_rest(
                toks,
                start,
                depth,
                Parse { tree: lhs@, extra: (self.pos - start - 1) as nat },
            );
        }
        if self.next_tok_is_close_delim() && self.paren_level < 1 {
            let Token { val: _, span: tok_span } = self.consume_tok();
            Err(
                error(
                    ErrorKind::MissingOpeningDelimiter,
                    "Missing matching opening delimiter",
                    tok_span,
                ),
            )
        } else if self.next_tok_is(&TokVal::AbsDelim) && self.abs_level < 1 {
            let Token { val: _, span: tok_span } = self.consume_tok();
            Err(error(ErrorKind::MissingOpeningDelimiter, "Missing opening abs delimiter", tok_span))
        } else {
            Ok(lhs)
        }
    }

    fn parse_product(&mut self) -> (r: CalcrResult<Ast>)
        requires
            old(self).wf(),
        ensures
            yields(
                *old(self),
                *final(self),
                r,
                product(old(self).toks(), old(self).pos as int, old(self).depth()),
            ),
        decreases old(self).tokens@.len() - old(self).pos, 3nat,
    {
        let ghost toks = self.toks();
        let ghost start = self.pos as int;
        let ghost depth = self.depth();
        proof {
            lemma_product(toks, start, depth);
        }
        let mut lhs = self.parse_factor()?;
        while self.next_tok_is(&TokVal::Op(token::OpKind::Mult)) || self.next_tok_is(
            &TokVal::Op(token::OpKind::Div),
        )
            invariant
                self.wf(),
                self.tokens == old(self).tokens,
                self.end_pos == old(self).end_pos,
                self.paren_level == old(self).paren_level,
                self.abs_level == old(self).abs_level,
                toks == old(self).toks(),
                start == old(self).pos,
                depth == old(self).depth(),
                self.pos > start,
                product(toks, start, depth) == product_rest(
                    toks,
                    start,
                    depth,
                    Parse { tree: lhs@, extra: (self.pos - start - 1) as nat },
                ),
            decreases self.tokens@.len() - self.pos,
        {
            proof {
                lemma_product_rest(
                    toks,
                    start,
                    depth,
                    Parse { tree: lhs@, extra: (self.pos - start - 1) as nat },
                );
            }
            let Token { val: tok_val, span: tok_span } = self.consume_tok();
            let rhs = self.parse_factor()?;
            lhs = make_binary(AstVal::Op(tree_op_of(tok_val)), tok_span, lhs, rhs);
        }
        proof {
            lemma_product_rest(
                toks,
                start,
                depth,
                Parse { tree: lhs@, extra: (self.pos - start - 1) as nat },
            );
        }
        Ok(lhs)
    }

    fn parse_factor(&mut self) -> (r: CalcrResult<Ast>)
        requires
            old(self).wf(),
        ensures
            yields(
                *old(self),
                *final(self),
                r,
                factor(old(self).toks(), old(self).pos as int, old(self).depth()),
            ),
        decreases old(self).tokens@.len() - old(self).pos, 2nat,
    {
        proof {
            lemma_factor(self.toks(), self.pos as int, self.depth());
        }
        // The lexer knows no negation: a `-` that stands where a factor
        // starts is one.
        if self.next_tok_is(&TokVal::Op(token::OpKind::Minus)) {
            let tok_span = self.consume_tok().span;
            let rhs = self.parse_factor()?;
            Ok(make_unary(AstVal::Op(OpKind::Neg), tok_span, rhs))
        } else {
            let lhs = self.parse_exponent()?;
            if self.next_tok_is(&TokVal::Op(token::OpKind::Pow)) {
                let tok_span = self.consume_tok().span;
                let rhs = self.parse_factor()?;
                Ok(make_binary(AstVal::Op(OpKind::Pow), tok_span, lhs, rhs))
            } else {
                Ok(lhs)
            }
        }
    }

    fn parse_exponent(&mut self) -> (r: CalcrResult<Ast>)
        requires
            old(self).wf(),
        ensures
            yields(
                *old(self),
                *final(self),
                r,
                exponent(old(self).toks(), old(self).pos as int, old(self).depth()),
            ),
        decreases old(self).tokens@.len() - old(self).pos, 1nat,
    {
        let ghost toks = self.toks();
        let ghost start = self.pos as int;
        let ghost depth = self.depth();
        proof {
            lemma_exponent(toks, start, depth);
        }
        let mut out = self.parse_number()?;
        let ghost operand = Parse { tree: out@, extra: (self.pos - start - 1) as nat };
        while self.next_tok_is(&TokVal::Op(token::OpKind::Fact))
            invariant
                self.wf(),
                self.tokens == old(self).tokens,
                self.end_pos == old(self).end_pos,
                self.paren_level == old(self).paren_level,
                self.abs_level == old(self).abs_level,
                toks == old(self).toks(),
                start == old(self).pos,
                self.pos > start,
                factorials(toks, start, operand) == factorials(
                    toks,
                    start,
                    Parse { tree: out@, extra: (self.pos - start - 1) as nat },
                ),
            decreases self.tokens@.len() - self.pos,
        {
            let tok_span = self.consume_tok().span;
            out = make_unary(AstVal::Op(OpKind::Fact), tok_span, out);
        }
        Ok(out)
    }

    fn parse_number(&mut self) -> (r: CalcrResult<Ast>)
        requires
            old(self).wf(),
        ensures
            yields(
                *old(self),
                *final(self),
                r,
                number(old(self).toks(), old(self).pos as int, old(self).depth()),
            ),
        decreases old(self).tokens@.len() - old(self).pos, 0nat,
    {
        proof {
            lemma_number(self.toks(), self.pos as int, self.depth());
        }
        if self.toks_empty() {
            Err(
                error(
                    ErrorKind::UnexpectedEndOfInput,
                    "Expected number or constant",
                    (self.end_pos, self.end_pos),
                ),
            )
        } else {
            let Token { val: tok_val, span: tok_span } = self.consume_tok();
            match tok_val {
                TokVal::Name(name) => {
                    let val = match get_builtin_name(&name) {
                        Some(val) => val,
                        None => AstVal::Name(name),
                    };
                    if let AstVal::Func(_) = val {
                        // A function takes its argument from the group that
                        // follows its name.
                        if self.next_tok_is_open_delim() {
                            let arg = self.parse_number()?;
                            Ok(make_unary(val, tok_span, arg))
                        } else {
                            Err(
                                error(
                                    ErrorKind::MissingFunctionArgument,
                                    "Missing opening delimiter after function",
                                    tok_span,
                                ),
                            )
                        }
                    } else {
                        Ok(make_leaf(val, tok_span))
                    }
                },
                TokVal::OpenDelim(kind) => {
                    self.paren_level += 1;
                    let eq = self.parse_equation()?;
                    if !self.next_tok_is(&TokVal::CloseDelim(kind)) {
                        let unmatched = self.next_tok_is_close_delim();
                        Err(
                            error(
                                if unmatched {
                                    ErrorKind::UnmatchedDelimiter
                                } else {
                                    ErrorKind::MissingClosingDelimiter
                                },
                                "Missing matching closing delimiter",
                                tok_span,
                            ),
                        )
                    } else {
                        self.consume_tok();
                        self.paren_level -= 1;
                        Ok(eq)
                    }
                },
                TokVal::AbsDelim => {
                    self.abs_level += 1;
                    let eq = self.parse_equation()?;
                    if !self.next_tok_is(&TokVal::AbsDelim) {
                        Err(
                            error(
                                ErrorKind::MissingClosingDelimiter,
                                "Missing closing abs delimiter",
                                tok_span,
                            ),
                        )
                    } else {
                        self.abs_level -= 1;
                        let close_delim_span = self.consume_tok().span;
                        Ok(
                            make_unary(
                                AstVal::Func(FuncKind::Abs),
                                (tok_span.0, close_delim_span.1),
                                eq,
                            ),
                        )
                    }
                },
                TokVal::Num(num) => Ok(make_leaf(AstVal::Num(num), tok_span)),
                TokVal::CloseDelim(_) => {
                    // A closing delimiter where nothing is open is missing
                    // its opening one. Inside a group it is merely too early.
                    if self.paren_level < 1 {
                        Err(
                            error(
                                ErrorKind::MissingOpeningDelimiter,
                                "Missing matching opening delimiter",
                                tok_span,
                            ),
                        )
                    } else {
                        Err(
                            error(
                                ErrorKind::ExpectedNumberOrConstant,
                                "Expected number or constant",
                                tok_span,
                            ),
                        )
                    }
                },
                TokVal::Op(_) => Err(
                    error(ErrorKind::ExpectedNumberOrConstant, "Expected number or constant", tok_span),
                ),
            }
        }
    }

    /// Whether the next token has the value `val`.
    fn next_tok_is(&self, val: &TokVal) -> (r: bool)
        requires
            self.wf(),
        ensures
            r == (peek(self.toks(), self.pos as int) == Some(val@)),
    {
        if self.pos < self.tokens.len() {
            same_value(&self.tokens[self.pos].val, val)
        } else {
            false
        }
    }

    /// Whether the next token opens a group.
    fn next_tok_is_open_delim(&self) -> (r: bool)
        requires
            self.wf(),
        ensures
            r == (peek(self.toks(), self.pos as int) is Some && peek(
                self.toks(),
                self.pos as int,
            )->0 is OpenDelim),
    {
        self.pos < self.tokens.len() && self.tokens[self.pos].val.is_open_delim()
    }

    /// Whether the next token closes a group.
    fn next_tok_is_close_delim(&self) -> (r: bool)
        requires
            self.wf(),
        ensures
            r == (peek(self.toks(), self.pos as int) is Some && peek(
                self.toks(),
                self.pos as int,
            )->0 is CloseDelim),
    {
        self.pos < self.tokens.len() && self.tokens[self.pos].val.is_close_delim()
    }

    /// Whether every token has been read.
    fn toks_empty(&self) -> (r: bool)
        requires
            self.wf(),
        ensures
            r == (self.pos >= self.tokens@.len()),
            r == (peek(self.toks(), self.pos as int) is None),
    {
        self.pos >= self.tokens.len()
    }

    /// Steps over the next token and returns it.
    fn consume_tok(&mut self) -> (tok: Token)
        requires
            old(self).wf(),
            old(self).pos < old(self).tokens@.len(),
        ensures
            final(self).tokens == old(self).tokens,
            final(self).end_pos == old(self).end_pos,
            final(self).paren_level == old(self).paren_level,
            final(self).abs_level == old(self).abs_level,
            final(self).pos == old(self).pos + 1,
            final(self).wf(),
            tok@ == old(self).toks()[old(self).pos as int],
    {
        assert(self.pos < self.tokens.len());
        let tok = Token { val: self.tokens[self.pos].val.clone(), span: self.tokens[self.pos].span };
        self.pos += 1;
        tok
    }
}

/// The operator of the tree that the operator token `val` stands for between
/// two operands.
fn tree_op_of(val: TokVal) -> (r: OpKind)
    requires
        val is Op,
    ensures
        r == crate::ast::tree_op(val->Op_0),
{
    match val.op() {
        Some(op) => OpKind::from(op),
        None => OpKind::Plus,
    }
}

/// Whether two token values have the same content.
fn same_value(a: &TokVal, b: &TokVal) -> (r: bool)
    ensures
        r == (a@ == b@),
{
    match (a, b) {
        (TokVal::Name(x), TokVal::Name(y)) => *x == *y,
        (TokVal::Num(x), TokVal::Num(y)) => *x == *y,
        (TokVal::Op(x), TokVal::Op(y)) => *x == *y,
        (TokVal::OpenDelim(x), TokVal::OpenDelim(y)) => *x == *y,
        (TokVal::CloseDelim(x), TokVal::CloseDelim(y)) => *x == *y,
        (TokVal::AbsDelim, TokVal::AbsDelim) => true,
        _ => false,
    }
}

} // verus!
