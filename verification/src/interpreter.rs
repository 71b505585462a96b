//! The evaluator: from a syntax tree to a value, within a session that
//! remembers variables and the last result.
//!
//! Values are IEEE-754 binary64 bit patterns. The interpreter walks the tree,
//! resolves names, enforces the domains of the square root, the logarithms
//! and the factorial, and keeps the session. The arithmetic itself is done by
//! a *kernel* that the caller supplies: a function from a [`Calc`] request to
//! the resulting bit pattern. The contracts hold for every kernel.

use vstd::prelude::*;
use vstd::string::StringExecFns;
use crate::ast::{
    Ast,
    AstVal,
    AstValView,
    AstView,
    ConstKind,
    FuncKind,
    OpKind,
    lemma_spans_below,
    lemma_total_span,
    lemma_total_span_below,
    wrong_arity,
};
use crate::token::{lemma_in_sequence_ordered, lemma_reach_in_sequence, reach, tokens_view};
use crate::binary64::{
    ZERO,
    count,
    is_count,
    is_negative,
    is_non_positive,
    negative,
    non_positive,
};
use crate::errors::{CalcrError, CalcrErrorView, CalcrResult, ErrorKind};
use crate::lexer::{lemma_lex_errors, lemma_lex_spans, lex, lex_equation};
use crate::parser::{lemma_parse_conforming, parse, parse_tokens};

verus! {

/// One piece of arithmetic that the interpreter asks the kernel to do.
#[derive(Debug, PartialEq)]
pub enum Calc {
    /// The value of a decimal literal.
    Literal(String),
    /// The value of a built-in constant.
    Constant(ConstKind),
    /// A built-in function at an argument.
    Function(FuncKind, u64),
    Add(u64, u64),
    Sub(u64, u64),
    Mul(u64, u64),
    Div(u64, u64),
    /// The first value raised to the power of the second.
    Pow(u64, u64),
    Negate(u64),
    /// The product of the whole numbers from one up to the argument.
    Factorial(u64),
}

/// The mathematical content of a [`Calc`].
pub enum CalcView {
    Literal(Seq<char>),
    Constant(ConstKind),
    Function(FuncKind, u64),
    Add(u64, u64),
    Sub(u64, u64),
    Mul(u64, u64),
    Div(u64, u64),
    Pow(u64, u64),
    Negate(u64),
    Factorial(u64),
}

impl View for Calc {
    type V = CalcView;

    open spec fn view(&self) -> CalcView {
        match self {
            Calc::Literal(text) => CalcView::Literal(text@),
            Calc::Constant(c) => CalcView::Constant(*c),
            Calc::Function(f, x) => CalcView::Function(*f, *x),
            Calc::Add(x, y) => CalcView::Add(*x, *y),
            Calc::Sub(x, y) => CalcView::Sub(*x, *y),
            Calc::Mul(x, y) => CalcView::Mul(*x, *y),
            Calc::Div(x, y) => CalcView::Div(*x, *y),
            Calc::Pow(x, y) => CalcView::Pow(*x, *y),
            Calc::Negate(x) => CalcView::Negate(*x),
            Calc::Factorial(x) => CalcView::Factorial(*x),
        }
    }
}

/// What a kernel may answer: the pairs of a request and a value such that the
/// kernel may return the value for the request.
pub type Answers = spec_fn(CalcView, u64) -> bool;

/// What the kernel `kernel` may answer.
pub open spec fn answers<K: Fn(Calc) -> u64>(kernel: K) -> Answers {
    |c: CalcView, v: u64| exists|x: Calc| x@ == c && #[trigger] kernel.ensures((x,), v)
}

/// The kernel has one answer to every request.
pub open spec fn single_valued(k: Answers) -> bool {
    forall|c: CalcView, v: u64, w: u64| #[trigger] k(c, v) && #[trigger] k(c, w) ==> v == w
}

/// The requests that the interpreter makes. It asks for no square root of a
/// negative value, no logarithm of a value that is zero or less, and for the
/// factorial only of whole values that are not negative.
pub open spec fn in_domain(c: CalcView) -> bool {
    match c {
        CalcView::Function(f, x) => domain_violation(f, x) is None,
        CalcView::Factorial(x) => is_count(x),
        _ => true,
    }
}

/// The kernel can be asked whatever the interpreter asks.
pub open spec fn serves<K: Fn(Calc) -> u64>(kernel: K) -> bool {
    forall|c: Calc| in_domain(c@) ==> #[trigger] kernel.requires((c,))
}

/// The variables of a session and its last result.
pub struct Env {
    pub vars: Map<Seq<char>, u64>,
    pub last: u64,
}

/// The result of evaluating a tree: a value or an error.
pub type Value = Result<u64, CalcrErrorView>;

/// The result of running a line: a value, nothing (after an assignment), or
/// an error.
pub type Outcome = Result<Option<u64>, CalcrErrorView>;

/// `out` is an answer of the kernel to the request `c`.
pub open spec fn asked(k: Answers, c: CalcView, out: Value) -> bool {
    out matches Ok(v) && k(c, v)
}

pub open spec fn eval_error(kind: ErrorKind, desc: Seq<char>, span: (usize, usize)) -> CalcrErrorView {
    CalcrErrorView { kind, desc, span: Some(span) }
}

/// The error that tells of a malformed tree.
pub open spec fn internal_error(desc: Seq<char>) -> CalcrErrorView {
    CalcrErrorView { kind: ErrorKind::InternalError, desc, span: None }
}

/// The value of the variable `name`, or the error for a name that is not
/// known, which points at `span`.
pub open spec fn resolved(env: Env, name: Seq<char>, span: (usize, usize)) -> Value {
    if env.vars.dom().contains(name) {
        Ok(env.vars[name])
    } else {
        Err(
            eval_error(ErrorKind::UnknownIdentifier, "Invalid function or constant: "@ + name, span),
        )
    }
}

/// What is wrong with applying `f` to `x`, if `x` is outside the domain of
/// `f`. The square root wants a value that is not negative, the logarithms
/// one above zero. The other functions take every value.
pub open spec fn domain_violation(f: FuncKind, x: u64) -> Option<Seq<char>> {
    match f {
        FuncKind::Sqrt => if is_negative(x) {
            Some("Cannot take the square root of a negative number"@)
        } else {
            None
        },
        FuncKind::Ln | FuncKind::Log => if is_non_positive(x) {
            Some("Cannot take the logarithm of a non-positive number"@)
        } else {
            None
        },
        _ => None,
    }
}

/// `out` is what applying `f` to `arg` gives, where `span` is where the
/// argument stands in the input: the error of the argument, a domain error
/// that points at the argument, or the kernel's answer.
pub open spec fn applied(f: FuncKind, arg: Value, span: (usize, usize), k: Answers, out: Value) -> bool {
    match arg {
        Ok(x) => match domain_violation(f, x) {
            Some(desc) => out == Err::<u64, CalcrErrorView>(
                eval_error(ErrorKind::DomainError, desc, span),
            ),
            None => asked(k, CalcView::Function(f, x), out),
        },
        Err(e) => out == Err::<u64, CalcrErrorView>(e),
    }
}

/// `out` is what the operator `op` gives between the value `x` and `rhs`:
/// the error of `rhs`, the kernel's answer for one of the five arithmetic
/// operators, or an internal error for any other operator.
pub open spec fn combined(op: OpKind, x: u64, rhs: Value, k: Answers, out: Value) -> bool {
    match rhs {
        Ok(y) => match op {
            OpKind::Plus => asked(k, CalcView::Add(x, y), out),
            OpKind::Minus => asked(k, CalcView::Sub(x, y), out),
            OpKind::Mult => asked(k, CalcView::Mul(x, y), out),
            OpKind::Div => asked(k, CalcView::Div(x, y), out),
            OpKind::Pow => asked(k, CalcView::Pow(x, y), out),
            _ => out == Err::<u64, CalcrErrorView>(
                internal_error("Internal error - expected AstOp to have binary branch"@),
            ),
        },
        Err(e) => out == Err::<u64, CalcrErrorView>(e),
    }
}

/// `out` is the factorial of `x`, whose operand stands at `span`: the
/// kernel's answer where `x` is a whole number that is not negative, and a
/// domain error that points at the operand otherwise.
pub open spec fn factorial_of(x: u64, span: (usize, usize), k: Answers, out: Value) -> bool {
    if is_count(x) {
        asked(k, CalcView::Factorial(x), out)
    } else {
        out == Err::<u64, CalcrErrorView>(
            eval_error(
                ErrorKind::DomainError,
                "The factorial function only accepts positive whole numbers"@,
                span,
            ),
        )
    }
}

/// `out` is what the operator `op` gives of `operand`, which stands at
/// `span`: the error of the operand, its negation, its factorial, or an
/// internal error for any other operator.
pub open spec fn transformed(
    op: OpKind,
    operand: Value,
    span: (usize, usize),
    k: Answers,
    out: Value,
) -> bool {
    match operand {
        Ok(x) => match op {
            OpKind::Neg => asked(k, CalcView::Negate(x), out),
            OpKind::Fact => factorial_of(x, span, k, out),
            _ => out == Err::<u64, CalcrErrorView>(
                internal_error("Internal error - expected AstOp to have unary branch"@),
            ),
        },
        Err(e) => out == Err::<u64, CalcrErrorView>(e),
    }
}

/// What an evaluation did at a node and below it: the outcome at the node,
/// and the runs of those children that were evaluated, in order.
pub struct Run {
    pub out: Value,
    pub subs: Seq<Run>,
}

/// `run` is a run of the tree `a` in the session `env` with the kernel `k`.
///
/// A literal and a constant are what the kernel says they are. `ans` is the
/// last result, a name the value of its variable. A function is applied to
/// the value of its only child. An operator with two children combines their
/// values; the right child is evaluated only where the left one has a value.
/// An operator with a single child transforms its value. An error below a
/// node is the outcome of the node. A node whose children are not as many as
/// its kind demands gives an internal error.
pub open spec fn sound(a: AstView, env: Env, k: Answers, run: Run) -> bool
    decreases a,
{
    match a.val {
        AstValView::Num(text) => asked(k, CalcView::Literal(text), run.out),
        AstValView::Const(c) => asked(k, CalcView::Constant(c), run.out),
        AstValView::LastResult => run.out == Ok::<u64, CalcrErrorView>(env.last),
        AstValView::Name(name) => run.out == resolved(env, name, a.total_span()),
        AstValView::Func(f) => if a.branches.len() == 1 {
            &&& run.subs.len() == 1
            &&& sound(a.branches[0], env, k, run.subs[0])
            &&& applied(f, run.subs[0].out, a.branches[0].total_span(), k, run.out)
        } else {
            run.out == Err::<u64, CalcrErrorView>(wrong_arity(1))
        },
        AstValView::Op(op) => if a.branches.len() == 2 {
            &&& run.subs.len() >= 1
            &&& sound(a.branches[0], env, k, run.subs[0])
            &&& match run.subs[0].out {
                Ok(x) => {
                    &&& run.subs.len() == 2
                    &&& sound(a.branches[1], env, k, run.subs[1])
                    &&& combined(op, x, run.subs[1].out, k, run.out)
                },
                Err(e) => run.out == Err::<u64, CalcrErrorView>(e),
            }
        } else if a.branches.len() == 1 {
            &&& run.subs.len() == 1
            &&& sound(a.branches[0], env, k, run.subs[0])
            &&& transformed(op, run.subs[0].out, a.branches[0].total_span(), k, run.out)
        } else {
            run.out == Err::<u64, CalcrErrorView>(
                internal_error("Internal error - AstOp nodes must have 1 or 2 branches"@),
            )
        },
    }
}

/// `out` and `after` are what the assignment of `value` to `name` leaves: the
/// variable is bound and nothing is shown, or the error of `value` is
/// reported and the session is as before.
pub open spec fn assigned(name: Seq<char>, value: Value, env: Env, out: Outcome, after: Env) -> bool {
    match value {
        Ok(v) => out == Ok::<Option<u64>, CalcrErrorView>(None) && after == Env {
            vars: env.vars.insert(name, v),
            last: env.last,
        },
        Err(e) => out == Err::<Option<u64>, CalcrErrorView>(e) && after == env,
    }
}

/// `out` and `after` are what the value of an expression leaves: the value
/// is shown and becomes the last result, or the error is reported and the
/// session is as before.
pub open spec fn remembered(value: Value, env: Env, out: Outcome, after: Env) -> bool {
    match value {
        Ok(v) => out == Ok::<Option<u64>, CalcrErrorView>(Some(v)) && after == Env {
            vars: env.vars,
            last: v,
        },
        Err(e) => out == Err::<Option<u64>, CalcrErrorView>(e) && after == env,
    }
}

/// Running the tree `a` in the session `env` with the kernel `k` may give
/// `out` and leave the session as `after`.
///
/// An assignment evaluates its right side and binds the name on its left to
/// the value. Any other tree is evaluated, and its value becomes the last
/// result. A failed run leaves the session as it was.
pub open spec fn executes(a: AstView, env: Env, k: Answers, out: Outcome, after: Env) -> bool {
    if a.val == AstValView::Op(OpKind::Assign) {
        if a.branches.len() != 2 {
            out == Err::<Option<u64>, CalcrErrorView>(wrong_arity(2)) && after == env
        } else {
            match a.branches[0].val {
                AstValView::Name(name) => exists|run: Run| #[trigger]
                    sound(a.branches[1], env, k, run) && assigned(
                        name,
                        run.out,
                        env,
                        out,
                        after,
                    ),
                _ => out == Err::<Option<u64>, CalcrErrorView>(
                    internal_error(
                        "Interal error - expected Assign to have Name in left branch"@,
                    ),
                ) && after == env,
            }
        }
    } else {
        exists|run: Run| #[trigger] sound(a, env, k, run) && remembered(run.out, env, out, after)
    }
}

/// Submitting the line `text` to the session `env` with the kernel `k` may
/// give `out` and leave the session as `after`: the line is split into
/// tokens, the tokens are parsed, and the tree is run. The first stage that
/// fails ends the run with its error, and the session stays as it was.
pub open spec fn interprets(text: Seq<char>, env: Env, k: Answers, out: Outcome, after: Env) -> bool {
    match lex(text) {
        Ok(toks) => match parse(toks) {
            Ok(a) => executes(a, env, k, out, after),
            Err(e) => out == Err::<Option<u64>, CalcrErrorView>(e) && after == env,
        },
        Err(e) => out == Err::<Option<u64>, CalcrErrorView>(e) && after == env,
    }
}

/// The content of an evaluation's result.
pub open spec fn value_view(r: CalcrResult<u64>) -> Value {
    match r {
        Ok(v) => Ok(v),
        Err(e) => Err(e@),
    }
}

/// The content of a run's result.
pub open spec fn outcome_view(r: CalcrResult<Option<u64>>) -> Outcome {
    match r {
        Ok(v) => Ok(v),
        Err(e) => Err(e@),
    }
}

/// The run of a node that has evaluated none of its children.
fn done(r: CalcrResult<u64>) -> (res: (CalcrResult<u64>, Ghost<Run>))
    ensures
        res.0 == r,
        res.1@ == (Run { out: value_view(r), subs: Seq::empty() }),
{
    let ghost run = Run { out: value_view(r), subs: Seq::empty() };
    (r, Ghost(run))
}

/// Asks the kernel.
fn ask<K: Fn(Calc) -> u64>(kernel: &K, c: Calc) -> (r: CalcrResult<u64>)
    requires
        serves(*kernel),
        in_domain(c@),
    ensures
        asked(answers(*kernel), c@, value_view(r)),
{
    let v = kernel(c);
    Ok(v)
}

/// A session: the variables that were assigned, and the last result.
pub struct Interpreter {
    /// Each variable with its value. No name occurs twice.
    vars: Vec<(String, u64)>,
    last_result: u64,
}

/// Another name for [`Interpreter`].
pub type Evaluator = Interpreter;

impl View for Interpreter {
    type V = Env;

    /// The variables as a map from names to values, and the last result.
    closed spec fn view(&self) -> Env {
        Env {
            vars: Map::new(
                |name: Seq<char>| self.position(name) is Some,
                |name: Seq<char>| self.vars@[self.position(name)->0].1,
            ),
            last: self.last_result,
        }
    }
}

impl Interpreter {
    /// Where the variable `name` is kept, if it is there.
    spec fn position(&self, name: Seq<char>) -> Option<int> {
        if exists|i: int| 0 <= i < self.vars@.len() && (#[trigger] self.vars@[i]).0@ == name {
            Some(choose|i: int| 0 <= i < self.vars@.len() && (#[trigger] self.vars@[i]).0@ == name)
        } else {
            None
        }
    }

    /// The session is well-formed: no variable is kept twice.
    pub closed spec fn wf(&self) -> bool {
        forall|i: int, j: int|
            0 <= i < j < self.vars@.len() ==> (#[trigger] self.vars@[i]).0@ != (
            #[trigger] self.vars@[j]).0@
    }

    /// A session without variables, whose last result is zero.
    pub fn new() -> (r: Interpreter)
        ensures
            r.wf(),
            r@ == (Env { vars: Map::empty(), last: ZERO }),
    {
        let r = Interpreter { vars: Vec::new(), last_result: ZERO };
        assert(r@.vars =~= Map::empty());
        r
    }

    /// Runs one line: an expression, whose value is returned and remembered
    /// as the last result, or an assignment, which binds a variable and
    /// returns nothing.
    pub fn eval_expression<K: Fn(Calc) -> u64>(&mut self, expr: &String, kernel: &K) -> (r:
        CalcrResult<Option<u64>>)
        requires
            old(self).wf(),
            serves(*kernel),
        ensures
            final(self).wf(),
            interprets(expr@, old(self)@, answers(*kernel), outcome_view(r), final(self)@),
            r matches Err(e) ==> e.wf() && e@.within(expr@.len()),
    {
        let toks = lex_equation(expr)?;
        let ghost limit = expr@.len();
        proof {
            lemma_in_sequence_ordered(tokens_view(toks@), expr@.len());
            lemma_reach_in_sequence(tokens_view(toks@), expr@.len());
        }
        let ghost tokens = tokens_view(toks@);
        let ast = parse_tokens(toks)?;
        proof {
            lemma_spans_below(ast@, reach(tokens) as nat, limit);
        }
        self.eval_expr(&ast, kernel)
    }

    /// Runs a tree.
    pub fn eval_expr<K: Fn(Calc) -> u64>(&mut self, ast: &Ast, kernel: &K) -> (r: CalcrResult<
        Option<u64>,
    >)
        requires
            old(self).wf(),
            serves(*kernel),
        ensures
            final(self).wf(),
            executes(ast@, old(self)@, answers(*kernel), outcome_view(r), final(self)@),
            ast@.spans_wf() ==> (r matches Err(e) ==> e.wf()),
            forall|limit: nat|
                ast@.spans_wf() && #[trigger] ast@.spans_below(limit) ==> (r matches Err(e)
                    ==> e@.within(limit)),
    {
        if let AstVal::Op(OpKind::Assign) = ast.val {
            let (lhs, rhs) = ast.get_binary_branches()?;
            assert(ast@.branches[0] == lhs@ && ast@.branches[1] == rhs@);
            if let AstVal::Name(name) = &lhs.val {
                let (val, Ghost(run)) = self.eval_eq(rhs, kernel);
                proof {
                    assert(sound(ast@.branches[1], self@, answers(*kernel), run));
                    if ast@.spans_wf() {
                        lemma_sound_located_in_each(ast@.branches[1], self@, answers(*kernel), run);
                        assert forall|limit: nat| #[trigger]
                            ast@.spans_below(limit) implies ast@.branches[1].spans_below(limit) by {}
                    }
                }
                let val = val?;
                self.store(name.clone(), val);
                Ok(None)
            } else {
                Err(
                    CalcrError {
                        kind: ErrorKind::InternalError,
                        desc: String::from_str(
                            "Interal error - expected Assign to have Name in left branch",
                        ),
                        span: None,
                    },
                )
            }
        } else {
            let (val, Ghost(run)) = self.eval_eq(ast, kernel);
            proof {
                assert(sound(ast@, self@, answers(*kernel), run));
                if ast@.spans_wf() {
                    lemma_sound_located_in_each(ast@, self@, answers(*kernel), run);
                }
            }
            let val = val?;
            self.last_result = val;
            assert(self@.vars =~= old(self)@.vars);
            Ok(Some(val))
        }
    }

    fn eval_eq<K: Fn(Calc) -> u64>(&self, ast: &Ast, kernel: &K) -> (res: (
        CalcrResult<u64>,
        Ghost<Run>,
    ))
        requires
            self.wf(),
            serves(*kernel),
        ensures
            sound(ast@, self@, answers(*kernel), res.1@),
            res.1@.out == value_view(res.0),
        decreases ast, 1nat,
    {
        match &ast.val {
            AstVal::Func(f) => self.eval_func(*f, ast, kernel),
            AstVal::Op(o) => self.eval_op(*o, ast, kernel),
            AstVal::Const(c) => done(self.eval_const(*c, kernel)),
            AstVal::Num(n) => done(ask(kernel, Calc::Literal(n.clone()))),
            AstVal::LastResult => done(Ok(self.last_result)),
            AstVal::Name(name) => {
                match self.lookup(name) {
                    Some(val) => done(Ok(val)),
                    None => {
                        let mut desc = String::from_str("Invalid function or constant: ");
                        desc.append(name.as_str());
                        done(
                            Err(
                                CalcrError {
                                    kind: ErrorKind::UnknownIdentifier,
                                    desc,
                                    span: Some(ast.get_total_span()),
                                },
                            ),
                        )
                    },
                }
            },
        }
    }

    fn eval_func<K: Fn(Calc) -> u64>(&self, f: FuncKind, ast: &Ast, kernel: &K) -> (res: (
        CalcrResult<u64>,
        Ghost<Run>,
    ))
        requires
            self.wf(),
            serves(*kernel),
            ast@.val == AstValView::Func(f),
        ensures
            sound(ast@, self@, answers(*kernel), res.1@),
            res.1@.out == value_view(res.0),
        decreases ast, 0nat,
    {
        let child = match ast.get_unary_branch() {
            Ok(child) => child,
            Err(e) => {
                return done(Err(e));
            },
        };
        let (arg, Ghost(sub)) = self.eval_eq(child, kernel);
        assert(child@ == ast@.branches[0]);
        let r = match arg {
            Ok(arg) => match f {
                FuncKind::Sqrt => {
                    if negative(arg) {
                        Err(
                            CalcrError {
                                kind: ErrorKind::DomainError,
                                desc: String::from_str(
                                    "Cannot take the square root of a negative number",
                                ),
                                span: Some(child.get_total_span()),
                            },
                        )
                    } else {
                        ask(kernel, Calc::Function(f, arg))
                    }
                },
                FuncKind::Ln | FuncKind::Log => {
                    if non_positive(arg) {
                        Err(
                            CalcrError {
                                kind: ErrorKind::DomainError,
                                desc: String::from_str(
                                    "Cannot take the logarithm of a non-positive number",
                                ),
                                span: Some(child.get_total_span()),
                            },
                        )
                    } else {
                        ask(kernel, Calc::Function(f, arg))
                    }
                },
                _ => ask(kernel, Calc::Function(f, arg)),
            },
            Err(e) => Err(e),
        };
        let ghost run = Run { out: value_view(r), subs: seq![sub] };
        (r, Ghost(run))
    }

    fn eval_op<K: Fn(Calc) -> u64>(&self, op: OpKind, ast: &Ast, kernel: &K) -> (res: (
        CalcrResult<u64>,
        Ghost<Run>,
    ))
        requires
            self.wf(),
            serves(*kernel),
            ast@.val == AstValView::Op(op),
        ensures
            sound(ast@, self@, answers(*kernel), res.1@),
            res.1@.out == value_view(res.0),
        decreases ast, 0nat,
    {
        if ast.branches.len() == 2 {
            let (lhs, Ghost(left)) = self.eval_eq(&ast.branches[0], kernel);
            let lhs = match lhs {
                Ok(lhs) => lhs,
                Err(e) => {
                    let ghost run = Run { out: Err(e@), subs: seq![left] };
                    return (Err(e), Ghost(run));
                },
            };
            let (rhs, Ghost(right)) = self.eval_eq(&ast.branches[1], kernel);
            let r = match rhs {
                Ok(rhs) => match op {
                    OpKind::Plus => ask(kernel, Calc::Add(lhs, rhs)),
                    OpKind::Minus => ask(kernel, Calc::Sub(lhs, rhs)),
                    OpKind::Mult => ask(kernel, Calc::Mul(lhs, rhs)),
                    OpKind::Div => ask(kernel, Calc::Div(lhs, rhs)),
                    OpKind::Pow => ask(kernel, Calc::Pow(lhs, rhs)),
                    _ => Err(
                        CalcrError {
                            kind: ErrorKind::InternalError,
                            desc: String::from_str(
                                "Internal error - expected AstOp to have binary branch",
                            ),
                            span: None,
                        },
                    ),
                },
                Err(e) => Err(e),
            };
            let ghost run = Run { out: value_view(r), subs: seq![left, right] };
            (r, Ghost(run))
        } else if ast.branches.len() == 1 {
            let child = &ast.branches[0];
            let (val, Ghost(sub)) = self.eval_eq(child, kernel);
            let r = match val {
                Ok(val) => match op {
                    OpKind::Neg => ask(kernel, Calc::Negate(val)),
                    OpKind::Fact => self.evalf_fact(val, child, kernel),
                    _ => Err(
                        CalcrError {
                            kind: ErrorKind::InternalError,
                            desc: String::from_str(
                                "Internal error - expected AstOp to have unary branch",
                            ),
                            span: None,
                        },
                    ),
                },
                Err(e) => Err(e),
            };
            let ghost run = Run { out: value_view(r), subs: seq![sub] };
            (r, Ghost(run))
        } else {
            done(
                Err(
                    CalcrError {
                        kind: ErrorKind::InternalError,
                        desc: String::from_str(
                            "Internal error - AstOp nodes must have 1 or 2 branches",
                        ),
                        span: None,
                    },
                ),
            )
        }
    }

    fn eval_const<K: Fn(Calc) -> u64>(&self, c: ConstKind, kernel: &K) -> (r: CalcrResult<u64>)
        requires
            serves(*kernel),
        ensures
            asked(answers(*kernel), CalcView::Constant(c), value_view(r)),
    {
        ask(kernel, Calc::Constant(c))
    }

    fn evalf_fact<K: Fn(Calc) -> u64>(&self, num: u64, child: &Ast, kernel: &K) -> (r:
        CalcrResult<u64>)
        requires
            serves(*kernel),
        ensures
            factorial_of(num, child@.total_span(), answers(*kernel), value_view(r)),
    {
        if count(num) {
            ask(kernel, Calc::Factorial(num))
        } else {
            Err(
                CalcrError {
                    kind: ErrorKind::DomainError,
                    desc: String::from_str(
                        "The factorial function only accepts positive whole numbers",
                    ),
                    span: Some(child.get_total_span()),
                },
            )
        }
    }

    /// The value of the variable `name`, if it has one.
    fn lookup(&self, name: &String) -> (r: Option<u64>)
        requires
            self.wf(),
        ensures
            r == if self@.vars.dom().contains(name@) {
                Some(self@.vars[name@])
            } else {
                None
            },
    {
        let mut i: usize = 0;
        while i < self.vars.len()
            invariant
                self.wf(),
                i <= self.vars@.len(),
                forall|j: int| 0 <= j < i ==> (#[trigger] self.vars@[j]).0@ != name@,
            decreases self.vars@.len() - i,
        {
            if self.vars[i].0 == *name {
                assert(self.vars@[i as int].0@ == name@);
                assert(self.position(name@) == Some(i as int));
                return Some(self.vars[i].1);
            }
            i += 1;
        }
        None
    }

    /// Binds the variable `name` to `val`.
    fn store(&mut self, name: String, val: u64)
        requires
            old(self).wf(),
        ensures
            final(self).wf(),
            final(self)@ == (Env { vars: old(self)@.vars.insert(name@, val), last: old(self)@.last }),
    {
        let ghost before = *self;
        let mut i: usize = 0;
        while i < self.vars.len()
            invariant
                *self == before,
                before == *old(self),
                before.wf(),
                i <= self.vars@.len(),
                forall|j: int| 0 <= j < i ==> (#[trigger] self.vars@[j]).0@ != name@,
            decreases self.vars@.len() - i,
        {
            if self.vars[i].0 == name {
                let ghost key = name@;
                self.vars.set(i, (name, val));
                proof {
                    assert forall|n: Seq<char>| self.position(n) is Some <==> before.position(
                        n,
                    ) is Some by {
                        if before.position(n) is Some {
                            let at = before.position(n)->0;
                            assert(self.vars@[at].0@ == n);
                        }
                        if self.position(n) is Some {
                            let at = self.position(n)->0;
                            assert(before.vars@[at].0@ == n);
                        }
                    }
                    assert(self@.vars =~= before@.vars.insert(key, val)) by {
                        assert forall|n: Seq<char>| #[trigger]
                            self@.vars.dom().contains(n) implies self@.vars[n] == before@.vars.insert(
                            key,
                            val,
                        )[n] by {
                            let at = self.position(n)->0;
                            assert(before.vars@[at].0@ == n);
                            if n != key {
                                assert(before.position(n)->0 == at);
                            } else {
                                assert(at == i);
                            }
                        }
                        assert(self.position(key) is Some) by {
                            assert(self.vars@[i as int].0@ == key);
                        }
                    }
                }
                return ;
            }
            i += 1;
        }
        let ghost key = name@;
        self.vars.push((name, val));
        proof {
            assert(self.vars@[before.vars@.len() as int].0@ == key);
            assert forall|n: Seq<char>| self.position(n) is Some <==> (n == key || before.position(
                n,
            ) is Some) by {
                if before.position(n) is Some {
                    let at = before.position(n)->0;
                    assert(self.vars@[at].0@ == n);
                }
                if self.position(n) is Some {
                    let at = self.position(n)->0;
                    if at < before.vars@.len() {
                        assert(before.vars@[at].0@ == n);
                    }
                }
            }
            assert(self@.vars =~= before@.vars.insert(key, val)) by {
                assert forall|n: Seq<char>| #[trigger]
                    self@.vars.dom().contains(n) implies self@.vars[n] == before@.vars.insert(
                    key,
                    val,
                )[n] by {
                    let at = self.position(n)->0;
                    if n != key {
                        assert(before.vars@[at].0@ == n);
                        assert(before.position(n)->0 == at);
                    } else {
                        assert(at == before.vars@.len());
                    }
                }
            }
        }
    }
}

/// What a line does to the session. A line that fails leaves the session as
/// it was. An assignment that succeeds changes the variables and leaves the
/// last result. An expression that has a value makes the value the last
/// result and leaves the variables.
pub proof fn lemma_interprets_session(
    text: Seq<char>,
    env: Env,
    k: Answers,
    out: Outcome,
    after: Env,
)
    requires
        interprets(text, env, k, out, after),
    ensures
        match out {
            Err(_) => after == env,
            Ok(None) => after.last == env.last,
            Ok(Some(value)) => after.last == value && after.vars == env.vars,
        },
{
}

/// With a kernel that has one answer to every request, a tree has one
/// outcome in a given session.
pub proof fn lemma_sound_deterministic(a: AstView, env: Env, k: Answers, first: Run, second: Run)
    requires
        single_valued(k),
        sound(a, env, k, first),
        sound(a, env, k, second),
    ensures
        first.out == second.out,
    decreases a,
{
    match a.val {
        AstValView::Func(_) => {
            if a.branches.len() == 1 {
                lemma_sound_deterministic(a.branches[0], env, k, first.subs[0], second.subs[0]);
            }
        },
        AstValView::Op(_) => {
            if a.branches.len() == 2 {
                lemma_sound_deterministic(a.branches[0], env, k, first.subs[0], second.subs[0]);
                if first.subs[0].out is Ok {
                    lemma_sound_deterministic(
                        a.branches[1],
                        env,
                        k,
                        first.subs[1],
                        second.subs[1],
                    );
                }
            } else if a.branches.len() == 1 {
                lemma_sound_deterministic(a.branches[0], env, k, first.subs[0], second.subs[0]);
            }
        },
        _ => {},
    }
}

/// Running the same tree twice in the same session, with a kernel that has
/// one answer to every request, gives the same result or the same error, and
/// leaves the same session.
pub proof fn lemma_executes_deterministic(
    a: AstView,
    env: Env,
    k: Answers,
    out1: Outcome,
    after1: Env,
    out2: Outcome,
    after2: Env,
)
    requires
        single_valued(k),
        executes(a, env, k, out1, after1),
        executes(a, env, k, out2, after2),
    ensures
        out1 == out2,
        after1 == after2,
{
    if a.val == AstValView::Op(OpKind::Assign) {
        if a.branches.len() == 2 && a.branches[0].val is Name {
            let name = a.branches[0].val->Name_0;
            let run1 = choose|run: Run| #[trigger]
                sound(a.branches[1], env, k, run) && assigned(name, run.out, env, out1, after1);
            let run2 = choose|run: Run| #[trigger]
                sound(a.branches[1], env, k, run) && assigned(name, run.out, env, out2, after2);
            lemma_sound_deterministic(a.branches[1], env, k, run1, run2);
        }
    } else {
        let run1 = choose|run: Run| #[trigger]
            sound(a, env, k, run) && remembered(run.out, env, out1, after1);
        let run2 = choose|run: Run| #[trigger]
            sound(a, env, k, run) && remembered(run.out, env, out2, after2);
        lemma_sound_deterministic(a, env, k, run1, run2);
    }
}

/// Submitting the same line to sessions in the same state, with a kernel
/// that has one answer to every request, gives the same result or the same
/// error, with the same kind, description and span, and leaves the sessions
/// in the same state.
pub proof fn lemma_interprets_deterministic(
    text: Seq<char>,
    env: Env,
    k: Answers,
    out1: Outcome,
    after1: Env,
    out2: Outcome,
    after2: Env,
)
    requires
        single_valued(k),
        interprets(text, env, k, out1, after1),
        interprets(text, env, k, out2, after2),
    ensures
        out1 == out2,
        after1 == after2,
{
    if let Ok(toks) = lex(text) {
        if let Ok(a) = parse(toks) {
            lemma_executes_deterministic(a, env, k, out1, after1, out2, after2);
        }
    }
}

/// Evaluating a tree in which every node has as many children as its kind
/// demands, and in which there is no assignment, gives no internal error.
pub proof fn lemma_sound_no_internal_error(a: AstView, env: Env, k: Answers, run: Run)
    requires
        a.well_formed(),
        a.assignment_free(),
        sound(a, env, k, run),
    ensures
        run.out matches Err(e) ==> e.kind != ErrorKind::InternalError,
    decreases a,
{
    match a.val {
        AstValView::Func(_) => {
            lemma_sound_no_internal_error(a.branches[0], env, k, run.subs[0]);
        },
        AstValView::Op(op) => {
            lemma_sound_no_internal_error(a.branches[0], env, k, run.subs[0]);
            if a.branches.len() == 2 && run.subs[0].out is Ok {
                lemma_sound_no_internal_error(a.branches[1], env, k, run.subs[1]);
            }
        },
        _ => {},
    }
}

/// Running a tree in which every node has as many children as its kind
/// demands, and which is an expression or the assignment of an expression to
/// a name, gives no internal error.
pub proof fn lemma_executes_no_internal_error(
    a: AstView,
    env: Env,
    k: Answers,
    out: Outcome,
    after: Env,
)
    requires
        a.well_formed(),
        a.is_statement(),
        executes(a, env, k, out, after),
    ensures
        out matches Err(e) ==> e.kind != ErrorKind::InternalError,
{
    if a.val == AstValView::Op(OpKind::Assign) {
        let name = a.branches[0].val->Name_0;
        let run = choose|run: Run| #[trigger]
            sound(a.branches[1], env, k, run) && assigned(name, run.out, env, out, after);
        lemma_sound_no_internal_error(a.branches[1], env, k, run);
    } else {
        let run = choose|run: Run| #[trigger]
            sound(a, env, k, run) && remembered(run.out, env, out, after);
        lemma_sound_no_internal_error(a, env, k, run);
    }
}

/// No line of input leads to an internal error: what the parser builds from
/// it is a tree that the evaluator takes.
pub proof fn lemma_interprets_no_internal_error(
    text: Seq<char>,
    env: Env,
    k: Answers,
    out: Outcome,
    after: Env,
)
    requires
        interprets(text, env, k, out, after),
    ensures
        out matches Err(e) ==> e.kind != ErrorKind::InternalError,
{
    lemma_lex_errors(text, 0);
    if let Ok(toks) = lex(text) {
        lemma_parse_conforming(toks);
        if let Ok(a) = parse(toks) {
            lemma_executes_no_internal_error(a, env, k, out, after);
        }
    }
}

/// An error of an evaluation points into the input, where the span of every
/// node of the tree lies in the input: if no span in the tree ends before it
/// starts, or beyond `limit`, then neither does the range that the error
/// points at.
pub proof fn lemma_sound_located(a: AstView, env: Env, k: Answers, run: Run, limit: nat)
    requires
        a.spans_wf(),
        sound(a, env, k, run),
    ensures
        run.out matches Err(e) ==> e.within(usize::MAX as nat),
        run.out matches Err(e) ==> (a.spans_below(limit) ==> e.within(limit)),
    decreases a,
{
    lemma_total_span(a);
    if a.spans_below(limit) {
        lemma_total_span_below(a, limit);
    }
    if a.branches.len() >= 1 {
        lemma_total_span(a.branches[0]);
        if a.spans_below(limit) {
            lemma_total_span_below(a.branches[0], limit);
        }
    }
    match a.val {
        AstValView::Func(_) => {
            if a.branches.len() == 1 {
                lemma_sound_located(a.branches[0], env, k, run.subs[0], limit);
            }
        },
        AstValView::Op(_) => {
            if a.branches.len() == 2 {
                lemma_sound_located(a.branches[0], env, k, run.subs[0], limit);
                if run.subs[0].out is Ok {
                    lemma_sound_located(a.branches[1], env, k, run.subs[1], limit);
                }
            } else if a.branches.len() == 1 {
                lemma_sound_located(a.branches[0], env, k, run.subs[0], limit);
            }
        },
        _ => {},
    }
}

/// [`lemma_sound_located`] for every limit at once.
proof fn lemma_sound_located_in_each(a: AstView, env: Env, k: Answers, run: Run)
    requires
        a.spans_wf(),
        sound(a, env, k, run),
    ensures
        run.out matches Err(e) ==> e.within(usize::MAX as nat),
        forall|limit: nat| #[trigger]
            a.spans_below(limit) ==> (run.out matches Err(e) ==> e.within(limit)),
{
    lemma_sound_located(a, env, k, run, 0);
    assert forall|limit: nat| #[trigger] a.spans_below(limit) implies (run.out matches Err(e)
        ==> e.within(limit)) by {
        lemma_sound_located(a, env, k, run, limit);
    }
}

/// An error of a run points into the input, where the span of every node of
/// the tree lies in the input.
pub proof fn lemma_executes_located(
    a: AstView,
    env: Env,
    k: Answers,
    out: Outcome,
    after: Env,
    limit: nat,
)
    requires
        a.spans_wf(),
        a.spans_below(limit),
        executes(a, env, k, out, after),
    ensures
        out matches Err(e) ==> e.within(limit),
{
    if a.val == AstValView::Op(OpKind::Assign) {
        if a.branches.len() == 2 && a.branches[0].val is Name {
            let name = a.branches[0].val->Name_0;
            let run = choose|run: Run| #[trigger]
                sound(a.branches[1], env, k, run) && assigned(name, run.out, env, out, after);
            lemma_sound_located(a.branches[1], env, k, run, limit);
        }
    } else {
        let run = choose|run: Run| #[trigger]
            sound(a, env, k, run) && remembered(run.out, env, out, after);
        lemma_sound_located(a, env, k, run, limit);
    }
}

/// Whatever error a line of input leads to, it points at a range of the
/// line that does not end before it starts.
pub proof fn lemma_interprets_located(
    text: Seq<char>,
    env: Env,
    k: Answers,
    out: Outcome,
    after: Env,
)
    requires
        text.len() <= usize::MAX,
        interprets(text, env, k, out, after),
    ensures
        out matches Err(e) ==> e.within(text.len()),
{
    lemma_lex_spans(text, 0);
    if let Ok(toks) = lex(text) {
        lemma_in_sequence_ordered(toks, text.len());
        lemma_reach_in_sequence(toks, text.len());
        lemma_parse_conforming(toks);
        if let Ok(a) = parse(toks) {
            lemma_spans_below(a, reach(toks) as nat, text.len());
            lemma_executes_located(a, env, k, out, after, text.len());
        }
    }
}

} // verus!
